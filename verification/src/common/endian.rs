use vstd::prelude::*;

verus! {

/// The byte order used when encoding and decoding primitive values.
#[derive(Debug, Clone, Copy, PartialEq, Eq, Structural)]
pub enum Endian {
    /// Native system endianness.
    ///
    /// This uses the endianness of the target platform. It is not portable and
    /// should generally only be used for machine-local data.
    Native,
    /// Little-endian representation.
    Little,
    /// Big-endian representation.
    Big,
}

/// Whether `endian` puts the least significant byte first. `Native` follows the byte
/// order of the machine the program runs on, which vstd names `endianness()`.
pub open spec fn is_little(endian: Endian) -> bool {
    match endian {
        Endian::Little => true,
        Endian::Big => false,
        Endian::Native => vstd::endian::endianness() is Little,
    }
}

/// `256` to the power `n`: the number of values that `n` bytes can hold.
pub open spec fn pow256(n: nat) -> nat
    decreases n,
{
    if n == 0 {
        1
    } else {
        256 * pow256((n - 1) as nat)
    }
}

/// The `n` bytes of `v`, least significant first (the high part of `v` beyond `n` bytes is dropped).
pub open spec fn le_bytes(v: nat, n: nat) -> Seq<u8>
    decreases n,
{
    if n == 0 {
        Seq::empty()
    } else {
        seq![(v % 256) as u8] + le_bytes(v / 256, (n - 1) as nat)
    }
}

/// The number that `bytes` stand for, least significant byte first.
pub open spec fn le_value(bytes: Seq<u8>) -> nat
    decreases bytes.len(),
{
    if bytes.len() == 0 {
        0
    } else {
        (bytes[0] + 256 * le_value(bytes.drop_first())) as nat
    }
}

/// The `n` bytes of the unsigned value `v` in the byte order of `endian`.
pub open spec fn uint_bytes(endian: Endian, v: nat, n: nat) -> Seq<u8> {
    if is_little(endian) {
        le_bytes(v, n)
    } else {
        le_bytes(v, n).reverse()
    }
}

/// The unsigned value that `bytes` stand for in the byte order of `endian`.
pub open spec fn uint_value(endian: Endian, bytes: Seq<u8>) -> nat {
    if is_little(endian) {
        le_value(bytes)
    } else {
        le_value(bytes.reverse())
    }
}

/// The two's complement pattern of `v` on `n` bytes, read as an unsigned number.
pub open spec fn unsigned_of(v: int, n: nat) -> nat {
    if v < 0 {
        (v + pow256(n)) as nat
    } else {
        v as nat
    }
}

/// The signed number whose two's complement pattern on `n` bytes is `u`.
pub open spec fn signed_of(u: nat, n: nat) -> int {
    if 2 * u >= pow256(n) {
        u - pow256(n)
    } else {
        u as int
    }
}

/// The `n` bytes of the signed value `v` in two's complement, in the byte order of `endian`.
pub open spec fn int_bytes(endian: Endian, v: int, n: nat) -> Seq<u8> {
    uint_bytes(endian, unsigned_of(v, n), n)
}

/// The signed value that `bytes` stand for in two's complement, in the byte order of `endian`.
pub open spec fn int_value(endian: Endian, bytes: Seq<u8>) -> int {
    signed_of(uint_value(endian, bytes), bytes.len())
}

pub proof fn lemma_pow256_positive(n: nat)
    ensures
        pow256(n) >= 1,
    decreases n,
{
    if n > 0 {
        lemma_pow256_positive((n - 1) as nat);
    }
}

pub proof fn lemma_pow256_values()
    ensures
        pow256(1) == 0x100,
        pow256(2) == 0x1_0000,
        pow256(4) == 0x1_0000_0000,
        pow256(8) == 0x1_0000_0000_0000_0000,
        pow256(16) == 0x1_0000_0000_0000_0000_0000_0000_0000_0000,
{
    reveal_with_fuel(pow256, 17);
}

pub proof fn lemma_pow256_monotone(m: nat, n: nat)
    requires
        m <= n,
    ensures
        pow256(m) <= pow256(n),
    decreases n,
{
    lemma_pow256_positive(n);
    if m < n {
        lemma_pow256_monotone(m, (n - 1) as nat);
    }
}

pub proof fn lemma_le_bytes_len(v: nat, n: nat)
    ensures
        le_bytes(v, n).len() == n,
    decreases n,
{
    if n > 0 {
        lemma_le_bytes_len(v / 256, (n - 1) as nat);
    }
}

/// `n` bytes hold numbers below `256^n`.
pub proof fn lemma_le_value_bound(bytes: Seq<u8>)
    ensures
        le_value(bytes) < pow256(bytes.len()),
    decreases bytes.len(),
{
    if bytes.len() > 0 {
        lemma_le_value_bound(bytes.drop_first());
    }
}

/// Reading back the bytes of a value that fits gives the value.
pub proof fn lemma_le_value_of_bytes(v: nat, n: nat)
    requires
        v < pow256(n),
    ensures
        le_value(le_bytes(v, n)) == v,
    decreases n,
{
    if n > 0 {
        let rest = le_bytes(v / 256, (n - 1) as nat);
        assert(le_bytes(v, n).drop_first() =~= rest);
        assert(v / 256 < pow256((n - 1) as nat));
        lemma_le_value_of_bytes(v / 256, (n - 1) as nat);
    }
}

/// Writing the value of some bytes gives the bytes back.
pub proof fn lemma_le_bytes_of_value(bytes: Seq<u8>)
    ensures
        le_bytes(le_value(bytes), bytes.len()) == bytes,
    decreases bytes.len(),
{
    if bytes.len() > 0 {
        let rest = bytes.drop_first();
        lemma_le_bytes_of_value(rest);
        let v = le_value(bytes);
        assert(v % 256 == bytes[0]);
        assert(v / 256 == le_value(rest));
        assert(le_bytes(v, bytes.len()) =~= seq![bytes[0]] + rest);
    }
}

/// The unsigned encoding is undone by the unsigned decoding, in every byte order.
pub proof fn lemma_uint_roundtrip(endian: Endian, v: nat, n: nat)
    requires
        v < pow256(n),
    ensures
        uint_bytes(endian, v, n).len() == n,
        uint_value(endian, uint_bytes(endian, v, n)) == v,
{
    lemma_le_bytes_len(v, n);
    lemma_le_value_of_bytes(v, n);
    assert(le_bytes(v, n).reverse().reverse() =~= le_bytes(v, n));
}

/// The unsigned decoding is undone by the unsigned encoding, in every byte order.
pub proof fn lemma_uint_bytes_roundtrip(endian: Endian, bytes: Seq<u8>)
    ensures
        uint_value(endian, bytes) < pow256(bytes.len()),
        uint_bytes(endian, uint_value(endian, bytes), bytes.len()) == bytes,
{
    lemma_le_value_bound(bytes);
    lemma_le_value_bound(bytes.reverse());
    lemma_le_bytes_of_value(bytes);
    lemma_le_bytes_of_value(bytes.reverse());
    assert(bytes.reverse().reverse() =~= bytes);
}

/// The signed encoding is undone by the signed decoding, in every byte order.
pub proof fn lemma_int_roundtrip(endian: Endian, v: int, n: nat)
    requires
        n > 0,
        -pow256(n) <= 2 * v < pow256(n),
    ensures
        int_bytes(endian, v, n).len() == n,
        int_value(endian, int_bytes(endian, v, n)) == v,
{
    lemma_uint_roundtrip(endian, unsigned_of(v, n), n);
}

/// The signed decoding is undone by the signed encoding, in every byte order.
pub proof fn lemma_int_bytes_roundtrip(endian: Endian, bytes: Seq<u8>)
    ensures
        -pow256(bytes.len()) <= 2 * int_value(endian, bytes) < pow256(bytes.len()),
        int_bytes(endian, int_value(endian, bytes), bytes.len()) == bytes,
{
    lemma_uint_bytes_roundtrip(endian, bytes);
}

/// `u16::to_ne_bytes`. std returns the bytes of the value in the byte order of the target
/// platform; the contract claims that this order is the one vstd names `endianness()`, so
/// that it agrees with `Endian::Native` as `is_little` reads it.
#[verifier::external_body]
fn u16_to_ne_bytes(v: u16) -> (b: [u8; 2])
    ensures
        b@ == uint_bytes(Endian::Native, v as nat, 2),
{
    v.to_ne_bytes()
}

/// Whether the machine stores the least significant byte first.
fn native_is_little() -> (r: bool)
    ensures
        r == is_little(Endian::Native),
{
    let b = u16_to_ne_bytes(1);
    proof {
        reveal_with_fuel(le_bytes, 3);
        assert(le_bytes(1, 2) =~= seq![1u8, 0u8]);
        assert(le_bytes(1, 2).reverse() =~= seq![0u8, 1u8]);
    }
    b[0] == 1
}

/// Whether reading and writing with `endian` puts the least significant byte first.
pub(crate) fn resolve_little(endian: Endian) -> (r: bool)
    ensures
        r == is_little(endian),
{
    match endian {
        Endian::Native => native_is_little(),
        Endian::Little => true,
        Endian::Big => false,
    }
}

/// The `width` bytes of `v` in the chosen byte order.
pub(crate) fn encode_uint(v: u128, width: usize, little: bool) -> (out: Vec<u8>)
    requires
        width <= 16,
        v < pow256(width as nat),
    ensures
        out@ == (if little { le_bytes(v as nat, width as nat) } else { le_bytes(v as nat, width as nat).reverse() }),
{
    let mut le: Vec<u8> = Vec::new();
    let mut x: u128 = v;
    let mut i: usize = 0;
    proof {
        lemma_le_bytes_len(v as nat, width as nat);
    }
    while i < width
        invariant
            i <= width,
            le@ + le_bytes(x as nat, (width - i) as nat) == le_bytes(v as nat, width as nat),
        decreases width - i,
    {
        let ghost old_le = le@;
        assert(le_bytes(x as nat, (width - i) as nat) =~= seq![(x % 256) as u8] + le_bytes((x / 256) as nat, (width - i - 1) as nat));
        le.push((x % 256) as u8);
        assert(le@ + le_bytes((x / 256) as nat, (width - i - 1) as nat) =~= old_le + le_bytes(x as nat, (width - i) as nat));
        x = x / 256;
        i = i + 1;
    }
    assert(le@ =~= le_bytes(v as nat, width as nat));
    if little {
        return le;
    }
    let mut be: Vec<u8> = Vec::new();
    let mut j: usize = 0;
    while j < width
        invariant
            j <= width,
            le@.len() == width,
            be@.len() == j,
            forall|k: int| 0 <= k < j ==> be@[k] == le@[width - 1 - k],
        decreases width - j,
    {
        be.push(le[width - 1 - j]);
        j = j + 1;
    }
    assert(be@ =~= le@.reverse());
    be
}

/// The unsigned value of `bytes` in the chosen byte order.
pub(crate) fn decode_uint(bytes: &[u8], little: bool) -> (r: u128)
    requires
        bytes@.len() <= 16,
    ensures
        r == (if little { le_value(bytes@) } else { le_value(bytes@.reverse()) }),
{
    let n = bytes.len();
    let mut acc: u128 = 0;
    proof {
        lemma_pow256_values();
        lemma_pow256_monotone(n as nat, 16);
    }
    if little {
        let mut i: usize = n;
        while i > 0
            invariant
                i <= n,
                n == bytes@.len(),
                n <= 16,
                pow256(n as nat) <= pow256(16),
                pow256(16) == 0x1_0000_0000_0000_0000_0000_0000_0000_0000,
                acc == le_value(bytes@.subrange(i as int, n as int)),
            decreases i,
        {
            i = i - 1;
            let ghost tail = bytes@.subrange(i as int, n as int);
            assert(tail.drop_first() =~= bytes@.subrange(i + 1, n as int));
            proof {
                lemma_le_value_bound(bytes@.subrange(i + 1, n as int));
                lemma_pow256_monotone((n - i - 1) as nat, 15);
                lemma_pow256_values();
                reveal_with_fuel(pow256, 17);
            }
            acc = acc * 256 + bytes[i] as u128;
        }
        assert(bytes@.subrange(0, n as int) =~= bytes@);
    } else {
        let mut i: usize = 0;
        while i < n
            invariant
                i <= n,
                n == bytes@.len(),
                n <= 16,
                acc == le_value(bytes@.subrange(0, i as int).reverse()),
            decreases n - i,
        {
            let ghost head = bytes@.subrange(0, i + 1).reverse();
            assert(head.drop_first() =~= bytes@.subrange(0, i as int).reverse());
            assert(head[0] == bytes@[i as int]);
            proof {
                lemma_le_value_bound(bytes@.subrange(0, i as int).reverse());
                lemma_pow256_monotone(i as nat, 15);
                reveal_with_fuel(pow256, 17);
            }
            acc = acc * 256 + bytes[i] as u128;
            i = i + 1;
        }
        assert(bytes@.subrange(0, n as int) =~= bytes@);
    }
    acc
}

} // verus!
