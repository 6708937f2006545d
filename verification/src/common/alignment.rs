use vstd::prelude::*;
use vstd::arithmetic::power2::{is_pow2, is_pow2_exists, is_pow2_equiv};
use crate::error::Error;

verus! {

/// `alignment` is an alignment that positions can be rounded up to: a power of two.
pub open spec fn valid_alignment(alignment: int) -> bool {
    is_pow2_exists(alignment)
}

/// The number of bytes that bring `position` up to the next multiple of `alignment`.
pub open spec fn padding_for(position: int, alignment: int) -> int {
    (alignment - position % alignment) % alignment
}

/// Tells whether `n` is a power of two, by halving it while it is even.
fn is_power_of_two(n: usize) -> (r: bool)
    ensures
        r == valid_alignment(n as int),
{
    proof {
        is_pow2_equiv(n as int);
    }
    if n == 0 {
        proof {
            reveal(is_pow2);
        }
        return false;
    }
    let mut m: usize = n;
    while m % 2 == 0
        invariant
            m > 0,
            is_pow2(n as int) == is_pow2(m as int),
        decreases m,
    {
        proof {
            reveal(is_pow2);
        }
        m = m / 2;
    }
    proof {
        reveal(is_pow2);
    }
    m == 1
}

/// Returns the number of padding bytes needed to align the given position to the given alignment.
///
/// If the alignment is invalid (i.e., zero or not a power of two), an [Error::InvalidAlignment]
/// is returned.
pub fn alignment_padding(position: usize, alignment: usize) -> (r: Result<usize, Error>)
    ensures
        valid_alignment(alignment as int) ==> r == Ok::<usize, Error>(
            padding_for(position as int, alignment as int) as usize,
        ),
        !valid_alignment(alignment as int) ==> r == Err::<usize, Error>(Error::InvalidAlignment),
{
    proof {
        is_pow2_equiv(alignment as int);
        reveal(is_pow2);
    }
    if alignment == 0 || !is_power_of_two(alignment) {
        return Err(Error::InvalidAlignment);
    }
    let rem = position % alignment;
    Ok((alignment - rem) % alignment)
}

/// Padding rounds a position up to the next multiple of the alignment, and no further:
/// the padded position is a multiple of the alignment, the padding is less than the
/// alignment, and no shorter padding reaches a multiple.
pub proof fn lemma_padding_aligns(position: int, alignment: int)
    requires
        valid_alignment(alignment),
    ensures
        position >= 0 ==> (position + padding_for(position, alignment)) % alignment == 0,
        0 <= padding_for(position, alignment) < alignment,
        forall|q: int| 0 <= q < padding_for(position, alignment) ==> #[trigger] ((position + q) % alignment) != 0,
        (position % alignment == 0) <==> padding_for(position, alignment) == 0,
{
    is_pow2_equiv(alignment as int);
    reveal(is_pow2);
    assert(alignment > 0);
    let a = alignment as int;
    let p = position as int;
    let r = p % a;
    assert(0 <= r < a) by (nonlinear_arith) requires a > 0, r == p % a;
    assert(p == a * (p / a) + r) by (nonlinear_arith) requires a > 0, r == p % a;
    if r == 0 {
        assert((a - r) % a == 0) by (nonlinear_arith) requires a > 0, r == 0;
        assert forall|q: int| 0 <= q < padding_for(position, alignment) implies #[trigger] ((position + q) % alignment) != 0 by {
        }
    } else {
        assert((a - r) % a == a - r) by (nonlinear_arith) requires a > 0, 0 < r < a;
        assert((p + (a - r)) % a == 0) by (nonlinear_arith) requires a > 0, p == a * (p / a) + r;
        assert forall|q: int| 0 <= q < padding_for(position, alignment) implies #[trigger] ((position + q) % alignment) != 0 by {
            assert((p + q) % a == r + q) by (nonlinear_arith) requires a > 0, p == a * (p / a) + r, 0 <= r, r + q < a, q >= 0, 0 < r;
        }
    }
}

/// Aligning twice is aligning once: a position moved on by its padding needs no more.
pub proof fn lemma_align_twice(position: int, alignment: int)
    requires
        valid_alignment(alignment),
        position >= 0,
    ensures
        padding_for(position + padding_for(position, alignment), alignment) == 0,
{
    lemma_padding_aligns(position, alignment);
    lemma_padding_aligns(position + padding_for(position, alignment), alignment);
}

} // verus!
