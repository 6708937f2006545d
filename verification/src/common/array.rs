use vstd::prelude::*;
use crate::rw::collection::array_from_vec;

verus! {

/// Whether `f` can return a value when called with the index `i`.
pub open spec fn succeeds_at<T, E, F: FnMut(usize) -> Result<T, E>>(f: F, i: usize) -> bool {
    exists|v: T| call_ensures(f, (i,), Ok::<T, E>(v))
}

/// Creates an array of length `N` by calling the given function for each index, in order.
///
/// If the function returns an error for any index, the function returns that error at once,
/// and the elements made so far are dropped.
pub fn try_array_from_fn<T, E, const N: usize>(f: impl FnMut(usize) -> Result<T, E>) -> (r: Result<[T; N], E>)
    requires
        forall|i: usize| i < N ==> call_requires(f, (i,)),
    ensures
        r matches Ok(a) ==> forall|i: int| 0 <= i < N ==> call_ensures(f, (i as usize,), Ok::<T, E>(#[trigger] a@[i])),
        r matches Err(e) ==> exists|k: usize| #![trigger call_ensures(f, (k,), Err::<T, E>(e))] {
            &&& k < N
            &&& call_ensures(f, (k,), Err::<T, E>(e))
            &&& forall|i: usize| i < k ==> #[trigger] succeeds_at(f, i)
        },
{
    let mut g = f;
    let mut items: Vec<T> = Vec::new();
    let mut i: usize = 0;
    while i < N
        invariant
            forall|j: usize| j < N ==> call_requires(f, (j,)),
            g == f,
            i <= N,
            items@.len() == i,
            forall|j: int| 0 <= j < i ==> call_ensures(f, (j as usize,), Ok::<T, E>(#[trigger] items@[j])),
        decreases N - i,
    {
        match g(i) {
            Ok(v) => {
                items.push(v);
            },
            Err(e) => {
                assert forall|j: usize| j < i implies #[trigger] succeeds_at(f, j) by {
                    assert(call_ensures(f, ((j as int) as usize,), Ok::<T, E>(items@[j as int])));
                }
                // The elements made so far are dropped from the last to the first.
                while items.len() > 0
                    decreases items@.len(),
                {
                    let _ = items.pop();
                }
                let res: Result<[T; N], E> = Err(e);
                assert(call_ensures(f, (i,), Err::<T, E>(res->Err_0)));
                return res;
            },
        }
        i = i + 1;
    }
    Ok(array_from_vec(items))
}

} // verus!
