use vstd::prelude::*;

verus! {

/// The fault-masking policy of the source: a failed read is reported as a
/// successful read that produced `default`; a successful one is passed on.
pub fn handle_ebadf<T, E>(r: Result<T, E>, default: T) -> (out: Result<T, E>)
    ensures
        r is Err ==> out == Ok::<T, E>(default),
        r is Ok ==> out == r,
{
    match r {
        Err(_e) => Ok(default),
        r => r,
    }
}

/// Masks the outcome of a read into a caller's buffer: a fault counts as a
/// read of zero bytes, so the source never reports an error.
pub fn masked_count<E>(r: Result<usize, E>) -> (n: usize)
    ensures
        match r {
            Ok(k) => n == k,
            Err(_) => n == 0,
        },
{
    match handle_ebadf(r, 0) {
        Ok(k) => k,
        Err(_) => 0,
    }
}

} // verus!
