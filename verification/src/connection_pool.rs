use vstd::prelude::*;

verus! {

/// The pool size that follows a periodic check: when no client is available and
/// the pool is below its maximum, it grows by half (capped at the maximum); when
/// more than half of it is available and it is above its minimum, it shrinks by a
/// quarter (kept at least at the minimum); otherwise it stays.
pub open spec fn next_pool_size_spec(available: usize, current: usize, min_size: usize, max_size: usize) -> int {
    if available == 0 && current < max_size {
        let grown = current + current / 2;
        if grown < max_size {
            grown
        } else {
            max_size as int
        }
    } else if available > current / 2 && current > min_size {
        let shrunk = current - current / 4;
        if shrunk > min_size {
            shrunk
        } else {
            min_size as int
        }
    } else {
        current as int
    }
}

/// The pool size that follows a check that found `available` idle clients in a
/// pool of `current` clients.
pub fn next_pool_size(available: usize, current: usize, min_size: usize, max_size: usize) -> (r: usize)
    requires
        available == 0 && current < max_size ==> current + current / 2 <= usize::MAX,
    ensures
        r == next_pool_size_spec(available, current, min_size, max_size),
{
    if available == 0 && current < max_size {
        let grown = current + current / 2;
        if grown < max_size {
            grown
        } else {
            max_size
        }
    } else if available > current / 2 && current > min_size {
        let shrunk = current - current / 4;
        if shrunk > min_size {
            shrunk
        } else {
            min_size
        }
    } else {
        current
    }
}

/// Resizing keeps the pool between its minimum and maximum size.
pub proof fn lemma_pool_size_in_bounds(available: usize, current: usize, min_size: usize, max_size: usize)
    requires
        min_size <= current <= max_size,
    ensures
        min_size <= next_pool_size_spec(available, current, min_size, max_size) <= max_size,
{
}

/// A pool with no idle client grows unless it is at its maximum (or too small
/// for half of it to be a whole client); one that is more than half idle never grows.
pub proof fn lemma_pool_size_direction(available: usize, current: usize, min_size: usize, max_size: usize)
    requires
        min_size <= current <= max_size,
    ensures
        available == 0 && current < max_size && current >= 2 ==> next_pool_size_spec(available, current, min_size, max_size) > current,
        available > current / 2 ==> next_pool_size_spec(available, current, min_size, max_size) <= current,
{
}

} // verus!
