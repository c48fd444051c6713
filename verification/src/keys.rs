//! The reference count of the keys of a key list that fall in a half-open range.

use vstd::prelude::*;

verus! {

/// The keys of `s` that lie in `[lo, hi)`, in the order of `s`.
pub open spec fn keys_within(s: Seq<usize>, lo: int, hi: int) -> Seq<usize>
    decreases s.len(),
{
    if s.len() == 0 {
        Seq::empty()
    } else {
        let rest = keys_within(s.drop_last(), lo, hi);
        if lo <= s.last() < hi {
            rest.push(s.last())
        } else {
            rest
        }
    }
}

/// The number of keys of `keys` in `[lo, hi)`.
pub fn count_within(keys: &Vec<usize>, lo: usize, hi: usize) -> (c: usize)
    ensures
        c == keys_within(keys@, lo as int, hi as int).len(),
{
    let mut c: usize = 0;
    let mut i: usize = 0;
    while i < keys.len()
        invariant
            i <= keys.len(),
            c <= i,
            c == keys_within(keys@.take(i as int), lo as int, hi as int).len(),
        decreases keys.len() - i,
    {
        assert(keys@.take(i + 1).drop_last() =~= keys@.take(i as int));
        if lo <= keys[i] && keys[i] < hi {
            c = c + 1;
        }
        i = i + 1;
    }
    assert(keys@.take(keys.len() as int) =~= keys@);
    c
}

} // verus!
