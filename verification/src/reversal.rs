//! In-place reversal of a byte range.

use vstd::prelude::*;

verus! {

/// Reverses `data[start..end]` in place; bytes outside the range are untouched.
pub(crate) fn invert_slice(data: &mut [u8], start: usize, end: usize)
    requires
        start <= end,
        end <= old(data)@.len(),
    ensures
        final(data)@.len() == old(data)@.len(),
        final(data)@.subrange(start as int, end as int) == old(data)@.subrange(
            start as int,
            end as int,
        ).reverse(),
        forall|j: int|
            0 <= j < old(data)@.len() && !(start <= j < end) ==> final(data)@[j] == old(
                data,
            )@[j],
{
    let mut i = start;
    let mut j = end;
    while j - i > 1
        invariant
            start <= i <= j <= end,
            end <= data@.len(),
            data@.len() == old(data)@.len(),
            i - start == end - j,
            forall|k: int| start <= k < i ==> data@[k] == old(data)@[start + end - 1 - k],
            forall|k: int| j <= k < end ==> data@[k] == old(data)@[start + end - 1 - k],
            forall|k: int| i <= k < j ==> data@[k] == old(data)@[k],
            forall|k: int| 0 <= k < data@.len() && !(start <= k < end) ==> data@[k] == old(data)@[k],
        decreases j - i,
    {
        let a = data[i];
        let b = data[j - 1];
        data[i] = b;
        data[j - 1] = a;
        i = i + 1;
        j = j - 1;
    }
    proof {
        assert(data@.subrange(start as int, end as int) =~= old(data)@.subrange(
            start as int,
            end as int,
        ).reverse());
    }
}

} // verus!
