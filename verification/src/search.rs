//! The bounded-window match finder used by the compressor.

use vstd::prelude::*;

verus! {

/// Longest run that a back-reference at cursor `cp` with distance `off` may
/// copy: capped by the coded maximum 18, by the bytes left after `cp`, and by
/// `off` itself (the copy must be a genuine back-reference).
pub open spec fn match_limit(d: Seq<u8>, cp: int, off: int) -> int {
    let rest = d.len() - cp;
    let a = if rest < 18 {
        rest
    } else {
        18
    };
    if off < a {
        off
    } else {
        a
    }
}

pub open spec fn match_len_from(d: Seq<u8>, cp: int, off: int, l: int) -> int
    recommends
        0 <= l,
    decreases match_limit(d, cp, off) - l,
{
    if l >= match_limit(d, cp, off) {
        l
    } else if d[cp + l] != d[cp + l - off] {
        l
    } else {
        match_len_from(d, cp, off, l + 1)
    }
}

/// Length of the longest common prefix of `d[cp..]` and `d[cp - off..]`,
/// capped at `match_limit`.
pub open spec fn match_len(d: Seq<u8>, cp: int, off: int) -> int {
    match_len_from(d, cp, off, 0)
}

proof fn lemma_match_len_from_bounds(d: Seq<u8>, cp: int, off: int, l: int)
    requires
        0 <= l,
    ensures
        match_len_from(d, cp, off, l) >= l,
        l <= match_limit(d, cp, off) ==> match_len_from(d, cp, off, l) <= match_limit(d, cp, off),
    decreases match_limit(d, cp, off) - l,
{
    if l < match_limit(d, cp, off) && d[cp + l] == d[cp + l - off] {
        lemma_match_len_from_bounds(d, cp, off, l + 1);
    }
}

pub proof fn lemma_match_len_bounds(d: Seq<u8>, cp: int, off: int)
    ensures
        0 <= match_len(d, cp, off),
        0 <= match_limit(d, cp, off) ==> match_len(d, cp, off) <= match_limit(d, cp, off),
{
    lemma_match_len_from_bounds(d, cp, off, 0);
}

/// Returns `(best_len, best_pos)`: the longest match for the cursor `cp`
/// within the window of distances `3..=min(cp, 4098)`, preferring the smallest
/// distance among equal lengths, with `(2, 0)` when no profitable match
/// exists. The scan stops early once the coded maximum 18 is reached.
pub(crate) fn compression_search(data: &[u8], current_position: usize) -> (r: (usize, usize))
    requires
        current_position <= data@.len(),
    ensures
        ({
            let max = if current_position >= 4098 {
                4098int
            } else {
                current_position as int
            };
            let len = r.0 as int;
            let pos = r.1 as int;
            &&& 2 <= len <= 18
            &&& (len == 2 ==> pos == 0 && forall|o: int|
                3 <= o <= max ==> match_len(data@, current_position as int, o) <= 2)
            &&& (len > 2 ==> {
                &&& 3 <= pos <= max
                &&& match_len(data@, current_position as int, pos) == len
                &&& len <= data@.len() - current_position
                &&& len <= pos
                &&& forall|o: int|
                    3 <= o <= max ==> match_len(data@, current_position as int, o) <= len
                &&& forall|o: int|
                    3 <= o < pos ==> match_len(data@, current_position as int, o) < len
            })
        }),
{
    let cp = current_position;
    let ghost dd = data@;
    let mut len: usize = 2;
    let mut pos: usize = 0;
    let max: usize = if cp >= 4098 {
        4098
    } else {
        cp
    };
    let rest = data.len() - cp;

    let mut tmp_pos: usize = 3;
    while tmp_pos <= max
        invariant
            dd == data@,
            cp == current_position,
            cp <= dd.len(),
            rest == dd.len() - cp,
            max == if cp >= 4098 {
                4098int
            } else {
                cp as int
            },
            dd.len() <= usize::MAX,
            3 <= tmp_pos,
            2 <= len <= 18,
            len == 2 ==> pos == 0,
            len > 2 ==> 3 <= pos < tmp_pos && pos <= max && match_len(dd, cp as int, pos as int)
                == len && len <= dd.len() - cp && len <= pos,
            forall|o: int| 3 <= o < tmp_pos ==> match_len(dd, cp as int, o) <= len,
            forall|o: int| 3 <= o < pos ==> match_len(dd, cp as int, o) < len,
        decreases max + 1 - tmp_pos,
    {
        let mut tmp_len: usize = 0;
        let ghost limit = match_limit(dd, cp as int, tmp_pos as int);
        proof {
            lemma_match_len_from_bounds(dd, cp as int, tmp_pos as int, 0);
        }
        loop
            invariant
                dd == data@,
                cp <= dd.len(),
                rest == dd.len() - cp,
                dd.len() <= usize::MAX,
                3 <= tmp_pos <= cp,
                limit == match_limit(dd, cp as int, tmp_pos as int),
                0 <= tmp_len <= limit,
                match_len(dd, cp as int, tmp_pos as int) == match_len_from(
                    dd,
                    cp as int,
                    tmp_pos as int,
                    tmp_len as int,
                ),
            ensures
                tmp_len == match_len(dd, cp as int, tmp_pos as int),
            decreases 18 - tmp_len,
        {
            if tmp_len >= 18 || tmp_len == rest || tmp_len >= tmp_pos {
                proof {
                    assert(tmp_len as int >= limit);
                }
                break ;
            }
            if data[cp + tmp_len] != data[cp + tmp_len - tmp_pos] {
                proof {
                    assert((tmp_len as int) < limit);
                }
                break ;
            }
            tmp_len = tmp_len + 1;
        }

        if tmp_len > len {
            pos = tmp_pos;
            len = tmp_len;
            if len == 18 {
                proof {
                    assert forall|o: int| 3 <= o <= max implies match_len(dd, cp as int, o)
                        <= 18 by {
                        lemma_match_len_bounds(dd, cp as int, o);
                    }
                }
                return (len, pos);
            }
        }
        tmp_pos = tmp_pos + 1;
    }
    (len, pos)
}

} // verus!
