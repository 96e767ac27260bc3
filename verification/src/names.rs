//! Classification of scene-graph node names.
//!
//! A node marks collision-hull geometry exactly when its name ends with
//! `_hull` or contains `_hull_`. Names are kept as UTF-8 bytes; the two
//! patterns are pure ASCII, so matching on bytes is the same as matching on
//! characters.

use vstd::prelude::*;

verus! {

/// The byte string `_hull`.
pub open spec fn hull_suffix() -> Seq<u8> {
    seq![95u8, 104u8, 117u8, 108u8, 108u8]
}

/// The byte string `_hull_`.
pub open spec fn hull_infix() -> Seq<u8> {
    seq![95u8, 104u8, 117u8, 108u8, 108u8, 95u8]
}

/// `s` ends with `pat`.
pub open spec fn ends_with(s: Seq<u8>, pat: Seq<u8>) -> bool {
    pat.len() <= s.len() && s.skip(s.len() - pat.len()) == pat
}

/// `pat` occurs in `s` at position `i`.
pub open spec fn matches_at(s: Seq<u8>, pat: Seq<u8>, i: int) -> bool {
    0 <= i && i + pat.len() <= s.len() && s.subrange(i, i + pat.len()) == pat
}

/// `pat` occurs somewhere in `s`.
pub open spec fn contains_pattern(s: Seq<u8>, pat: Seq<u8>) -> bool {
    exists|i: int| matches_at(s, pat, i)
}

/// The hull predicate on a name: it ends with `_hull` or contains `_hull_`.
pub open spec fn is_hull_name(name: Seq<u8>) -> bool {
    ends_with(name, hull_suffix()) || contains_pattern(name, hull_infix())
}

/// Does `name` end with the bytes of `_hull`?
fn name_ends_with_hull(name: &Vec<u8>) -> (r: bool)
    ensures
        r == ends_with(name@, hull_suffix()),
{
    let n = name.len();
    if n < 5 {
        return false;
    }
    let r = name[n - 5] == 95 && name[n - 4] == 104 && name[n - 3] == 117 && name[n - 2] == 108
        && name[n - 1] == 108;
    proof {
        let tail = name@.skip(n - 5);
        if r {
            assert(tail =~= hull_suffix());
        } else {
            assert(ends_with(name@, hull_suffix()) ==> {
                &&& name@[n - 5] == 95
                &&& name@[n - 4] == 104
                &&& name@[n - 3] == 117
                &&& name@[n - 2] == 108
                &&& name@[n - 1] == 108
            }) by {
                if ends_with(name@, hull_suffix()) {
                    assert(tail[0] == hull_suffix()[0]);
                    assert(tail[1] == hull_suffix()[1]);
                    assert(tail[2] == hull_suffix()[2]);
                    assert(tail[3] == hull_suffix()[3]);
                    assert(tail[4] == hull_suffix()[4]);
                }
            }
        }
    }
    r
}

/// Does `name` contain the bytes of `_hull_`?
fn name_contains_hull_infix(name: &Vec<u8>) -> (r: bool)
    ensures
        r == contains_pattern(name@, hull_infix()),
{
    let n = name.len();
    if n < 6 {
        return false;
    }
    let mut i: usize = 0;
    while i <= n - 6
        invariant
            n == name@.len(),
            6 <= n,
            0 <= i <= n - 5,
            forall|j: int| 0 <= j < i ==> !matches_at(name@, hull_infix(), j),
        decreases n - i,
    {
        let hit = name[i] == 95 && name[i + 1] == 104 && name[i + 2] == 117 && name[i + 3] == 108
            && name[i + 4] == 108 && name[i + 5] == 95;
        if hit {
            proof {
                assert(name@.subrange(i as int, i + 6) =~= hull_infix());
                assert(matches_at(name@, hull_infix(), i as int));
            }
            return true;
        }
        proof {
            let window = name@.subrange(i as int, i + 6);
            assert(!matches_at(name@, hull_infix(), i as int)) by {
                if matches_at(name@, hull_infix(), i as int) {
                    assert(window[0] == hull_infix()[0]);
                    assert(window[1] == hull_infix()[1]);
                    assert(window[2] == hull_infix()[2]);
                    assert(window[3] == hull_infix()[3]);
                    assert(window[4] == hull_infix()[4]);
                    assert(window[5] == hull_infix()[5]);
                }
            }
        }
        i += 1;
    }
    proof {
        assert(forall|j: int| #[trigger] matches_at(name@, hull_infix(), j) ==> 0 <= j < i)
            by {
            assert(forall|j: int| j + 6 > n ==> !matches_at(name@, hull_infix(), j));
        }
    }
    false
}

/// The hull predicate, executable: `name` ends with `_hull` or contains
/// `_hull_`.
pub fn name_matches_hull(name: &Vec<u8>) -> (r: bool)
    ensures
        r == is_hull_name(name@),
{
    name_ends_with_hull(name) || name_contains_hull_infix(name)
}

} // verus!
