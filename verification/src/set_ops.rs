//! Intersection of string sets: the elements of the first list that every
//! other list also holds, in the first list's order.

use vstd::prelude::*;
use crate::strutil::str_eq;

verus! {

/// Whether a list holds the given characters.
pub open spec fn holds_str(s: Seq<String>, x: Seq<char>) -> bool {
    exists|i: int| 0 <= i < s.len() && (#[trigger] s[i])@ == x
}

/// Whether every list after the first holds the given characters.
pub open spec fn in_all_others(sets: Seq<Vec<String>>, x: Seq<char>) -> bool {
    forall|j: int| 1 <= j < sets.len() ==> holds_str((#[trigger] sets[j])@, x)
}

/// Decides whether a list holds the given characters.
fn vec_holds_str(v: &Vec<String>, x: &str) -> (r: bool)
    ensures
        r == holds_str(v@, x@),
{
    let n = v.len();
    let mut i: usize = 0;
    while i < n
        invariant
            n == v@.len(),
            0 <= i <= n,
            forall|j: int| 0 <= j < i ==> (#[trigger] v@[j])@ != x@,
        decreases n - i,
    {
        if str_eq(v[i].as_str(), x) {
            return true;
        }
        i += 1;
    }
    assert(!holds_str(v@, x@)) by {
        if holds_str(v@, x@) {
            let j = choose|j: int| 0 <= j < v@.len() && (#[trigger] v@[j])@ == x@;
        }
    }
    false
}

/// The common core of the two intersection entry points.
fn intersect_lists(input: &Vec<Vec<String>>) -> (r: Vec<String>)
    ensures
        input@.len() == 0 ==> r@.len() == 0,
        input@.len() > 0 ==> r@ == input@[0]@.filter(
            |s: String| in_all_others(input@, s@),
        ),
{
    let ghost pred = |s: String| in_all_others(input@, s@);
    if input.len() == 0 {
        return Vec::new();
    }
    let first = &input[0];
    let n = first.len();
    let k = input.len();
    let mut r: Vec<String> = Vec::new();
    let mut i: usize = 0;
    while i < n
        invariant
            pred == (|s: String| in_all_others(input@, s@)),
            n == first@.len(),
            k == input@.len(),
            k > 0,
            *first == input@[0],
            0 <= i <= n,
            r@ == first@.take(i as int).filter(pred),
        decreases n - i,
    {
        proof {
            reveal(Seq::filter);
            assert(first@.take(i + 1).drop_last() =~= first@.take(i as int));
            assert(first@.take(i + 1).last() == first@[i as int]);
        }
        let x = &first[i];
        let mut everywhere = true;
        let mut j: usize = 1;
        while j < k
            invariant
                k == input@.len(),
                1 <= j <= k,
                n == first@.len(),
                i < n,
                *first == input@[0],
                *x == first@[i as int],
                everywhere ==> forall|l: int|
                    1 <= l < j ==> holds_str((#[trigger] input@[l])@, x@),
                !everywhere ==> !in_all_others(input@, x@),
            decreases k - j,
        {
            if !vec_holds_str(&input[j], x.as_str()) {
                everywhere = false;
                proof {
                    assert(!holds_str(input@[j as int]@, x@));
                }
                j = k;
            } else {
                j += 1;
            }
        }
        proof {
            assert(everywhere == in_all_others(input@, x@));
            assert(pred(first@[i as int]) == in_all_others(input@, x@));
        }
        if everywhere {
            let ghost before = r@;
            r.push(x.clone());
            proof {
                assert(r@ =~= before.push(first@[i as int]));
            }
        }
        i += 1;
    }
    proof {
        assert(first@.take(n as int) =~= first@);
    }
    r
}

/// Intersection of sets: the elements common to all input lists, read off
/// the first list in order, duplicates included.  Inputs need not be
/// sorted.  No input lists yield the empty intersection.
pub fn intersection(input: Vec<Vec<String>>) -> (r: Vec<String>)
    ensures
        input@.len() == 0 ==> r@.len() == 0,
        input@.len() > 0 ==> r@ == input@[0]@.filter(
            |s: String| in_all_others(input@, s@),
        ),
{
    intersect_lists(&input)
}

/// Intersection of sorted sets: the same elements as `intersection`; with
/// sorted inputs the first list's order is the sorted order.
pub fn intersection_sorted(input: Vec<Vec<String>>) -> (r: Vec<String>)
    ensures
        input@.len() == 0 ==> r@.len() == 0,
        input@.len() > 0 ==> r@ == input@[0]@.filter(
            |s: String| in_all_others(input@, s@),
        ),
{
    intersect_lists(&input)
}

} // verus!
