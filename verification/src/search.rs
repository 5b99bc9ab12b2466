use vstd::prelude::*;

verus! {

use crate::order::LinearOrder;
use crate::order::strictly_below;

/// A sequence whose views are strictly ascending: no equal entries, every
/// earlier entry below every later one.
pub open spec fn strictly_sorted<T: LinearOrder>(s: Seq<T>) -> bool {
    forall|i: int, j: int| #![trigger s[i], s[j]]
        0 <= i < j < s.len() ==> strictly_below::<T>(s[i]@, s[j]@)
}

/// What a search returns: the position of the target when it occurs in the
/// sequence, nothing when it does not.
pub open spec fn search_result<T: LinearOrder>(s: Seq<T>, target: T::V, r: Option<usize>) -> bool {
    match r {
        Some(k) => k < s.len() && s[k as int]@ == target,
        None => forall|i: int| 0 <= i < s.len() ==> s[i]@ != target,
    }
}

/// On a strictly sorted sequence the target has at most one position, so any
/// two results that a search may return are the same.
pub proof fn lemma_search_result_unique<T: LinearOrder>(
    s: Seq<T>,
    target: T::V,
    r1: Option<usize>,
    r2: Option<usize>,
)
    requires
        strictly_sorted(s),
        search_result(s, target, r1),
        search_result(s, target, r2),
    ensures
        r1 == r2,
{
    match (r1, r2) {
        (Some(k1), Some(k2)) => {
            if k1 < k2 {
                assert(strictly_below::<T>(s[k1 as int]@, s[k2 as int]@));
            }
            if k2 < k1 {
                assert(strictly_below::<T>(s[k2 as int]@, s[k1 as int]@));
            }
        },
        (Some(k1), None) => {
            assert(s[k1 as int]@ != target);
        },
        (None, Some(k2)) => {
            assert(s[k2 as int]@ != target);
        },
        (None, None) => {},
    }
}

/// A target that occurs in a strictly sorted sequence is found: any result
/// that a search may return is `Some` of the target's position.
pub proof fn lemma_present_target_found<T: LinearOrder>(
    s: Seq<T>,
    target: T::V,
    r: Option<usize>,
    w: int,
)
    requires
        strictly_sorted(s),
        search_result(s, target, r),
        0 <= w < s.len(),
        s[w]@ == target,
    ensures
        r == Some(w as usize),
{
    match r {
        None => {
            assert(s[w]@ != target);
        },
        Some(k) => {
            if (k as int) < w {
                assert(strictly_below::<T>(s[k as int]@, s[w]@));
            }
            if w < k as int {
                assert(strictly_below::<T>(s[w]@, s[k as int]@));
            }
        },
    }
}

/// Binary search over a strictly sorted slice, every element access checked
/// against the slice length.
pub fn binary_search_safe<T: LinearOrder>(slice: &[T], target: &T) -> (r: Option<usize>)
    requires
        strictly_sorted(slice@),
    ensures
        search_result(slice@, target@, r),
{
    let mut low: usize = 0;
    let mut high: usize = slice.len();
    while low < high
        invariant
            low <= high <= slice@.len(),
            strictly_sorted(slice@),
            forall|i: int| #![trigger slice@[i]] 0 <= i < low ==> slice@[i]@ != target@,
            forall|i: int| #![trigger slice@[i]] high <= i < slice@.len() ==> slice@[i]@
                != target@,
        decreases high - low,
    {
        let mid = low + (high - low) / 2;
        let mid_val = &slice[mid];
        if mid_val.lt_exec(target) {
            proof {
                assert forall|i: int| 0 <= i <= mid implies slice@[i]@ != target@ by {
                    if slice@[i]@ == target@ {
                        if i < mid {
                            T::le_antisymmetric(slice@[mid as int]@, target@);
                        }
                        assert(false);
                    }
                }
            }
            low = mid + 1;
        } else if target.lt_exec(mid_val) {
            proof {
                assert forall|i: int| mid <= i < slice@.len() implies slice@[i]@ != target@ by {
                    if slice@[i]@ == target@ {
                        if mid < i {
                            T::le_antisymmetric(slice@[mid as int]@, target@);
                        }
                        assert(false);
                    }
                }
            }
            high = mid;
        } else {
            proof {
                T::le_total(slice@[mid as int]@, target@);
            }
            return Some(mid);
        }
    }
    None
}

/// Hands out the element at a position that the caller has already proved in
/// bounds; the access itself adds no check of its own beyond that proof.
fn element_at<'a, T: LinearOrder>(slice: &'a [T], i: usize) -> (r: &'a T)
    requires
        i < slice@.len(),
    ensures
        *r == slice@[i as int],
{
    &slice[i]
}

/// The same search, with every element access justified by the loop
/// invariant `low <= mid < high <= length` rather than checked on the spot:
/// the obligation a raw, unchecked dereference would rest on is here
/// discharged once, at the proof of the invariant.
pub fn binary_search_unchecked<T: LinearOrder>(slice: &[T], target: &T) -> (r: Option<usize>)
    requires
        strictly_sorted(slice@),
    ensures
        search_result(slice@, target@, r),
{
    let mut low: usize = 0;
    let mut high: usize = slice.len();
    while low < high
        invariant
            low <= high <= slice@.len(),
            strictly_sorted(slice@),
            forall|i: int| #![trigger slice@[i]] 0 <= i < low ==> slice@[i]@ != target@,
            forall|i: int| #![trigger slice@[i]] high <= i < slice@.len() ==> slice@[i]@
                != target@,
        decreases high - low,
    {
        let mid = low + (high - low) / 2;
        assert(low <= mid < high);
        let mid_val = element_at(slice, mid);
        if mid_val.lt_exec(target) {
            proof {
                assert forall|i: int| 0 <= i <= mid implies slice@[i]@ != target@ by {
                    if slice@[i]@ == target@ {
                        if i < mid {
                            T::le_antisymmetric(slice@[mid as int]@, target@);
                        }
                        assert(false);
                    }
                }
            }
            low = mid + 1;
        } else if target.lt_exec(mid_val) {
            proof {
                assert forall|i: int| mid <= i < slice@.len() implies slice@[i]@ != target@ by {
                    if slice@[i]@ == target@ {
                        if mid < i {
                            T::le_antisymmetric(slice@[mid as int]@, target@);
                        }
                        assert(false);
                    }
                }
            }
            high = mid;
        } else {
            proof {
                T::le_total(slice@[mid as int]@, target@);
            }
            return Some(mid);
        }
    }
    None
}

} // verus!
