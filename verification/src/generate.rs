use vstd::prelude::*;

verus! {

use crate::order::strictly_below;
use crate::search::strictly_sorted;
use crate::labels::{label_chars, label_string, lemma_label_chars_increases};

/// Produces the integers `0` through `size - 1`, in order: a strictly
/// ascending sequence with no gaps.
pub fn generate_sorted_int_vec(size: usize) -> (r: Vec<i32>)
    requires
        size <= 0x7fff_ffff,
    ensures
        r@.len() == size,
        forall|i: int| 0 <= i < size ==> r@[i] == i as i32,
        strictly_sorted(r@),
{
    let mut v: Vec<i32> = Vec::new();
    let mut i: usize = 0;
    while i < size
        invariant
            i <= size <= 0x7fff_ffff,
            v@.len() == i,
            forall|k: int| 0 <= k < i ==> v@[k] == k as i32,
        decreases size - i,
    {
        v.push(i as i32);
        i = i + 1;
    }
    proof {
        assert forall|a: int, b: int| #![trigger v@[a], v@[b]]
            0 <= a < b < v@.len() implies strictly_below::<i32>(v@[a]@, v@[b]@) by {
            assert(v@[a] == a as i32);
            assert(v@[b] == b as i32);
        }
    }
    v
}

/// Produces the labels of `0` through `size - 1`, in order: each one the
/// fixed stem with its index zero-padded to seven places, and the whole
/// strictly ascending in the lexicographic order.
pub fn generate_sorted_string_vec(size: usize) -> (r: Vec<String>)
    requires
        size <= 10_000_000,
    ensures
        r@.len() == size,
        forall|i: int| 0 <= i < size ==> r@[i]@ == label_chars(i),
        strictly_sorted(r@),
{
    let mut v: Vec<String> = Vec::new();
    let mut i: usize = 0;
    while i < size
        invariant
            i <= size <= 10_000_000,
            v@.len() == i,
            forall|k: int| 0 <= k < i ==> v@[k]@ == label_chars(k),
        decreases size - i,
    {
        let s = label_string(i);
        v.push(s);
        i = i + 1;
    }
    proof {
        assert forall|a: int, b: int| #![trigger v@[a], v@[b]]
            0 <= a < b < v@.len() implies strictly_below::<String>(v@[a]@, v@[b]@) by {
            lemma_label_chars_increases(a, b);
        }
    }
    v
}

} // verus!
