use vstd::prelude::*;

verus! {

use crate::lex::{lex_le, lemma_lex_le_total, lemma_lex_le_antisymmetric,
    lemma_lex_le_transitive, str_lex_lt};

/// A type whose views carry a total order, together with an executable
/// strict comparison that agrees with it.
pub trait LinearOrder: View + Sized {
    /// The order itself, on views.
    spec fn le(a: Self::V, b: Self::V) -> bool;

    /// Of any two views, one is below the other.
    proof fn le_total(a: Self::V, b: Self::V)
        ensures
            Self::le(a, b) || Self::le(b, a),
    ;

    /// Views below each other are equal.
    proof fn le_antisymmetric(a: Self::V, b: Self::V)
        requires
            Self::le(a, b),
            Self::le(b, a),
        ensures
            a == b,
    ;

    /// The order is transitive.
    proof fn le_transitive(a: Self::V, b: Self::V, c: Self::V)
        requires
            Self::le(a, b),
            Self::le(b, c),
        ensures
            Self::le(a, c),
    ;

    /// Decides the strict order on two values.
    fn lt_exec(&self, other: &Self) -> (r: bool)
        ensures
            r == (Self::le(self@, other@) && self@ != other@),
    ;
}

/// The strict part of the order.
pub open spec fn strictly_below<T: LinearOrder>(a: T::V, b: T::V) -> bool {
    T::le(a, b) && a != b
}

impl LinearOrder for i32 {
    open spec fn le(a: i32, b: i32) -> bool {
        a <= b
    }

    proof fn le_total(a: i32, b: i32) {
    }

    proof fn le_antisymmetric(a: i32, b: i32) {
    }

    proof fn le_transitive(a: i32, b: i32, c: i32) {
    }

    fn lt_exec(&self, other: &Self) -> (r: bool) {
        *self < *other
    }
}

impl LinearOrder for String {
    open spec fn le(a: Seq<char>, b: Seq<char>) -> bool {
        lex_le(a, b)
    }

    proof fn le_total(a: Seq<char>, b: Seq<char>) {
        lemma_lex_le_total(a, b);
    }

    proof fn le_antisymmetric(a: Seq<char>, b: Seq<char>) {
        lemma_lex_le_antisymmetric(a, b);
    }

    proof fn le_transitive(a: Seq<char>, b: Seq<char>, c: Seq<char>) {
        lemma_lex_le_transitive(a, b, c);
    }

    fn lt_exec(&self, other: &Self) -> (r: bool) {
        str_lex_lt(self.as_str(), other.as_str())
    }
}

} // verus!
