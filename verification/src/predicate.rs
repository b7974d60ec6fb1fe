//! Predicates over range-typed expressions, for a query layer to embed.
//!
//! A predicate is a tree of three parts: a left operand, a relational
//! operator and a right operand. The operands are whatever fragments the
//! query layer works with; nothing here looks into them or evaluates them.

use vstd::prelude::*;

verus! {

/// The relations between ranges that a predicate can state.
#[derive(Clone, Copy, Debug, PartialEq, Eq, Structural)]
pub enum RangeOperator {
    /// The left operand contains the right one.
    Contains,
    /// The left operand is contained by the right one.
    ContainedBy,
    /// The two operands have an instant in common.
    Overlaps,
}

impl RangeOperator {
    /// The token that the query backend knows the operator by.
    pub open spec fn spec_token(self) -> Seq<char> {
        match self {
            RangeOperator::Contains => seq!['@', '>'],
            RangeOperator::ContainedBy => seq!['<', '@'],
            RangeOperator::Overlaps => seq!['&', '&'],
        }
    }

    /// The token that the query backend knows the operator by.
    pub fn token(&self) -> (r: &'static str)
        ensures
            r@ == self.spec_token(),
    {
        proof {
            reveal_strlit("@>");
            reveal_strlit("<@");
            reveal_strlit("&&");
        }
        let token = match self {
            RangeOperator::Contains => "@>",
            RangeOperator::ContainedBy => "<@",
            RangeOperator::Overlaps => "&&",
        };
        assert(token@ =~= self.spec_token());
        token
    }
}

/// A binary predicate: `left operator right`.
#[derive(Clone, Debug, PartialEq, Eq)]
pub struct RangePredicate<L, R> {
    pub left: L,
    pub operator: RangeOperator,
    pub right: R,
}

/// Range predicates with `self` as the left operand.
pub trait RangeOps: Sized + Clone {
    /// The predicate that `self` contains `element`.
    fn contains<T>(&self, element: T) -> (p: RangePredicate<Self, T>)
        ensures
            cloned(*self, p.left),
            p.operator == RangeOperator::Contains,
            p.right == element,
    ;

    /// The predicate that `self` is contained by `range`.
    fn contained_by<T>(&self, range: T) -> (p: RangePredicate<Self, T>)
        ensures
            cloned(*self, p.left),
            p.operator == RangeOperator::ContainedBy,
            p.right == range,
    ;

    /// The predicate that `self` overlaps `range`.
    fn overlaps<T>(&self, range: T) -> (p: RangePredicate<Self, T>)
        ensures
            cloned(*self, p.left),
            p.operator == RangeOperator::Overlaps,
            p.right == range,
    ;
}

impl<E: Clone> RangeOps for E {
    fn contains<T>(&self, element: T) -> (p: RangePredicate<Self, T>) {
        RangePredicate { left: self.clone(), operator: RangeOperator::Contains, right: element }
    }

    fn contained_by<T>(&self, range: T) -> (p: RangePredicate<Self, T>) {
        RangePredicate { left: self.clone(), operator: RangeOperator::ContainedBy, right: range }
    }

    fn overlaps<T>(&self, range: T) -> (p: RangePredicate<Self, T>) {
        RangePredicate { left: self.clone(), operator: RangeOperator::Overlaps, right: range }
    }
}

} // verus!
