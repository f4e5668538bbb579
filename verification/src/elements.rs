//! The element facts a query is evaluated against.
//!
//! One record per chemical element: atomic number, optional group, period,
//! block, and four integer sets of oxidation states. The sets are plain
//! vectors; the evaluator reads them as mathematical sets, so order and
//! duplicates in the vectors do not matter.

use vstd::prelude::*;

verus! {

/// A chemical element's display symbol, such as `"Na"`.
#[derive(PartialEq, Eq, Debug, Clone, Hash)]
pub struct Symbol(String);

impl View for Symbol {
    type V = Seq<char>;

    closed spec fn view(&self) -> Seq<char> {
        self.0@
    }
}

impl Symbol {
    /// Wraps a symbol string.
    pub fn new(text: String) -> (r: Symbol)
        ensures
            r@ == text@,
    {
        Symbol(text)
    }

    /// The symbol as a string.
    pub fn to_string(&self) -> (r: String)
        ensures
            r@ == self@,
    {
        self.0.clone()
    }
}

/// The queryable facts of one element.
#[derive(Debug, Clone)]
pub struct Element {
    /// 1 to 118.
    pub atomic_number: u8,
    /// The display symbol.
    pub symbol: Symbol,
    /// 1 to 18; absent for the f-block rows.
    pub group: Option<u8>,
    /// 1 to 7.
    pub period: u8,
    /// 0=s, 1=p, 2=d, 3=f.
    pub block: u8,
    /// The oxidation-state sets.
    pub oxidation_states: OxidationStates,
}

/// An element's oxidation states, grouped by evidentiary confidence.
#[derive(Debug, Clone)]
pub struct OxidationStates {
    pub common: Vec<i8>,
    pub notable: Vec<i8>,
    pub predicted: Vec<i8>,
    pub citation_needed: Vec<i8>,
}

} // verus!
