//! An in-memory tabular data engine for delimited text.
//!
//! The crate sniffs the structure of CSV-like text (encoding, delimiter,
//! header presence), infers column types, loads tables into a store keyed
//! by opaque handles, and serves paginated, filtered, sorted views of the
//! loaded rows.

pub mod cells;
pub mod chars;
pub mod laws;
pub mod numbers;
pub mod profile;
pub mod query;
pub mod sniff;
pub mod store;
pub mod tokenize;
pub mod types;

use vstd::prelude::*;

verus! {

/// The candidate field delimiters, tried in this order when sniffing.
pub open spec fn candidate_delimiters() -> Seq<char> {
    seq![',', ';', '\t', '|']
}

/// The outcome of a three-way comparison.
#[derive(Clone, Copy, Debug, PartialEq, Eq, Structural)]
pub enum Order {
    Less,
    Equal,
    Greater,
}

impl Order {
    /// The comparison with its sides exchanged.
    pub open spec fn spec_reverse(self) -> Order {
        match self {
            Order::Less => Order::Greater,
            Order::Equal => Order::Equal,
            Order::Greater => Order::Less,
        }
    }

    /// Exchanges the sides of the comparison.
    pub fn reverse(self) -> (r: Order)
        ensures
            r == self.spec_reverse(),
    {
        match self {
            Order::Less => Order::Greater,
            Order::Equal => Order::Equal,
            Order::Greater => Order::Less,
        }
    }
}

} // verus!
