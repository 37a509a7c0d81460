//! The data that the interpreter and the graph builder exchange.

use std::collections::BTreeSet;
use vstd::prelude::*;

verus! {

/// Twenty bytes that name an account.
pub type Address = [u8; 20];

/// Thirty-two bytes that name a storage cell of an account.
pub type Slot = [u8; 32];

/// The number under which the store files a [`Key`].
pub type FlatKey = u64;

/// A value held by the store.
pub type FlatValue = u64;

/// A storage cell: an account and a slot within it.
#[derive(Clone, Copy, Debug, PartialEq, Eq, Hash)]
pub struct Key {
    pub address: Address,
    pub slot: Slot,
}

/// One instruction of a transaction's program.
#[allow(non_camel_case_types)]
#[derive(Clone, Copy, Debug, PartialEq, Eq)]
pub enum MicroOp {
    /// Add the stored value of `key` to the accumulator.
    SLOAD { key: Key },
    /// Store the accumulator under `key`.
    SSTORE { key: Key },
    /// Add `imm` to the accumulator.
    ADD { imm: FlatValue },
    /// Do nothing.
    NOOP,
}

/// A transaction as it is submitted. `reads` and `writes` are what the
/// submitter declares; what the program touches is found by running it.
#[derive(Clone, Debug, PartialEq, Eq)]
pub struct Tx {
    pub id: u64,
    pub reads: Vec<Key>,
    pub writes: Vec<Key>,
    pub gas_hint: u64,
    pub metadata: Option<String>,
    pub program: Vec<MicroOp>,
}

/// What one run of a transaction touched.
#[derive(Debug)]
pub struct TxRWSet {
    pub id: u64,
    pub reads: BTreeSet<FlatKey>,
    pub writes: BTreeSet<FlatKey>,
}

} // verus!
