//! The store behind the interpreter.

use crate::types::{FlatKey, FlatValue};
use std::collections::HashMap;
use vstd::prelude::*;

verus! {

/// Why a backing refused a read or a write. The store gives no detail.
#[derive(Clone, Copy, Debug, PartialEq, Eq)]
pub struct StoreError;

/// What a table gives for a key: the value it holds, or zero where it holds
/// none.
pub open spec fn stored(store: Map<FlatKey, FlatValue>, k: FlatKey) -> FlatValue {
    if store.contains_key(k) {
        store[k]
    } else {
        0
    }
}

/// A key/value table that the interpreter reads and writes.
pub trait StateDB {
    /// What the table holds.
    spec fn view(&self) -> Map<FlatKey, FlatValue>;

    /// Whether every read and write of this table succeeds.
    spec fn reliable(&self) -> bool;

    /// Reads the value under `key`. A key that the table does not hold
    /// reads as zero.
    fn get_state(&self, key: &FlatKey) -> (r: Result<FlatValue, StoreError>)
        ensures
            self.reliable() ==> r is Ok,
            r matches Ok(v) ==> v == stored(self@, *key),
    ;

    /// Writes `val` under `key`, over what was there. A write that is
    /// refused leaves the table as it was.
    fn set_state(&mut self, key: FlatKey, val: FlatValue) -> (r: Result<(), StoreError>)
        ensures
            old(self).reliable() ==> r is Ok && final(self).reliable(),
            r is Ok ==> final(self)@ == old(self)@.insert(key, val),
            r is Err ==> final(self)@ == old(self)@,
    ;
}

/// The table in memory, without bound. It refuses nothing.
pub struct MapState {
    state: HashMap<FlatKey, FlatValue>,
}

impl MapState {
    /// An empty table.
    pub fn new() -> (s: Self)
        ensures
            s@ == Map::<FlatKey, FlatValue>::empty(),
    {
        MapState { state: HashMap::new() }
    }

    /// The number of keys in the table.
    pub fn len(&self) -> (n: usize)
        ensures
            n == self@.len(),
            self@.dom().finite(),
    {
        self.state.len()
    }
}

impl StateDB for MapState {
    closed spec fn view(&self) -> Map<FlatKey, FlatValue> {
        self.state@
    }

    open spec fn reliable(&self) -> bool {
        true
    }

    fn get_state(&self, key: &FlatKey) -> (r: Result<FlatValue, StoreError>) {
        match self.state.get(key) {
            Some(held) => Ok(*held),
            None => Ok(0),
        }
    }

    fn set_state(&mut self, key: FlatKey, val: FlatValue) -> (r: Result<(), StoreError>) {
        self.state.insert(key, val);
        Ok(())
    }
}

/// A table in memory that holds at most `limit` keys. It refuses the write
/// of a new key once it is full; a key that it holds can always be written
/// again.
pub struct BoundedState {
    state: HashMap<FlatKey, FlatValue>,
    limit: usize,
}

impl BoundedState {
    /// The number of keys that the table can hold.
    pub closed spec fn limit(&self) -> usize {
        self.limit
    }

    /// An empty table for at most `limit` keys.
    pub fn new(limit: usize) -> (s: Self)
        ensures
            s@ == Map::<FlatKey, FlatValue>::empty(),
            s.limit() == limit,
    {
        BoundedState { state: HashMap::new(), limit }
    }

    /// The number of keys in the table.
    pub fn len(&self) -> (n: usize)
        ensures
            n == self@.len(),
            self@.dom().finite(),
    {
        self.state.len()
    }
}

impl StateDB for BoundedState {
    closed spec fn view(&self) -> Map<FlatKey, FlatValue> {
        self.state@
    }

    open spec fn reliable(&self) -> bool {
        false
    }

    fn get_state(&self, key: &FlatKey) -> (r: Result<FlatValue, StoreError>)
        ensures
            r is Ok,
    {
        match self.state.get(key) {
            Some(held) => Ok(*held),
            None => Ok(0),
        }
    }

    fn set_state(&mut self, key: FlatKey, val: FlatValue) -> (r: Result<(), StoreError>)
        ensures
            final(self).limit() == old(self).limit(),
            r is Ok <==> old(self)@.contains_key(key) || old(self)@.len() < old(self).limit(),
    {
        if self.state.contains_key(&key) || self.state.len() < self.limit {
            self.state.insert(key, val);
            Ok(())
        } else {
            Err(StoreError)
        }
    }
}

} // verus!
