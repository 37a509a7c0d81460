//! The interpreter of micro-operations.
//!
//! A transaction runs with one accumulator, which starts at zero. Both
//! additions to it wrap around at 2^64. The run records every flat key that
//! it loads and every flat key that it stores to. Transactions of a batch run
//! one after the other against one store.

use crate::db::{stored, MapState, StateDB};
use crate::flat::{flat_key, flat_key_of};
use crate::types::{FlatKey, FlatValue, MicroOp, Tx, TxRWSet};
use std::collections::BTreeSet;
use vstd::prelude::*;

verus! {

/// Why a run stopped before the end of its program.
#[derive(Clone, Copy, Debug, PartialEq, Eq)]
pub enum ExecError {
    /// The store refused the read or write of instruction `op_index` of
    /// transaction `tx_id`.
    StoreAccessFailure { tx_id: u64, op_index: usize },
}

/// The interpreter between two instructions.
pub ghost struct Machine {
    pub acc: FlatValue,
    pub reads: Set<FlatKey>,
    pub writes: Set<FlatKey>,
    pub store: Map<FlatKey, FlatValue>,
}

/// The interpreter before the first instruction of a transaction.
pub open spec fn start(store: Map<FlatKey, FlatValue>) -> Machine {
    Machine { acc: 0, reads: Set::empty(), writes: Set::empty(), store }
}

/// The effect of one instruction.
pub open spec fn step(m: Machine, op: MicroOp) -> Machine {
    match op {
        MicroOp::SLOAD { key } => Machine {
            acc: m.acc.wrapping_add(stored(m.store, flat_key_of(key))),
            reads: m.reads.insert(flat_key_of(key)),
            ..m
        },
        MicroOp::SSTORE { key } => Machine {
            store: m.store.insert(flat_key_of(key), m.acc),
            writes: m.writes.insert(flat_key_of(key)),
            ..m
        },
        MicroOp::ADD { imm } => Machine { acc: m.acc.wrapping_add(imm), ..m },
        MicroOp::NOOP => m,
    }
}

/// The effect of a program, instruction by instruction.
pub open spec fn run(m: Machine, program: Seq<MicroOp>) -> Machine
    decreases program.len(),
{
    if program.len() == 0 {
        m
    } else {
        step(run(m, program.drop_last()), program.last())
    }
}

/// The instruction reads or writes the store.
pub open spec fn touches_store(op: MicroOp) -> bool {
    op is SLOAD || op is SSTORE
}

/// `rwset` is the record of a run of transaction `id` that ended in `end`.
pub open spec fn records(rwset: TxRWSet, id: u64, end: Machine) -> bool {
    &&& rwset.id == id
    &&& rwset.reads@ == end.reads
    &&& rwset.writes@ == end.writes
}

/// Runs a program against the store, for the transaction `id`. Returns the
/// accumulator at the end and what was read and written.
///
/// A run stops at the first instruction that the store refuses. The store
/// then holds what the instructions before it wrote: nothing is taken back.
pub fn run_program<S: StateDB>(id: u64, program: &Vec<MicroOp>, state: &mut S) -> (r: Result<
    (FlatValue, TxRWSet),
    ExecError,
>)
    ensures
        old(state).reliable() ==> r is Ok && final(state).reliable(),
        (forall|i: int| 0 <= i < program@.len() ==> !touches_store(#[trigger] program@[i])) ==> r is Ok,
        r matches Ok(out) ==> {
            let end = run(start(old(state)@), program@);
            out.0 == end.acc && records(out.1, id, end) && final(state)@ == end.store
        },
        r matches Err(ExecError::StoreAccessFailure { tx_id, op_index }) ==> {
            &&& tx_id == id
            &&& op_index < program@.len()
            &&& touches_store(program@[op_index as int])
            &&& final(state)@ == run(start(old(state)@), program@.take(op_index as int)).store
        },
{
    let n = program.len();
    let mut acc: FlatValue = 0;
    let mut reads: BTreeSet<FlatKey> = BTreeSet::new();
    let mut writes: BTreeSet<FlatKey> = BTreeSet::new();
    let mut i: usize = 0;
    while i < n
        invariant
            i <= n == program@.len(),
            old(state).reliable() ==> state.reliable(),
            acc == run(start(old(state)@), program@.take(i as int)).acc,
            reads@ == run(start(old(state)@), program@.take(i as int)).reads,
            writes@ == run(start(old(state)@), program@.take(i as int)).writes,
            state@ == run(start(old(state)@), program@.take(i as int)).store,
        decreases n - i,
    {
        proof {
            assert(program@.take(i + 1).drop_last() =~= program@.take(i as int));
        }
        match program[i] {
            MicroOp::SLOAD { key } => {
                let flat = flat_key(&key);
                let value = match state.get_state(&flat) {
                    Ok(held) => held,
                    Err(_) => {
                        return Err(ExecError::StoreAccessFailure { tx_id: id, op_index: i });
                    },
                };
                acc = acc.wrapping_add(value);
                reads.insert(flat);
            },
            MicroOp::SSTORE { key } => {
                let flat = flat_key(&key);
                match state.set_state(flat, acc) {
                    Ok(_) => {},
                    Err(_) => {
                        return Err(ExecError::StoreAccessFailure { tx_id: id, op_index: i });
                    },
                }
                writes.insert(flat);
            },
            MicroOp::ADD { imm } => {
                acc = acc.wrapping_add(imm);
            },
            MicroOp::NOOP => {},
        }
        i += 1;
    }
    proof {
        assert(program@.take(n as int) =~= program@);
    }
    Ok((acc, TxRWSet { id, reads, writes }))
}

/// Runs a transaction against the store and returns what it read and wrote.
pub fn exec_tx<S: StateDB>(tx: &Tx, state: &mut S) -> (r: Result<TxRWSet, ExecError>)
    ensures
        old(state).reliable() ==> r is Ok && final(state).reliable(),
        (forall|i: int|
            0 <= i < tx.program@.len() ==> !touches_store(#[trigger] tx.program@[i])) ==> r is Ok,
        r matches Ok(rwset) ==> {
            let end = run(start(old(state)@), tx.program@);
            records(rwset, tx.id, end) && final(state)@ == end.store
        },
        r matches Err(ExecError::StoreAccessFailure { tx_id, op_index }) ==> {
            &&& tx_id == tx.id
            &&& op_index < tx.program@.len()
            &&& touches_store(tx.program@[op_index as int])
            &&& final(state)@ == run(start(old(state)@), tx.program@.take(op_index as int)).store
        },
{
    match run_program(tx.id, &tx.program, state) {
        Ok(out) => Ok(out.1),
        Err(e) => Err(e),
    }
}

/// The store after the transactions of `txs` have run on it in turn.
pub open spec fn store_after(store: Map<FlatKey, FlatValue>, txs: Seq<Tx>) -> Map<
    FlatKey,
    FlatValue,
>
    decreases txs.len(),
{
    if txs.len() == 0 {
        store
    } else {
        run(start(store_after(store, txs.drop_last())), txs.last().program@).store
    }
}

/// Runs a batch on an empty store, one transaction after the other. Returns
/// the store at the end and, for each transaction, what it read and wrote.
pub fn serial_execute(txs: &[Tx]) -> (r: (MapState, Vec<TxRWSet>))
    ensures
        r.0@ == store_after(Map::empty(), txs@),
        r.1@.len() == txs@.len(),
        forall|i: int|
            0 <= i < txs@.len() ==> {
                let end = run(start(store_after(Map::empty(), txs@.take(i))), txs@[i].program@);
                records(#[trigger] r.1@[i], txs@[i].id, end)
            },
{
    let mut state = MapState::new();
    let mut results: Vec<TxRWSet> = Vec::new();
    let n = txs.len();
    for i in 0..n
        invariant
            n == txs@.len(),
            state@ == store_after(Map::empty(), txs@.take(i as int)),
            results@.len() == i,
            forall|j: int|
                0 <= j < i ==> {
                    let end = run(start(store_after(Map::empty(), txs@.take(j))), txs@[j].program@);
                    records(#[trigger] results@[j], txs@[j].id, end)
                },
    {
        proof {
            assert(txs@.take(i + 1).drop_last() =~= txs@.take(i as int));
        }
        let res = exec_tx(&txs[i], &mut state);
        results.push(res.unwrap());
    }
    proof {
        assert(txs@.take(n as int) =~= txs@);
    }
    (state, results)
}

/// A program of nothing but `NOOP` changes nothing: the accumulator, both
/// sets and the store are at the end what they were at the start.
pub proof fn lemma_noop_identity(m: Machine, program: Seq<MicroOp>)
    requires
        forall|i: int| 0 <= i < program.len() ==> program[i] is NOOP,
    ensures
        run(m, program) == m,
    decreases program.len(),
{
    if program.len() > 0 {
        lemma_noop_identity(m, program.drop_last());
    }
}

} // verus!
