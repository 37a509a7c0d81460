//! The conflict graph of a batch.
//!
//! Node `a` of the graph is the transaction with id `a`. There is an edge
//! from `a` to `b` when `b` writes a key that `a` reads or writes: two writers
//! of one key point at each other, a reader points at the writer and the
//! writer does not point back on that account.

use crate::types::FlatKey;
pub use crate::types::TxRWSet;
use std::collections::{BTreeMap, BTreeSet};
use vstd::laws_cmp::obeys_cmp;
use vstd::prelude::*;
use vstd::std_specs::iter::IteratorSpec;

verus! {

/// Each record carries its own position in the batch as its id.
pub open spec fn indexed(txs: Seq<TxRWSet>) -> bool {
    forall|i: int| 0 <= i < txs.len() ==> (#[trigger] txs[i]).id == i
}

/// Transaction `a` of the batch read key `k`.
pub open spec fn reads_key(txs: Seq<TxRWSet>, a: int, k: FlatKey) -> bool {
    0 <= a < txs.len() && txs[a].reads@.contains(k)
}

/// Transaction `a` of the batch wrote key `k`.
pub open spec fn writes_key(txs: Seq<TxRWSet>, a: int, k: FlatKey) -> bool {
    0 <= a < txs.len() && txs[a].writes@.contains(k)
}

/// Key `k` sets `a` against `b`: `b` writes it, and `a`, another
/// transaction, reads or writes it.
pub open spec fn hazard(txs: Seq<TxRWSet>, k: FlatKey, a: int, b: int) -> bool {
    a != b && writes_key(txs, b, k) && (writes_key(txs, a, k) || reads_key(txs, a, k))
}

/// The graph of the batch has an edge from `a` to `b`.
pub open spec fn conflicts(txs: Seq<TxRWSet>, a: int, b: int) -> bool {
    exists|k: FlatKey| hazard(txs, k, a, b)
}

/// `graph` is the conflict graph of the batch: one node for each position,
/// and from each node exactly the edges that `conflicts` gives.
pub open spec fn is_conflict_graph(graph: Map<usize, BTreeSet<usize>>, txs: Seq<TxRWSet>) -> bool {
    &&& forall|a: usize| graph.contains_key(a) <==> a < txs.len()
    &&& forall|a: usize, b: usize|
        a < txs.len() ==> (#[trigger] graph[a]@.contains(b) <==> conflicts(txs, a as int, b as int))
}

/// The table lists `who` under `key`.
pub open spec fn listed<K>(table: Map<K, BTreeSet<usize>>, key: K, who: usize) -> bool {
    table.contains_key(key) && table[key]@.contains(who)
}

/// Lists `who` under `key`, opening the entry if there is none.
fn note<K: Ord + Copy>(table: &mut BTreeMap<K, BTreeSet<usize>>, key: K, who: usize)
    requires
        obeys_cmp::<K>(),
    ensures
        final(table)@.dom() == old(table)@.dom().insert(key),
        forall|k: K, w: usize|
            listed(final(table)@, k, w) <==> listed(old(table)@, k, w) || (k == key && w == who),
{
    let mut entry = match table.remove(&key) {
        Some(present) => present,
        None => BTreeSet::new(),
    };
    entry.insert(who);
    table.insert(key, entry);
}

/// Lists `who` under each key of `keys`.
fn note_all(table: &mut BTreeMap<FlatKey, BTreeSet<usize>>, keys: &BTreeSet<FlatKey>, who: usize)
    ensures
        forall|k: FlatKey, w: usize|
            listed(final(table)@, k, w) <==> listed(old(table)@, k, w) || (keys@.contains(k) && w
                == who),
{
    let ghost all = keys.iter().remaining().unref();
    for key in it: keys.iter()
        invariant
            it.seq().unref() == all,
            all.to_set() == keys@,
            forall|k: FlatKey, w: usize|
                listed(table@, k, w) <==> listed(old(table)@, k, w) || (all.take(it.index()).contains(
                    k,
                ) && w == who),
    {
        let ghost done = all.take(it.index());
        assert(all.take(it.index() + 1) =~= done.push(*key));
        assert forall|k: FlatKey| all.take(it.index() + 1).contains(k) <==> done.contains(k) || k
            == *key by {
            if done.contains(k) {
                let at = choose|at: int| 0 <= at < done.len() && done[at] == k;
                assert(done.push(*key)[at] == k);
            }
            assert(done.push(*key)[done.len() as int] == *key);
        }
        note(table, *key, who);
    }
    assert(all.take(all.len() as int) =~= all);
}

/// The members of a set, each once.
fn members(set: &BTreeSet<usize>) -> (list: Vec<usize>)
    ensures
        list@.to_set() == set@,
        list@.no_duplicates(),
{
    let mut list: Vec<usize> = Vec::new();
    let ghost all = set.iter().remaining().unref();
    for item in it: set.iter()
        invariant
            it.seq().unref() == all,
            all.to_set() == set@,
            all.no_duplicates(),
            list@ == all.take(it.index()),
    {
        list.push(*item);
    }
    assert(all.take(all.len() as int) =~= all);
    list
}

/// Joins every two writers of one key, in both directions.
fn link_writers(graph: &mut BTreeMap<usize, BTreeSet<usize>>, ws: &BTreeSet<usize>)
    ensures
        forall|a: usize, b: usize|
            listed(final(graph)@, a, b) <==> listed(old(graph)@, a, b) || (a != b && ws@.contains(a)
                && ws@.contains(b)),
        forall|a: usize|
            final(graph)@.contains_key(a) ==> old(graph)@.contains_key(a) || ws@.contains(a),
{
    let ghost before = graph@;
    let list = members(ws);
    let n = list.len();
    let mut i: usize = 0;
    while i < n
        invariant
            i <= n == list.len(),
            list@.to_set() == ws@,
            list@.no_duplicates(),
            forall|a: usize| graph@.contains_key(a) ==> before.contains_key(a) || ws@.contains(a),
            forall|a: usize, b: usize| listed(before, a, b) ==> listed(graph@, a, b),
            forall|a: usize, b: usize|
                listed(graph@, a, b) ==> listed(before, a, b) || (a != b && ws@.contains(a)
                    && ws@.contains(b)),
            forall|p: int, q: int|
                0 <= p < i && p < q < n ==> listed(graph@, list@[p], list@[q]) && listed(
                    graph@,
                    list@[q],
                    list@[p],
                ),
        decreases n - i,
    {
        let mut j: usize = i + 1;
        while j < n
            invariant
                i < j <= n == list.len(),
                list@.to_set() == ws@,
                list@.no_duplicates(),
                forall|a: usize|
                    graph@.contains_key(a) ==> before.contains_key(a) || ws@.contains(a),
                forall|a: usize, b: usize| listed(before, a, b) ==> listed(graph@, a, b),
                forall|a: usize, b: usize|
                    listed(graph@, a, b) ==> listed(before, a, b) || (a != b && ws@.contains(a)
                        && ws@.contains(b)),
                forall|p: int, q: int|
                    0 <= p < i && p < q < n ==> listed(graph@, list@[p], list@[q]) && listed(
                        graph@,
                        list@[q],
                        list@[p],
                    ),
                forall|q: int|
                    i < q < j ==> listed(graph@, list@[i as int], list@[q]) && listed(
                        graph@,
                        list@[q],
                        list@[i as int],
                    ),
            decreases n - j,
        {
            let a = list[i];
            let b = list[j];
            assert(list@.contains(a) && list@.contains(b));
            note(graph, a, b);
            note(graph, b, a);
            j += 1;
        }
        i += 1;
    }
    assert forall|a: usize, b: usize| a != b && ws@.contains(a) && ws@.contains(b) implies listed(
        graph@,
        a,
        b,
    ) by {
        assert(list@.contains(a) && list@.contains(b));
        let p = choose|p: int| 0 <= p < list@.len() && list@[p] == a;
        let q = choose|q: int| 0 <= q < list@.len() && list@[q] == b;
        if p < q {
            assert(listed(graph@, list@[p], list@[q]));
        } else {
            assert(listed(graph@, list@[p], list@[q]));
        }
    }
}

/// Points every reader of one key at every other transaction that writes it.
fn link_readers(
    graph: &mut BTreeMap<usize, BTreeSet<usize>>,
    ws: &BTreeSet<usize>,
    rs: &BTreeSet<usize>,
)
    ensures
        forall|a: usize, b: usize|
            listed(final(graph)@, a, b) <==> listed(old(graph)@, a, b) || (a != b && rs@.contains(a)
                && ws@.contains(b)),
        forall|a: usize|
            final(graph)@.contains_key(a) ==> old(graph)@.contains_key(a) || rs@.contains(a),
{
    let ghost before = graph@;
    let writers = members(ws);
    let readers = members(rs);
    let n = writers.len();
    let m = readers.len();
    let mut i: usize = 0;
    while i < n
        invariant
            i <= n == writers.len(),
            m == readers.len(),
            writers@.to_set() == ws@,
            readers@.to_set() == rs@,
            forall|a: usize| graph@.contains_key(a) ==> before.contains_key(a) || rs@.contains(a),
            forall|a: usize, b: usize| listed(before, a, b) ==> listed(graph@, a, b),
            forall|a: usize, b: usize|
                listed(graph@, a, b) ==> listed(before, a, b) || (a != b && rs@.contains(a)
                    && ws@.contains(b)),
            forall|p: int, q: int|
                0 <= p < i && 0 <= q < m && readers@[q] != writers@[p] ==> listed(
                    graph@,
                    readers@[q],
                    writers@[p],
                ),
        decreases n - i,
    {
        let w = writers[i];
        let mut j: usize = 0;
        while j < m
            invariant
                i < n == writers.len(),
                j <= m == readers.len(),
                w == writers@[i as int],
                writers@.to_set() == ws@,
                readers@.to_set() == rs@,
                forall|a: usize|
                    graph@.contains_key(a) ==> before.contains_key(a) || rs@.contains(a),
                forall|a: usize, b: usize| listed(before, a, b) ==> listed(graph@, a, b),
                forall|a: usize, b: usize|
                    listed(graph@, a, b) ==> listed(before, a, b) || (a != b && rs@.contains(a)
                        && ws@.contains(b)),
                forall|p: int, q: int|
                    0 <= p < i && 0 <= q < m && readers@[q] != writers@[p] ==> listed(
                        graph@,
                        readers@[q],
                        writers@[p],
                    ),
                forall|q: int|
                    0 <= q < j && readers@[q] != w ==> listed(graph@, readers@[q], w),
            decreases m - j,
        {
            let r = readers[j];
            assert(writers@.contains(w) && readers@.contains(r));
            if w != r {
                note(graph, r, w);
            }
            j += 1;
        }
        i += 1;
    }
    assert forall|a: usize, b: usize| a != b && rs@.contains(a) && ws@.contains(b) implies listed(
        graph@,
        a,
        b,
    ) by {
        assert(readers@.contains(a) && writers@.contains(b));
        let q = choose|q: int| 0 <= q < readers@.len() && readers@[q] == a;
        let p = choose|p: int| 0 <= p < writers@.len() && writers@[p] == b;
        assert(listed(graph@, readers@[q], writers@[p]));
    }
}

/// Whether each record carries its own position in the batch as its id.
pub fn is_indexed(txs: &Vec<TxRWSet>) -> (ok: bool)
    ensures
        ok == indexed(txs@),
{
    let n = txs.len();
    let mut i: usize = 0;
    while i < n
        invariant
            i <= n == txs.len(),
            forall|j: int| 0 <= j < i ==> (#[trigger] txs@[j]).id == j,
        decreases n - i,
    {
        if txs[i].id != i as u64 {
            return false;
        }
        i += 1;
    }
    true
}

/// Builds the conflict graph of a batch from what its transactions read and
/// wrote.
///
/// The keys are first filed by reader and by writer. Then, key by key, every
/// two writers are joined in both directions and every reader is pointed at
/// every other writer. At the end each transaction that met no one gets an
/// empty entry, so that the graph has a node for every position.
pub fn build_conflict_graph(txs: &Vec<TxRWSet>) -> (graph: BTreeMap<usize, BTreeSet<usize>>)
    requires
        indexed(txs@),
    ensures
        is_conflict_graph(graph@, txs@),
{
    let n = txs.len();
    let mut readers: BTreeMap<FlatKey, BTreeSet<usize>> = BTreeMap::new();
    let mut writers: BTreeMap<FlatKey, BTreeSet<usize>> = BTreeMap::new();
    for i in 0..n
        invariant
            n == txs.len(),
            indexed(txs@),
            forall|k: FlatKey, a: usize|
                listed(readers@, k, a) <==> a < i && reads_key(txs@, a as int, k),
            forall|k: FlatKey, a: usize|
                listed(writers@, k, a) <==> a < i && writes_key(txs@, a as int, k),
    {
        let tx = &txs[i];
        let who = tx.id as usize;
        note_all(&mut readers, &tx.reads, who);
        note_all(&mut writers, &tx.writes, who);
    }

    let mut graph: BTreeMap<usize, BTreeSet<usize>> = BTreeMap::new();
    let ghost entries = writers.iter().remaining().unref();
    for entry in it: writers.iter()
        invariant
            n == txs.len(),
            it.seq().unref() == entries,
            forall|j: int|
                0 <= j < entries.len() ==> writers@.contains_key((#[trigger] entries[j]).0)
                    && writers@[entries[j].0] == entries[j].1,
            forall|k: FlatKey, a: usize| listed(readers@, k, a) <==> reads_key(txs@, a as int, k),
            forall|k: FlatKey, a: usize| listed(writers@, k, a) <==> writes_key(txs@, a as int, k),
            forall|a: usize| graph@.contains_key(a) ==> a < n,
            forall|a: usize, b: usize| listed(graph@, a, b) ==> conflicts(txs@, a as int, b as int),
            forall|j: int, a: usize, b: usize|
                0 <= j < it.index() && hazard(txs@, (#[trigger] entries[j]).0, a as int, b as int)
                    ==> #[trigger] listed(graph@, a, b),
    {
        let key = entry.0;
        let ws = entry.1;
        let ghost was = graph@;
        link_writers(&mut graph, ws);
        let found = readers.get(key);
        if let Some(rs) = found {
            link_readers(&mut graph, ws, rs);
        }
        proof {
            let at = it.index();
            assert(entries[at].0 == *key && entries[at].1 == *ws);
            assert forall|a: usize, b: usize| listed(graph@, a, b) implies conflicts(
                txs@,
                a as int,
                b as int,
            ) by {
                if !listed(was, a, b) {
                    assert(listed(writers@, *key, b));
                    if ws@.contains(a) {
                        assert(listed(writers@, *key, a));
                    } else {
                        assert(listed(readers@, *key, a));
                    }
                    assert(hazard(txs@, *key, a as int, b as int));
                }
            }
            assert forall|a: usize, b: usize|
                hazard(txs@, *key, a as int, b as int) implies listed(graph@, a, b) by {
                assert(listed(writers@, *key, b));
                if writes_key(txs@, a as int, *key) {
                    assert(listed(writers@, *key, a));
                } else {
                    assert(listed(readers@, *key, a));
                }
            }
            assert forall|a: usize| graph@.contains_key(a) implies a < n by {
                if !was.contains_key(a) {
                    if ws@.contains(a) {
                        assert(listed(writers@, *key, a));
                    } else {
                        assert(listed(readers@, *key, a));
                    }
                }
            }
        }
    }
    proof {
        assert forall|a: usize, b: usize| conflicts(txs@, a as int, b as int) implies listed(
            graph@,
            a,
            b,
        ) by {
            let k = choose|k: FlatKey| hazard(txs@, k, a as int, b as int);
            assert(listed(writers@, k, b));
            assert(writers@.kv_pairs().contains((k, writers@[k])));
            assert(entries.contains((k, writers@[k])));
            let j = choose|j: int| 0 <= j < entries.len() && entries[j] == (k, writers@[k]);
            assert(hazard(txs@, entries[j].0, a as int, b as int));
        }
    }

    for i in 0..n
        invariant
            n == txs.len(),
            forall|a: usize| graph@.contains_key(a) ==> a < n,
            forall|a: usize| a < i ==> graph@.contains_key(a),
            forall|a: usize, b: usize| listed(graph@, a, b) <==> conflicts(txs@, a as int, b as int),
    {
        if !graph.contains_key(&i) {
            graph.insert(i, BTreeSet::new());
        }
    }
    graph
}

/// Transaction `a` of the batch read or wrote key `k`.
pub open spec fn touches_key(txs: Seq<TxRWSet>, a: int, k: FlatKey) -> bool {
    reads_key(txs, a, k) || writes_key(txs, a, k)
}

/// Two transactions that write one key point at each other.
pub proof fn lemma_write_write_symmetry(
    txs: Seq<TxRWSet>,
    graph: Map<usize, BTreeSet<usize>>,
    a: usize,
    b: usize,
    k: FlatKey,
)
    requires
        is_conflict_graph(graph, txs),
        a != b,
        writes_key(txs, a as int, k),
        writes_key(txs, b as int, k),
    ensures
        graph[a]@.contains(b),
        graph[b]@.contains(a),
{
    assert(hazard(txs, k, a as int, b as int));
    assert(hazard(txs, k, b as int, a as int));
}

/// Where two transactions write a key that no third transaction touches,
/// every edge between one of the two and a third transaction `c` is owed to
/// another key.
pub proof fn lemma_shared_key_adds_no_more(
    txs: Seq<TxRWSet>,
    graph: Map<usize, BTreeSet<usize>>,
    a: usize,
    b: usize,
    k: FlatKey,
    c: usize,
)
    requires
        is_conflict_graph(graph, txs),
        a != b,
        writes_key(txs, a as int, k),
        writes_key(txs, b as int, k),
        forall|d: int| d != a && d != b ==> !touches_key(txs, d, k),
        c != a,
        c != b,
        c < txs.len(),
    ensures
        graph[a]@.contains(c) ==> exists|k2: FlatKey| k2 != k && hazard(txs, k2, a as int, c as int),
        graph[b]@.contains(c) ==> exists|k2: FlatKey| k2 != k && hazard(txs, k2, b as int, c as int),
        graph[c]@.contains(a) ==> exists|k2: FlatKey| k2 != k && hazard(txs, k2, c as int, a as int),
        graph[c]@.contains(b) ==> exists|k2: FlatKey| k2 != k && hazard(txs, k2, c as int, b as int),
{
    assert(!touches_key(txs, c as int, k));
    if graph[a]@.contains(c) {
        let k2 = choose|k2: FlatKey| hazard(txs, k2, a as int, c as int);
        assert(k2 != k && hazard(txs, k2, a as int, c as int));
    }
    if graph[b]@.contains(c) {
        let k2 = choose|k2: FlatKey| hazard(txs, k2, b as int, c as int);
        assert(k2 != k && hazard(txs, k2, b as int, c as int));
    }
    if graph[c]@.contains(a) {
        let k2 = choose|k2: FlatKey| hazard(txs, k2, c as int, a as int);
        assert(k2 != k && hazard(txs, k2, c as int, a as int));
    }
    if graph[c]@.contains(b) {
        let k2 = choose|k2: FlatKey| hazard(txs, k2, c as int, b as int);
        assert(k2 != k && hazard(txs, k2, c as int, b as int));
    }
}

/// Two transactions that write one key, and share no key with any third
/// transaction, have each other as their only neighbour, and no third
/// transaction points at them.
pub proof fn lemma_pair_apart(
    txs: Seq<TxRWSet>,
    graph: Map<usize, BTreeSet<usize>>,
    a: usize,
    b: usize,
    k: FlatKey,
)
    requires
        is_conflict_graph(graph, txs),
        a != b,
        writes_key(txs, a as int, k),
        writes_key(txs, b as int, k),
        forall|c: int, k2: FlatKey|
            c != a && c != b && #[trigger] touches_key(txs, c, k2) ==> !touches_key(
                txs,
                a as int,
                k2,
            ) && !touches_key(txs, b as int, k2),
    ensures
        graph[a]@ == set![b],
        graph[b]@ == set![a],
        forall|c: usize|
            #![trigger graph[c]]
            c != a && c != b && c < txs.len() ==> !graph[c]@.contains(a) && !graph[c]@.contains(b),
{
    assert(hazard(txs, k, a as int, b as int));
    assert(hazard(txs, k, b as int, a as int));
    assert forall|c: usize| graph[a]@.contains(c) implies c == b by {
        let k2 = choose|k2: FlatKey| hazard(txs, k2, a as int, c as int);
        assert(touches_key(txs, c as int, k2) && touches_key(txs, a as int, k2));
    }
    assert forall|c: usize| graph[b]@.contains(c) implies c == a by {
        let k2 = choose|k2: FlatKey| hazard(txs, k2, b as int, c as int);
        assert(touches_key(txs, c as int, k2) && touches_key(txs, b as int, k2));
    }
    assert(graph[a]@ =~= set![b]);
    assert(graph[b]@ =~= set![a]);
    assert forall|c: usize|
        #![trigger graph[c]]
        c != a && c != b && c < txs.len() implies !graph[c]@.contains(a) && !graph[c]@.contains(
        b,
    ) by {
        if graph[c]@.contains(a) {
            let k2 = choose|k2: FlatKey| hazard(txs, k2, c as int, a as int);
            assert(touches_key(txs, c as int, k2) && touches_key(txs, a as int, k2));
        }
        if graph[c]@.contains(b) {
            let k2 = choose|k2: FlatKey| hazard(txs, k2, c as int, b as int);
            assert(touches_key(txs, c as int, k2) && touches_key(txs, b as int, k2));
        }
    }
}

/// A transaction that reads a key points at every other transaction that
/// writes it. The writer points back only where the reader in turn writes a
/// key that the writer reads or writes.
pub proof fn lemma_read_write_asymmetry(
    txs: Seq<TxRWSet>,
    graph: Map<usize, BTreeSet<usize>>,
    a: usize,
    b: usize,
    k: FlatKey,
)
    requires
        is_conflict_graph(graph, txs),
        a != b,
        reads_key(txs, a as int, k),
        writes_key(txs, b as int, k),
    ensures
        graph[a]@.contains(b),
        graph[b]@.contains(a) <==> exists|k2: FlatKey|
            writes_key(txs, a as int, k2) && #[trigger] touches_key(txs, b as int, k2),
{
    assert(hazard(txs, k, a as int, b as int));
    if graph[b]@.contains(a) {
        let k2 = choose|k2: FlatKey| hazard(txs, k2, b as int, a as int);
        assert(writes_key(txs, a as int, k2) && touches_key(txs, b as int, k2));
    }
    if exists|k2: FlatKey| writes_key(txs, a as int, k2) && #[trigger] touches_key(txs, b as int, k2) {
        let k2 = choose|k2: FlatKey|
            writes_key(txs, a as int, k2) && #[trigger] touches_key(txs, b as int, k2);
        assert(hazard(txs, k2, b as int, a as int));
    }
}

} // verus!
