//! Made-up batches: keys by number, the program that goes with a
//! transaction's declared reads and writes, and whole batches drawn from a
//! random number generator.

use crate::types::{Address, Key, MicroOp, Slot, Tx};
use rand::distributions::Bernoulli;
use rand::seq::SliceRandom;
use rand::{Rng, RngCore};
use rand_chacha::ChaCha20Rng;
use std::collections::hash_map::DefaultHasher;
use std::hash::Hasher;
use vstd::bytes::{spec_u64_to_le_bytes, u64_to_le_bytes};
use vstd::prelude::*;
use vstd::std_specs::hash::DefaultHasherAdditionalSpecFns;

verus! {

/// The digest of a key number: that of its eight little-endian bytes.
pub open spec fn index_digest(idx: usize) -> u64 {
    DefaultHasher::spec_finish(seq![spec_u64_to_le_bytes(idx as u64)])
}

/// Byte `i` of the slot that a digest gives: the digest fills the first
/// eight bytes, low byte first, and the rest is zero.
pub open spec fn slot_byte(digest: u64, i: int) -> u8 {
    if 0 <= i < 8 {
        ((digest >> ((i * 8) as u64)) & 0xff) as u8
    } else {
        0
    }
}

/// `key` is the key with number `idx` over the pool: its slot comes from the
/// digest of the number, its address from the pool, which is gone through in
/// a circle.
pub open spec fn is_key_number(key: Key, idx: usize, pool: Seq<Address>) -> bool {
    &&& key.address == pool[idx as int % pool.len() as int]
    &&& key.slot@ == Seq::new(32, |i: int| slot_byte(index_digest(idx), i))
}

/// The key with number `idx` over the pool.
pub fn key_from_idx(idx: usize, addr_pool: &[Address]) -> (key: Key)
    requires
        addr_pool@.len() > 0,
    ensures
        is_key_number(key, idx, addr_pool@),
{
    let mut hasher = DefaultHasher::new();
    let number = u64_to_le_bytes(idx as u64);
    hasher.write(number.as_slice());
    let h: u64 = hasher.finish();
    proof {
        assert(hasher@ =~= seq![spec_u64_to_le_bytes(idx as u64)]);
    }
    let mut slot: [u8; 32] = [0u8; 32];
    for i in 0..8usize
        invariant
            h == index_digest(idx),
            forall|j: int| 0 <= j < i ==> slot@[j] == slot_byte(h, j),
            forall|j: int| i <= j < 32 ==> slot@[j] == 0,
    {
        let shift: u64 = (i * 8) as u64;
        let byte: u64 = (h >> shift) & 0xff;
        assert(byte <= 0xff) by (bit_vector)
            requires
                byte == (h >> shift) & 0xff,
        ;
        slot[i] = byte as u8;
    }
    proof {
        assert(slot@ =~= Seq::new(32, |i: int| slot_byte(index_digest(idx), i)));
    }
    let address = addr_pool[idx % addr_pool.len()];
    Key { address, slot }
}

/// The instructions for the declared reads: each key is loaded, and the
/// transaction's id is added after each load.
pub open spec fn read_ops(txid: u64, reads: Seq<Key>) -> Seq<MicroOp>
    decreases reads.len(),
{
    if reads.len() == 0 {
        Seq::empty()
    } else {
        read_ops(txid, reads.drop_last()) + seq![
            MicroOp::SLOAD { key: reads.last() },
            MicroOp::ADD { imm: txid },
        ]
    }
}

/// The instructions for the declared writes: before each store the position
/// of the key in the list is added, and after it the key is loaded again.
pub open spec fn write_ops(writes: Seq<Key>) -> Seq<MicroOp>
    decreases writes.len(),
{
    if writes.len() == 0 {
        Seq::empty()
    } else {
        write_ops(writes.drop_last()) + seq![
            MicroOp::ADD { imm: (writes.len() - 1) as u64 },
            MicroOp::SSTORE { key: writes.last() },
            MicroOp::SLOAD { key: writes.last() },
        ]
    }
}

/// The program of a transaction with these declared reads and writes.
pub open spec fn program_for(txid: u64, reads: Seq<Key>, writes: Seq<Key>) -> Seq<MicroOp> {
    read_ops(txid, reads) + write_ops(writes) + seq![MicroOp::NOOP]
}

/// Writes the program of a transaction from its declared reads and writes:
/// the reads, then the writes, then one `NOOP`.
pub fn build_program_for_tx(txid: u64, reads: &[Key], writes: &[Key]) -> (prog: Vec<MicroOp>)
    ensures
        prog@ == program_for(txid, reads@, writes@),
{
    let mut prog: Vec<MicroOp> = Vec::new();
    let n = reads.len();
    for i in 0..n
        invariant
            n == reads@.len(),
            prog@ == read_ops(txid, reads@.take(i as int)),
    {
        proof {
            assert(reads@.take(i + 1).drop_last() =~= reads@.take(i as int));
        }
        prog.push(MicroOp::SLOAD { key: reads[i] });
        prog.push(MicroOp::ADD { imm: txid });
    }
    proof {
        assert(reads@.take(n as int) =~= reads@);
    }
    let m = writes.len();
    for i in 0..m
        invariant
            m == writes@.len(),
            prog@ == read_ops(txid, reads@) + write_ops(writes@.take(i as int)),
    {
        proof {
            assert(writes@.take(i + 1).drop_last() =~= writes@.take(i as int));
        }
        prog.push(MicroOp::ADD { imm: i as u64 });
        prog.push(MicroOp::SSTORE { key: writes[i] });
        prog.push(MicroOp::SLOAD { key: writes[i] });
    }
    proof {
        assert(writes@.take(m as int) =~= writes@);
    }
    prog.push(MicroOp::NOOP);
    prog
}

/// Makes the transaction `id` with these declared reads and writes. Its cost
/// hint is ten for each declared key, and its program is the one that
/// `build_program_for_tx` writes.
pub fn build_tx(id: u64, reads: Vec<Key>, writes: Vec<Key>) -> (tx: Tx)
    requires
        10 * (reads@.len() + writes@.len()) <= u64::MAX,
    ensures
        tx.id == id,
        tx.reads == reads,
        tx.writes == writes,
        tx.gas_hint == 10 * (reads@.len() + writes@.len()),
        tx.metadata is None,
        tx.program@ == program_for(id, reads@, writes@),
{
    let program = build_program_for_tx(id, reads.as_slice(), writes.as_slice());
    let keys: u64 = reads.len() as u64 + writes.len() as u64;
    Tx { id, reads, writes, gas_hint: keys * 10, metadata: None, program }
}

/// The generator that batches are drawn from. Nothing is known of what it
/// gives next.
#[verifier::external_type_specification]
#[verifier::external_body]
pub struct ExChaCha20Rng(ChaCha20Rng);

/// A coin with a fixed chance of `true`. Nothing is read from it.
#[verifier::external_type_specification]
#[verifier::external_body]
pub struct ExBernoulli(Bernoulli);

/// `RngCore::fill_bytes`: overwrites every byte of `dest` with random bytes.
#[verifier::external_body]
fn fill_bytes<const N: usize>(rng: &mut ChaCha20Rng, dest: &mut [u8; N]) {
    rng.fill_bytes(dest)
}

/// `RngCore::next_u32`: the next random number.
#[verifier::external_body]
fn next_u32(rng: &mut ChaCha20Rng) -> u32 {
    rng.next_u32()
}

/// `Rng::gen_range` on `0..high`: a random number below `high`. The range
/// must not be empty.
#[verifier::external_body]
fn gen_below(rng: &mut ChaCha20Rng, high: usize) -> (r: usize)
    requires
        high > 0,
    ensures
        r < high,
{
    rng.gen_range(0..high)
}

/// `Rng::sample` of a `Bernoulli`: a toss of the coin.
#[verifier::external_body]
fn toss(rng: &mut ChaCha20Rng, coin: &Bernoulli) -> bool {
    rng.sample(coin)
}

/// `SliceRandom::choose`: a random member of the list, or nothing where the
/// list is empty.
#[verifier::external_body]
fn choose_from(rng: &mut ChaCha20Rng, list: &[usize]) -> (r: Option<usize>)
    ensures
        r is None <==> list@.len() == 0,
        r matches Some(x) ==> list@.contains(x),
{
    list.choose(rng).copied()
}

/// Twenty random bytes.
pub fn random_address(rng: &mut ChaCha20Rng) -> Address {
    let mut a: [u8; 20] = [0u8; 20];
    fill_bytes(rng, &mut a);
    a
}

/// Thirty-two random bytes.
pub fn random_slot(rng: &mut ChaCha20Rng) -> Slot {
    let mut s: [u8; 32] = [0u8; 32];
    fill_bytes(rng, &mut s);
    s
}

/// The numbers from `low` up to `high`, without `high`.
fn number_list(low: usize, high: usize) -> (list: Vec<usize>)
    ensures
        forall|x: usize| list@.contains(x) <==> low <= x < high,
        list@.len() == if low < high { high - low } else { 0 },
{
    let mut list: Vec<usize> = Vec::new();
    let mut x = low;
    while x < high
        invariant
            low <= x <= high || (high < low && x == low),
            list@.len() == x - low,
            forall|i: int| 0 <= i < list@.len() ==> list@[i] == low + i,
        decreases high - x,
    {
        list.push(x);
        x += 1;
    }
    proof {
        assert forall|y: usize| low <= y < high implies list@.contains(y) by {
            assert(list@[y - low] == y);
        }
    }
    list
}

/// Draws the number of a key. A toss of `cold` sends the draw to the whole
/// key space. Otherwise a toss of `hot` sends it to the hot numbers, if there
/// are any; and if it does not, the draw goes to the neutral numbers, or to
/// the whole key space where there are none.
pub fn pick_index(
    rng: &mut ChaCha20Rng,
    cold: &Bernoulli,
    hot: &Bernoulli,
    key_space: usize,
    hot_indices: &[usize],
    neutral_indices: &[usize],
) -> (idx: usize)
    requires
        key_space > 0,
    ensures
        idx < key_space || hot_indices@.contains(idx) || neutral_indices@.contains(idx),
{
    let cold_fell = toss(rng, cold);
    let hot_fell = if cold_fell {
        false
    } else {
        toss(rng, hot)
    };
    match pool_for(cold_fell, hot_fell, hot_indices.len(), neutral_indices.len()) {
        Pool::Whole => gen_below(rng, key_space),
        Pool::Hot => choose_from(rng, hot_indices).unwrap(),
        Pool::Neutral => choose_from(rng, neutral_indices).unwrap(),
    }
}

/// Where the number of a key is drawn from.
#[derive(Clone, Copy, Debug, PartialEq, Eq)]
pub enum Pool {
    /// Any number of the key space.
    Whole,
    /// The hot numbers.
    Hot,
    /// The neutral numbers.
    Neutral,
}

/// The pool that two tosses send a draw to. The cold coin, where it fell,
/// sends it to the whole key space, and the hot coin is then not looked at.
/// Otherwise the hot coin, where it fell, sends it to the hot numbers if
/// there are any. In every other case the draw goes to the neutral numbers,
/// or to the whole key space where there are none.
pub open spec fn pool_of(cold_fell: bool, hot_fell: bool, hot_len: nat, neutral_len: nat) -> Pool {
    if cold_fell {
        Pool::Whole
    } else if hot_fell && hot_len > 0 {
        Pool::Hot
    } else if neutral_len > 0 {
        Pool::Neutral
    } else {
        Pool::Whole
    }
}

/// Decides, from the two tosses and the sizes of the two lists, which pool
/// a draw goes to.
pub fn pool_for(cold_fell: bool, hot_fell: bool, hot_len: usize, neutral_len: usize) -> (pool: Pool)
    ensures
        pool == pool_of(cold_fell, hot_fell, hot_len as nat, neutral_len as nat),
{
    if cold_fell {
        Pool::Whole
    } else if hot_fell && hot_len > 0 {
        Pool::Hot
    } else if neutral_len > 0 {
        Pool::Neutral
    } else {
        Pool::Whole
    }
}

/// `key` is one of the keys over the pool with a number below `bound`.
pub open spec fn drawn(key: Key, pool: Seq<Address>, bound: usize) -> bool {
    exists|idx: usize| idx < bound && is_key_number(key, idx, pool)
}

/// Transaction `tx` is what is made up at position `i` of a batch: it has
/// its position as its id, between one and twenty declared reads and as many
/// declared writes, each a key over the pool with a number below `bound`, and
/// the cost hint and the program that `build_tx` gives.
pub open spec fn made_up(tx: Tx, i: int, pool: Seq<Address>, bound: usize) -> bool {
    &&& tx.id == i
    &&& 1 <= tx.reads@.len() <= 20
    &&& 1 <= tx.writes@.len() <= 20
    &&& forall|j: int| 0 <= j < tx.reads@.len() ==> drawn(#[trigger] tx.reads@[j], pool, bound)
    &&& forall|j: int| 0 <= j < tx.writes@.len() ==> drawn(#[trigger] tx.writes@[j], pool, bound)
    &&& tx.gas_hint == 10 * (tx.reads@.len() + tx.writes@.len())
    &&& tx.metadata is None
    &&& tx.program@ == program_for(tx.id, tx.reads@, tx.writes@)
}

/// Draws `count` keys.
fn pick_keys(
    rng: &mut ChaCha20Rng,
    count: u32,
    cold: &Bernoulli,
    hot: &Bernoulli,
    key_space: usize,
    hot_indices: &[usize],
    neutral_indices: &[usize],
    addr_pool: &[Address],
    bound: Ghost<usize>,
) -> (keys: Vec<Key>)
    requires
        key_space > 0,
        addr_pool@.len() > 0,
        key_space <= bound@,
        forall|x: usize| hot_indices@.contains(x) ==> x < bound@,
        forall|x: usize| neutral_indices@.contains(x) ==> x < bound@,
    ensures
        keys@.len() == count,
        forall|j: int| 0 <= j < keys@.len() ==> drawn(#[trigger] keys@[j], addr_pool@, bound@),
{
    let mut keys: Vec<Key> = Vec::new();
    for n in 0..count
        invariant
            key_space > 0,
            addr_pool@.len() > 0,
            key_space <= bound@,
            forall|x: usize| hot_indices@.contains(x) ==> x < bound@,
            forall|x: usize| neutral_indices@.contains(x) ==> x < bound@,
            keys@.len() == n,
            forall|j: int| 0 <= j < keys@.len() ==> drawn(#[trigger] keys@[j], addr_pool@, bound@),
    {
        let pick_idx = pick_index(rng, cold, hot, key_space, hot_indices, neutral_indices);
        let key = key_from_idx(pick_idx, addr_pool);
        assert(drawn(key, addr_pool@, bound@)) by {
            assert(pick_idx < bound@ && is_key_number(key, pick_idx, addr_pool@));
        }
        keys.push(key);
    }
    keys
}

/// Makes up a batch of `n_tx` transactions over `key_space` key numbers, of
/// which the first `hot_size` are hot and the rest neutral.
///
/// Ten addresses are drawn first. Then, for each transaction, the numbers of
/// its reads and of its writes are drawn, each between one and twenty, then
/// its reads, then its writes, each with `pick_index`.
pub fn generate_block(
    rng: &mut ChaCha20Rng,
    n_tx: usize,
    key_space: usize,
    hot_size: usize,
    cold: &Bernoulli,
    hot: &Bernoulli,
) -> (txs: Vec<Tx>)
    requires
        n_tx > 0 ==> key_space > 0,
    ensures
        txs@.len() == n_tx,
        exists|pool: Seq<Address>|
            pool.len() == 10 && forall|i: int|
                0 <= i < n_tx ==> made_up(
                    #[trigger] txs@[i],
                    i,
                    pool,
                    if hot_size < key_space {
                        key_space
                    } else {
                        hot_size
                    },
                ),
{
    let ghost bound = if hot_size < key_space {
        key_space
    } else {
        hot_size
    };
    let mut addr_pool: Vec<Address> = Vec::new();
    for n in 0..10
        invariant
            addr_pool@.len() == n,
    {
        addr_pool.push(random_address(rng));
    }
    let hot_indices = number_list(0, hot_size);
    let neutral_indices = number_list(hot_size, key_space);

    let mut txs: Vec<Tx> = Vec::new();
    for i in 0..n_tx
        invariant
            n_tx > 0 ==> key_space > 0,
            addr_pool@.len() == 10,
            key_space <= bound,
            forall|x: usize| hot_indices@.contains(x) ==> x < bound,
            forall|x: usize| neutral_indices@.contains(x) ==> x < bound,
            txs@.len() == i,
            forall|j: int| 0 <= j < i ==> made_up(#[trigger] txs@[j], j, addr_pool@, bound),
    {
        let n_reads = 1 + next_u32(rng) % 20;
        let n_writes = 1 + next_u32(rng) % 20;
        let reads = pick_keys(
            rng,
            n_reads,
            cold,
            hot,
            key_space,
            hot_indices.as_slice(),
            neutral_indices.as_slice(),
            addr_pool.as_slice(),
            Ghost(bound),
        );
        let writes = pick_keys(
            rng,
            n_writes,
            cold,
            hot,
            key_space,
            hot_indices.as_slice(),
            neutral_indices.as_slice(),
            addr_pool.as_slice(),
            Ghost(bound),
        );
        txs.push(build_tx(i as u64, reads, writes));
    }
    proof {
        assert(addr_pool@.len() == 10 && forall|i: int|
            0 <= i < n_tx ==> made_up(#[trigger] txs@[i], i, addr_pool@, bound));
    }
    txs
}

} // verus!
