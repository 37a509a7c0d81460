use rand::distributions::Bernoulli;
use rand::seq::SliceRandom;
use rand::{Rng, RngCore, SeedableRng};
use rand_chacha::ChaCha20Rng;
use std::collections::hash_map::DefaultHasher;
use std::hash::{Hash, Hasher};
use txconflict::types::{Address, Key, MicroOp, Tx};
use txconflict::workload::{
    build_program_for_tx, build_tx, generate_block, key_from_idx, pick_index, pool_for,
    random_address, random_slot, Pool,
};

fn key(tag: u8) -> Key {
    Key {
        address: [tag; 20],
        slot: [tag; 32],
    }
}

#[test]
fn program_of_reads_and_writes() {
    let reads = [key(1), key(2)];
    let writes = [key(3), key(4)];
    let prog = build_program_for_tx(7, &reads, &writes);
    assert_eq!(
        prog,
        vec![
            MicroOp::SLOAD { key: key(1) },
            MicroOp::ADD { imm: 7 },
            MicroOp::SLOAD { key: key(2) },
            MicroOp::ADD { imm: 7 },
            MicroOp::ADD { imm: 0 },
            MicroOp::SSTORE { key: key(3) },
            MicroOp::SLOAD { key: key(3) },
            MicroOp::ADD { imm: 1 },
            MicroOp::SSTORE { key: key(4) },
            MicroOp::SLOAD { key: key(4) },
            MicroOp::NOOP,
        ]
    );
}

#[test]
fn program_of_nothing_is_one_noop() {
    assert_eq!(build_program_for_tx(3, &[], &[]), vec![MicroOp::NOOP]);
}

#[test]
fn program_of_reads_alone() {
    assert_eq!(
        build_program_for_tx(0, &[key(9)], &[]),
        vec![
            MicroOp::SLOAD { key: key(9) },
            MicroOp::ADD { imm: 0 },
            MicroOp::NOOP
        ]
    );
}

#[test]
fn key_by_number_goes_round_the_pool() {
    let pool: Vec<Address> = vec![[1; 20], [2; 20], [3; 20]];
    assert_eq!(key_from_idx(0, &pool).address, [1; 20]);
    assert_eq!(key_from_idx(1, &pool).address, [2; 20]);
    assert_eq!(key_from_idx(5, &pool).address, [3; 20]);
    assert_eq!(key_from_idx(6, &pool).address, [1; 20]);
}

#[test]
fn key_by_number_has_the_digest_in_its_first_eight_bytes() {
    let pool: Vec<Address> = vec![[0; 20]];
    for idx in [0usize, 1, 41, 1000, usize::MAX] {
        let key = key_from_idx(idx, &pool);
        assert_eq!(&key.slot[8..], &[0u8; 24]);
        assert_eq!(key, key_from_idx(idx, &pool));
        if usize::BITS == 64 && 1u16.to_ne_bytes() == [1, 0] {
            let mut hasher = DefaultHasher::new();
            idx.hash(&mut hasher);
            assert_eq!(&key.slot[..8], &hasher.finish().to_le_bytes());
        }
    }
    assert_ne!(key_from_idx(1, &pool).slot, key_from_idx(2, &pool).slot);
}

/// The same draws, made with the generator's own methods.
fn drawn_by_hand(seed: u64, n_tx: usize, key_space: usize, conflict: f64, cold: f64) -> Vec<Tx> {
    let mut rng = ChaCha20Rng::seed_from_u64(seed);
    let mut pool: Vec<Address> = Vec::new();
    for _ in 0..10 {
        let mut a = [0u8; 20];
        rng.fill_bytes(&mut a);
        pool.push(a);
    }
    let hot_size = ((conflict * key_space as f64).max(1.0)) as usize;
    let hot: Vec<usize> = (0..hot_size).collect();
    let neutral: Vec<usize> = (hot_size..key_space).collect();
    let mut txs = Vec::new();
    for i in 0..n_tx {
        let n_reads = 1 + (rng.next_u32() % 20);
        let n_writes = 1 + (rng.next_u32() % 20);
        let mut lists: Vec<Vec<Key>> = Vec::new();
        for count in [n_reads, n_writes] {
            let mut keys = Vec::new();
            for _ in 0..count {
                let idx = if rng.gen_bool(cold) {
                    rng.gen_range(0..key_space)
                } else if rng.gen_bool(conflict) && !hot.is_empty() {
                    *hot.choose(&mut rng).unwrap()
                } else if !neutral.is_empty() {
                    *neutral.choose(&mut rng).unwrap()
                } else {
                    rng.gen_range(0..key_space)
                };
                keys.push(key_from_idx(idx, &pool));
            }
            lists.push(keys);
        }
        let writes = lists.pop().unwrap();
        let reads = lists.pop().unwrap();
        let program = build_program_for_tx(i as u64, &reads, &writes);
        txs.push(Tx {
            id: i as u64,
            reads,
            writes,
            gas_hint: (n_reads + n_writes) as u64 * 10,
            metadata: None,
            program,
        });
    }
    txs
}

fn drawn_by_library(seed: u64, n_tx: usize, key_space: usize, conflict: f64, cold: f64) -> Vec<Tx> {
    let mut rng = ChaCha20Rng::seed_from_u64(seed);
    let hot_size = ((conflict * key_space as f64).max(1.0)) as usize;
    let cold_coin = Bernoulli::new(cold).unwrap();
    let hot_coin = Bernoulli::new(conflict).unwrap();
    generate_block(&mut rng, n_tx, key_space, hot_size, &cold_coin, &hot_coin)
}

#[test]
fn a_batch_is_what_the_same_draws_give() {
    for (seed, n_tx, key_space, conflict, cold) in [
        (42u64, 2usize, 1000usize, 0.2, 0.1),
        (7, 25, 50, 0.5, 0.3),
        (1, 10, 1, 0.2, 0.1),
        (3, 10, 4, 1.0, 0.0),
        (5, 10, 30, 0.0, 1.0),
        (9, 10, 30, 0.0, 0.0),
        (11, 0, 30, 0.2, 0.1),
    ] {
        assert_eq!(
            drawn_by_library(seed, n_tx, key_space, conflict, cold),
            drawn_by_hand(seed, n_tx, key_space, conflict, cold)
        );
    }
}

#[test]
fn a_batch_is_the_same_for_the_same_seed() {
    let one = drawn_by_library(42, 8, 100, 0.2, 0.1);
    let two = drawn_by_library(42, 8, 100, 0.2, 0.1);
    let other = drawn_by_library(43, 8, 100, 0.2, 0.1);
    assert_eq!(one, two);
    assert_ne!(one, other);
}

#[test]
fn a_batch_has_ids_in_order_and_the_cost_of_its_keys() {
    let txs = drawn_by_library(42, 12, 100, 0.2, 0.1);
    assert_eq!(txs.len(), 12);
    for (i, tx) in txs.iter().enumerate() {
        assert_eq!(tx.id, i as u64);
        assert!(1 <= tx.reads.len() && tx.reads.len() <= 20);
        assert!(1 <= tx.writes.len() && tx.writes.len() <= 20);
        assert_eq!(tx.gas_hint, 10 * (tx.reads.len() + tx.writes.len()) as u64);
        assert_eq!(tx.metadata, None);
        assert_eq!(
            tx.program,
            build_program_for_tx(tx.id, &tx.reads, &tx.writes)
        );
        assert_eq!(tx.program.len(), 2 * tx.reads.len() + 3 * tx.writes.len() + 1);
    }
}

#[test]
fn hot_draws_stay_among_the_hot_numbers() {
    // the cold coin never falls, the hot coin always: every key has number 0 or 1
    let mut rng = ChaCha20Rng::seed_from_u64(4);
    let cold = Bernoulli::new(0.0).unwrap();
    let hot = Bernoulli::new(1.0).unwrap();
    for _ in 0..50 {
        let idx = pick_index(&mut rng, &cold, &hot, 10, &[0, 1], &[2, 3, 4, 5, 6, 7, 8, 9]);
        assert!(idx < 2);
    }
    // neither coin falls: every key is neutral
    let hot = Bernoulli::new(0.0).unwrap();
    for _ in 0..50 {
        let idx = pick_index(&mut rng, &cold, &hot, 10, &[0, 1], &[7, 8, 9]);
        assert!(7 <= idx && idx < 10);
    }
    // no neutral numbers: the draw goes to the whole key space
    for _ in 0..50 {
        let idx = pick_index(&mut rng, &cold, &hot, 3, &[0, 1, 2], &[]);
        assert!(idx < 3);
    }
    // the cold coin always falls
    let cold = Bernoulli::new(1.0).unwrap();
    for _ in 0..50 {
        let idx = pick_index(&mut rng, &cold, &hot, 5, &[100], &[200]);
        assert!(idx < 5);
    }
}

#[test]
fn build_tx_counts_ten_for_each_key() {
    let tx = build_tx(6, vec![key(1), key(2), key(3)], vec![key(4)]);
    assert_eq!(tx.id, 6);
    assert_eq!(tx.reads, vec![key(1), key(2), key(3)]);
    assert_eq!(tx.writes, vec![key(4)]);
    assert_eq!(tx.gas_hint, 40);
    assert_eq!(tx.metadata, None);
    assert_eq!(tx.program.len(), 10);
    let empty = build_tx(0, Vec::new(), Vec::new());
    assert_eq!(empty.gas_hint, 0);
    assert_eq!(empty.program, vec![MicroOp::NOOP]);
}

#[test]
fn random_fields_have_no_fixed_bytes() {
    let mut rng = ChaCha20Rng::seed_from_u64(2);
    let a = random_address(&mut rng);
    let b = random_address(&mut rng);
    assert_ne!(a, b);
    assert_ne!(a, [0u8; 20]);
    let s = random_slot(&mut rng);
    assert_ne!(s, [0u8; 32]);
    let mut again = ChaCha20Rng::seed_from_u64(2);
    assert_eq!(random_address(&mut again), a);
}

#[test]
fn the_pool_follows_the_tosses() {
    // the cold coin decides first, whatever the other says
    assert_eq!(pool_for(true, false, 3, 4), Pool::Whole);
    assert_eq!(pool_for(true, true, 3, 4), Pool::Whole);
    // then the hot coin, as long as there are hot numbers
    assert_eq!(pool_for(false, true, 3, 4), Pool::Hot);
    assert_eq!(pool_for(false, true, 3, 0), Pool::Hot);
    assert_eq!(pool_for(false, true, 0, 4), Pool::Neutral);
    // then the neutral numbers, if there are any
    assert_eq!(pool_for(false, false, 3, 4), Pool::Neutral);
    assert_eq!(pool_for(false, false, 0, 1), Pool::Neutral);
    assert_eq!(pool_for(false, false, 3, 0), Pool::Whole);
    assert_eq!(pool_for(false, true, 0, 0), Pool::Whole);
    assert_eq!(pool_for(false, false, 0, 0), Pool::Whole);
}
