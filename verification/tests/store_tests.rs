use btc_indexer::header::BlockHeader;
use btc_indexer::store::{CommitOutcome, HeaderStore};
use btc_indexer::pow::check_retarget;
use btc_indexer::{BitcoinNetworkType, Error};

const EASY_BITS: u32 = 0x207fffff;

/// Mine a header on the regtest-style easy target.
fn mine(prev: Vec<u8>, time: u32, salt: u32) -> BlockHeader {
    let mut h = BlockHeader {
        version: 2,
        prev_blockhash: prev,
        merkle_root: vec![(salt % 251) as u8; 32],
        time,
        bits: EASY_BITS,
        nonce: 0,
    };
    while !h.check_pow() {
        h.nonce += 1;
    }
    h
}

/// Craft a header whose declared target is NOT met.
fn mine_bad(prev: Vec<u8>, time: u32) -> BlockHeader {
    let mut h = BlockHeader {
        version: 2,
        prev_blockhash: prev,
        merkle_root: vec![7u8; 32],
        time,
        // an extremely hard target no test header will meet
        bits: 0x03000001,
        nonce: 0,
    };
    while h.check_pow() {
        h.nonce += 1;
    }
    h
}

fn dup(h: &BlockHeader) -> BlockHeader {
    h.duplicate()
}

/// A chain of `n` headers on top of `tip_hash`.
fn chain_on(tip_hash: Vec<u8>, n: usize, t0: u32, salt: u32) -> Vec<BlockHeader> {
    let mut out: Vec<BlockHeader> = Vec::new();
    let mut prev = tip_hash;
    for i in 0..n {
        let h = mine(prev, t0 + i as u32, salt + i as u32);
        prev = h.header_hash();
        out.push(h);
    }
    out
}

fn fresh_store(start_height: u64) -> (HeaderStore, BlockHeader) {
    let root = mine(vec![0u8; 32], 1_000_000, 9000);
    let store = HeaderStore::new(BitcoinNetworkType::regtest, start_height, dup(&root)).expect("root header is valid");
    (store, root)
}

#[test]
fn store_extends_contiguously() {
    let (mut store, root) = fresh_store(100);
    assert_eq!(store.tip_height(), 100);
    let batch = chain_on(root.header_hash(), 5, 1_000_001, 1);
    let r = store.commit_batch(&batch, 2_000_000);
    assert!(matches!(r, Ok(CommitOutcome::Extended)));
    assert_eq!(store.tip_height(), 105);
    assert_eq!(store.header_count(), 6);
    // contiguity: each stored header's prev hash is the hash of the one below
    for h in 101..=105u64 {
        let cur = store.get_header(h).expect("height is stored");
        let below = store.get_header(h - 1).expect("height below is stored");
        assert_eq!(cur.prev_blockhash, below.header_hash());
    }
    assert!(store.get_header(99).is_none());
    assert!(store.get_header(106).is_none());
    assert_eq!(store.tip_hash(), batch[4].header_hash());
}

#[test]
fn insufficient_pow_is_rejected_wholesale() {
    let (mut store, root) = fresh_store(0);
    // a batch whose second header fails its own target
    let good = mine(root.header_hash(), 1_000_001, 50);
    let bad = mine_bad(good.header_hash(), 1_000_002);
    let batch = vec![good, bad];
    let r = store.commit_batch(&batch, 2_000_000);
    assert!(matches!(r, Err(Error::InvalidPoW)));
    // nothing was committed, not even the good prefix
    assert_eq!(store.tip_height(), 0);
    assert_eq!(store.header_count(), 1);
    assert_eq!(store.tip_hash(), root.header_hash());
}

#[test]
fn future_timestamp_is_rejected() {
    let (mut store, root) = fresh_store(0);
    let batch = chain_on(root.header_hash(), 2, 3_000_000, 1);
    let r = store.commit_batch(&batch, 2_000_000);
    assert!(matches!(r, Err(Error::InvalidPoW)));
    assert_eq!(store.tip_height(), 0);
}

#[test]
fn unconnected_batch_is_rejected_untouched() {
    let (mut store, _root) = fresh_store(0);
    // a batch rooted on a hash the store has never seen
    let batch = chain_on(vec![0xabu8; 32], 3, 1_000_001, 1);
    let r = store.commit_batch(&batch, 2_000_000);
    assert!(matches!(r, Err(Error::NoncontiguousHeader)));
    assert_eq!(store.tip_height(), 0);
    assert_eq!(store.header_count(), 1);
}

#[test]
fn broken_internal_link_is_rejected() {
    let (mut store, root) = fresh_store(0);
    let a = mine(root.header_hash(), 1_000_001, 1);
    // b does not link to a
    let b = mine(vec![0x11u8; 32], 1_000_002, 2);
    let batch = vec![a, b];
    let r = store.commit_batch(&batch, 2_000_000);
    assert!(matches!(r, Err(Error::NoncontiguousHeader)));
    assert_eq!(store.header_count(), 1);
}

#[test]
fn malformed_header_is_rejected() {
    let (mut store, root) = fresh_store(0);
    let mut h = mine(root.header_hash(), 1_000_001, 1);
    h.merkle_root.pop();
    let batch = vec![h];
    let r = store.commit_batch(&batch, 2_000_000);
    assert!(matches!(r, Err(Error::InvalidByteSequence)));
    assert_eq!(store.header_count(), 1);
}

#[test]
fn heavier_fork_reorgs_the_chain() {
    let (mut store, root) = fresh_store(0);
    // chain A: heights 1..=10
    let a = chain_on(root.header_hash(), 10, 1_000_001, 1);
    assert!(matches!(store.commit_batch(&a, 2_000_000), Ok(CommitOutcome::Extended)));
    assert_eq!(store.tip_height(), 10);
    // chain B forks at height 5 and is longer, so it carries more work
    let fork_hash = a[4].header_hash(); // header at height 5
    let b = chain_on(fork_hash, 7, 1_100_000, 77);
    let r = store.commit_batch(&b, 2_000_000);
    assert!(matches!(r, Ok(CommitOutcome::Reorged)));
    assert_eq!(store.tip_height(), 12);
    assert_eq!(store.tip_hash(), b[6].header_hash());
    // heights 6..=10 of A are gone, replaced by B's headers
    for (i, bh) in b.iter().enumerate() {
        let stored = store.get_header(6 + i as u64).expect("fork height stored");
        assert_eq!(stored.header_hash(), bh.header_hash());
    }
    // the common prefix survived
    for (i, ah) in a.iter().take(5).enumerate() {
        let stored = store.get_header(1 + i as u64).expect("prefix height stored");
        assert_eq!(stored.header_hash(), ah.header_hash());
    }
}

#[test]
fn lighter_fork_is_ignored() {
    let (mut store, root) = fresh_store(0);
    let a = chain_on(root.header_hash(), 10, 1_000_001, 1);
    assert!(matches!(store.commit_batch(&a, 2_000_000), Ok(CommitOutcome::Extended)));
    let fork_hash = a[4].header_hash();
    // only 3 headers above the fork against A's 5: less work
    let b = chain_on(fork_hash, 3, 1_100_000, 88);
    let r = store.commit_batch(&b, 2_000_000);
    assert!(matches!(r, Ok(CommitOutcome::Ignored)));
    assert_eq!(store.tip_height(), 10);
    assert_eq!(store.tip_hash(), a[9].header_hash());
}

#[test]
fn recommitting_the_same_batch_changes_nothing() {
    let (mut store, root) = fresh_store(0);
    let batch = chain_on(root.header_hash(), 6, 1_000_001, 1);
    assert!(matches!(store.commit_batch(&batch, 2_000_000), Ok(CommitOutcome::Extended)));
    let tip1 = store.tip_hash();
    let count1 = store.header_count();
    let r = store.commit_batch(&batch, 2_000_000);
    assert!(matches!(r, Ok(CommitOutcome::Ignored)));
    assert_eq!(store.tip_hash(), tip1);
    assert_eq!(store.header_count(), count1);
    assert_eq!(store.tip_height(), 6);
}

#[test]
fn empty_batch_is_ignored() {
    let (mut store, _root) = fresh_store(0);
    let r = store.commit_batch(&Vec::new(), 2_000_000);
    assert!(matches!(r, Ok(CommitOutcome::Ignored)));
    assert_eq!(store.header_count(), 1);
}

#[test]
fn bad_start_header_is_refused() {
    let bad = mine_bad(vec![0u8; 32], 1_000_000);
    assert!(matches!(HeaderStore::new(BitcoinNetworkType::regtest, 0, bad), Err(Error::InvalidPoW)));
    let mut short = mine(vec![0u8; 32], 1_000_000, 1);
    short.prev_blockhash.pop();
    assert!(matches!(HeaderStore::new(BitcoinNetworkType::regtest, 0, short), Err(Error::InvalidByteSequence)));
}

#[test]
fn served_blocks_are_checked_against_committed_headers() {
    let (mut store, root) = fresh_store(0);
    let batch = chain_on(root.header_hash(), 3, 1_000_001, 1);
    assert!(matches!(store.commit_batch(&batch, 2_000_000), Ok(CommitOutcome::Extended)));
    // a truthful block: the committed header plus a payload
    let mut raw = batch[1].serialize();
    raw.extend_from_slice(&[1, 2, 3, 4]);
    assert!(store.check_block_at(2, &raw).is_ok());
    // a block for a header the store never committed
    let stranger = mine(root.header_hash(), 1_500_000, 99);
    let raw2 = stranger.serialize();
    assert!(matches!(store.check_block_at(2, &raw2), Err(Error::NoncontiguousHeader)));
    // too short to even hold a header
    assert!(matches!(store.check_block_at(2, &vec![0u8; 40]), Err(Error::InvalidByteSequence)));
    // a height the store does not reach
    assert!(matches!(store.check_block_at(50, &raw), Err(Error::MissingHeader)));
}

#[test]
fn locator_runs_from_tip_to_root() {
    let (mut store, root) = fresh_store(0);
    let batch = chain_on(root.header_hash(), 30, 1_000_001, 5);
    assert!(matches!(store.commit_batch(&batch, 2_000_000), Ok(CommitOutcome::Extended)));
    let locator = store.build_locator();
    assert!(locator.len() >= 2);
    assert_eq!(locator[0], store.tip_hash());
    assert_eq!(locator[locator.len() - 1], root.header_hash());
    // the ten most recent entries step down one height at a time
    for k in 0..10usize {
        let stored = store.get_header(30 - k as u64).expect("recent height stored");
        assert_eq!(locator[k], stored.header_hash());
    }
}

#[test]
fn retarget_schedule_rules() {
    let main = BitcoinNetworkType::mainnet;
    let limit: u32 = 0x1d00ffff;
    // off a boundary the difficulty may not move at all
    assert!(check_retarget(main, limit, limit, 100));
    assert!(!check_retarget(main, limit, 0x1c7fffff, 100));
    // on a boundary one adjustment moves the target at most fourfold:
    // a quarter of the limit target is allowed, an eighth is not
    assert!(check_retarget(main, limit, limit, 2016));
    assert!(check_retarget(main, limit, 0x1c3fffc0, 2016));
    assert!(!check_retarget(main, limit, 0x1c1fffe0, 2016));
    // coming back up from a quarter to the limit is within the clamp
    assert!(check_retarget(main, 0x1c3fffc0, limit, 4032));
    // nothing may declare a target easier than the network's limit
    assert!(!check_retarget(main, limit, EASY_BITS, 2016));
    assert!(!check_retarget(main, limit, EASY_BITS, 100));
    // regtest never adjusts: only its limit binds
    let reg = BitcoinNetworkType::regtest;
    assert!(check_retarget(reg, EASY_BITS, 0x1d00ffff, 100));
    assert!(check_retarget(reg, EASY_BITS, EASY_BITS, 2016));
}

#[test]
fn easy_bits_on_mainnet_are_rejected() {
    // the mainnet genesis header, a store holding only it...
    let genesis = BlockHeader {
        version: 1,
        prev_blockhash: vec![0u8; 32],
        merkle_root: vec![
            0x3b, 0xa3, 0xed, 0xfd, 0x7a, 0x7b, 0x12, 0xb2, 0x7a, 0xc7, 0x2c, 0x3e, 0x67, 0x76,
            0x8f, 0x61, 0x7f, 0xc8, 0x1b, 0xc3, 0x88, 0x8a, 0x51, 0x32, 0x3a, 0x9f, 0xb8, 0xaa,
            0x4b, 0x1e, 0x5e, 0x4a,
        ],
        time: 1231006505,
        bits: 0x1d00ffff,
        nonce: 2083236893,
    };
    let genesis_hash = genesis.header_hash();
    let mut store =
        HeaderStore::new(BitcoinNetworkType::mainnet, 0, genesis).expect("genesis is valid");
    // ... and a peer extending it with self-declared trivial difficulty:
    // the header meets its own easy target, but not mainnet's schedule
    let forged = mine(genesis_hash, 1231006506, 13);
    let r = store.commit_batch(&vec![forged], 2_000_000_000);
    assert!(matches!(r, Err(Error::InvalidPoW)));
    assert_eq!(store.tip_height(), 0);
    assert_eq!(store.header_count(), 1);
}
