use uncleanliness::address::AddressKey;
use uncleanliness::amount::Amount;
use uncleanliness::block::{
    Action, BlockError, BlockInput, FrameKind, TraceFrame, TxInput, TxTrace, UncleInput, WithdrawalInput,
    POS_BLOCK_NUMBER,
};
use uncleanliness::blockchain::{Blockchain, PipelineError};
use uncleanliness::cache::Cache;
use uncleanliness::cli::Cli;
use uncleanliness::pipeline::{block_actions, effective_tip};
use uncleanliness::recorder::TransferError;
use uncleanliness::score::Score;
use uncleanliness::score_db::{ScoreDb, SnapshotEntry};

fn addr(n: u8) -> AddressKey {
    AddressKey::new([n; 20])
}

fn amt(v: u128) -> Amount {
    Amount::from_u128(v)
}

fn sc(b: u128, d: u128) -> Score {
    Score::new(amt(b), amt(d))
}

fn frame(kind: FrameKind, from: AddressKey, to: Option<AddressKey>, value: u128) -> TraceFrame {
    TraceFrame { kind, from, to, value: Some(amt(value)), failed: false, descendants: 0, code_empty: false }
}

fn empty_block(number: u64, miner: AddressKey) -> BlockInput {
    BlockInput {
        number,
        miner,
        base_fee_per_gas: None,
        transactions: Vec::new(),
        uncles: Vec::new(),
        withdrawals: None,
    }
}

/// A store whose current-dirty table holds the given dirty scores, written at `block`.
fn store_with(entries: Vec<(AddressKey, Score)>, block: u64) -> ScoreDb {
    let mut db = ScoreDb::new();
    db.flush_cache(&entries, block);
    db
}

#[test]
fn pure_clean_transfer() {
    let (a, b) = (addr(1), addr(2));
    let db = ScoreDb::new();
    let mut cache = Cache::new();
    let balances = vec![(a, amt(100)), (b, amt(0))];
    db.record_transfer(&mut cache, &balances, &vec![], Some(a), b, amt(40), None).unwrap();
    assert_eq!(cache.get_data(&a), Some(sc(60, 0)));
    assert_eq!(cache.get_data(&b), Some(sc(40, 0)));
    let mut db = db;
    let drained = cache.drain_data();
    db.flush_cache(&drained, 1);
    assert!(db.snapshots.is_empty());
    assert!(db.history.is_empty());
    assert_eq!(db.get_last_block_number(), None);
}

#[test]
fn source_deposit_retaints() {
    let (a, tc) = (addr(1), addr(9));
    let mut chain = Blockchain::init_new(vec![tc], &vec![amt(10)], 1);
    assert_eq!(chain.score_db.get_current(&tc), Some(sc(10, 10)));
    let balances = vec![(a, amt(100))];
    chain
        .score_db
        .record_transfer(&mut chain.cache, &balances, &chain.sources, Some(a), tc, amt(30), None)
        .unwrap();
    assert_eq!(chain.cache.get_data(&a), Some(sc(70, 0)));
    assert_eq!(chain.cache.get_data(&tc), Some(sc(40, 40)));
    let drained = chain.cache.drain_data();
    chain.score_db.flush_cache(&drained, 2);
    assert_eq!(chain.score_db.get_current(&tc), Some(sc(40, 40)));
    assert_eq!(chain.score_db.get_current(&a), None);
    let at_two: Vec<SnapshotEntry> = chain.score_db.export_address_score_between_block_range(2, 2);
    assert_eq!(at_two, vec![SnapshotEntry { block_number: 2, address: tc, score: sc(40, 40) }]);
    assert_eq!(chain.get_last_block_number(), Some(2));
}

#[test]
fn proportional_split_with_ceiling() {
    let (x, y) = (addr(3), addr(4));
    let mut db = store_with(vec![(x, sc(100, 30))], 2);
    let mut cache = Cache::new();
    let balances = vec![(y, amt(5))];
    db.record_transfer(&mut cache, &balances, &vec![], Some(x), y, amt(7), None).unwrap();
    assert_eq!(cache.get_data(&x), Some(sc(93, 27)));
    assert_eq!(cache.get_data(&y), Some(sc(12, 3)));
    let drained = cache.drain_data();
    db.flush_cache(&drained, 3);
    assert_eq!(db.get_address_score_by_block_number(&x, 3), Some(sc(93, 27)));
    assert_eq!(db.get_address_score_by_block_number(&y, 3), Some(sc(12, 3)));
    assert_eq!(db.get_address_score_by_block_number(&x, 2), Some(sc(100, 30)));
    assert_eq!(db.get_address_score_by_block_number(&y, 2), None);
    assert_eq!(db.history, vec![(x, 2), (x, 3), (y, 3)]);
}

#[test]
fn fee_burn() {
    let (s, m) = (addr(5), addr(6));
    let db = store_with(vec![(s, sc(100, 20))], 3);
    let mut cache = Cache::new();
    let balances = vec![(m, amt(0))];
    db.record_transfer(&mut cache, &balances, &vec![], Some(s), m, amt(20), Some(amt(15))).unwrap();
    assert_eq!(cache.get_data(&s), Some(sc(80, 16)));
    assert_eq!(cache.get_data(&m), Some(sc(15, 3)));

    let tx = TxInput {
        gas_price: Some(20),
        max_fee_per_gas: None,
        max_priority_fee_per_gas: None,
        trace: Some(TxTrace {
            gas_used: amt(1),
            blob_gas: None,
            frames: vec![frame(FrameKind::Call, s, Some(m), 0)],
        }),
    };
    let mut blk = empty_block(4, m);
    blk.base_fee_per_gas = Some(5);
    blk.transactions.push(tx);
    let acts = block_actions(&blk).unwrap();
    assert_eq!(
        acts[0],
        Action::Transfer { sender: Some(s), recipient: m, sender_value: amt(20), recipient_value: Some(amt(15)) }
    );
    assert_eq!(acts[1], Action::EndTransaction);
}

#[test]
fn self_destruct_zeroes() {
    let (s, z, m) = (addr(7), addr(8), addr(10));
    let db = store_with(vec![(z, sc(50, 50))], 4);
    let mut chain = Blockchain::load(db, vec![]);
    let mut root = frame(FrameKind::Call, s, Some(z), 0);
    root.descendants = 1;
    let mut sd = frame(FrameKind::SelfDestruct, z, Some(m), 0);
    sd.code_empty = true;
    let tx = TxInput {
        gas_price: Some(0),
        max_fee_per_gas: None,
        max_priority_fee_per_gas: None,
        trace: Some(TxTrace { gas_used: amt(0), blob_gas: None, frames: vec![root, sd] }),
    };
    let mut blk = empty_block(POS_BLOCK_NUMBER + 5, m);
    blk.transactions.push(tx);
    let balances = vec![(s, amt(1000)), (m, amt(0))];
    chain.record_block(&blk, &balances).unwrap();
    assert_eq!(chain.score_db.get_current(&z), None);
    assert_eq!(chain.score_db.get_address_score_by_block_number(&z, POS_BLOCK_NUMBER + 5), None);
    let rows = chain.score_db.export_address_score_between_block_range(POS_BLOCK_NUMBER + 5, POS_BLOCK_NUMBER + 5);
    assert_eq!(rows, vec![SnapshotEntry { block_number: POS_BLOCK_NUMBER + 5, address: z, score: sc(0, 0) }]);
}

#[test]
fn post_merge_withdrawal() {
    let w = addr(11);
    let mut blk = empty_block(POS_BLOCK_NUMBER, addr(12));
    blk.withdrawals = Some(vec![WithdrawalInput { address: w, amount_gwei: 1000 }]);
    let acts = block_actions(&blk).unwrap();
    assert_eq!(
        acts,
        vec![Action::Transfer { sender: None, recipient: w, sender_value: amt(1_000_000_000_000), recipient_value: None }]
    );
    let db = ScoreDb::new();
    let mut cache = Cache::new();
    db.record_transfer(&mut cache, &vec![(w, amt(0))], &vec![], None, w, amt(1_000_000_000_000), None).unwrap();
    assert_eq!(cache.get_data(&w), Some(sc(1_000_000_000_000, 0)));
}

#[test]
fn split_bounds_on_values() {
    let r = Score::with_same_uncleanliness_ceil(amt(7), &sc(100, 30));
    assert_eq!(r, sc(7, 3));
    let exact = Score::with_same_uncleanliness_ceil(amt(10), &sc(100, 30));
    assert_eq!(exact, sc(10, 3));
    let clean = Score::with_same_uncleanliness_ceil(amt(55), &sc(100, 0));
    assert_eq!(clean, sc(55, 0));
    let dirty = Score::with_same_uncleanliness_ceil(amt(55), &sc(100, 100));
    assert_eq!(dirty, Score::new_dirty(amt(55)));
    let big = Amount { limbs: [0, 0, 0, 1 << 62] };
    let half = Score::with_same_uncleanliness_ceil(big, &Score::new(big, Amount { limbs: [0, 0, 0, 1 << 61] }));
    assert_eq!(half.dirty_amount, Amount { limbs: [0, 0, 0, 1 << 61] });
}

#[test]
fn score_construction() {
    assert_eq!(Score::try_new(amt(5), amt(6)), None);
    assert_eq!(Score::try_new(amt(6), amt(5)), Some(sc(6, 5)));
    assert!(sc(6, 5).is_dirty());
    assert!(!Score::new_clean(amt(6)).is_dirty());
    assert_eq!(sc(6, 1).as_dirty(), sc(6, 6));
    assert_eq!(sc(6, 1).checked_add(&sc(4, 4)), Some(sc(10, 5)));
    let max = Amount { limbs: [u64::MAX; 4] };
    assert_eq!(Score::new_clean(max).checked_add(&sc(1, 0)), None);
    assert_eq!(sc(10, 5).sub(&sc(4, 1)), sc(6, 4));
}

#[test]
fn transfer_errors() {
    let (a, b) = (addr(1), addr(2));
    let db = ScoreDb::new();
    let mut cache = Cache::new();
    let r = db.record_transfer(&mut cache, &vec![(a, amt(10)), (b, amt(0))], &vec![], Some(a), b, amt(11), None);
    assert_eq!(r, Err(TransferError::Insolvent));
    let mut cache = Cache::new();
    let r = db.record_transfer(&mut cache, &vec![(a, amt(10)), (b, amt(0))], &vec![], Some(a), b, amt(5), Some(amt(6)));
    assert_eq!(r, Err(TransferError::ReceiveExceedsSend));
    let mut cache = Cache::new();
    let r = db.record_transfer(&mut cache, &vec![(a, amt(10))], &vec![], Some(a), b, amt(5), None);
    assert_eq!(r, Err(TransferError::MissingBalance(b)));
    let max = Amount { limbs: [u64::MAX; 4] };
    let mut cache = Cache::new();
    let r = db.record_transfer(&mut cache, &vec![(b, max)], &vec![], None, b, amt(1), None);
    assert_eq!(r, Err(TransferError::Overflow));
}

#[test]
fn tip_rules() {
    let tx = |gp: Option<u128>, mf: Option<u128>, mp: Option<u128>| TxInput {
        gas_price: gp,
        max_fee_per_gas: mf,
        max_priority_fee_per_gas: mp,
        trace: None,
    };
    assert_eq!(effective_tip(5, &tx(Some(20), None, None)), Some(15));
    assert_eq!(effective_tip(5, &tx(Some(20), Some(30), Some(2))), Some(2));
    assert_eq!(effective_tip(5, &tx(Some(20), Some(7), Some(2))), Some(15));
    assert_eq!(effective_tip(0, &tx(Some(20), None, None)), Some(20));
    assert_eq!(effective_tip(30, &tx(Some(20), None, None)), None);
}

#[test]
fn block_errors() {
    let (s, m) = (addr(1), addr(2));
    let mut blk = empty_block(POS_BLOCK_NUMBER, m);
    blk.base_fee_per_gas = Some(50);
    blk.transactions.push(TxInput {
        gas_price: Some(20),
        max_fee_per_gas: None,
        max_priority_fee_per_gas: None,
        trace: Some(TxTrace { gas_used: amt(1), blob_gas: None, frames: vec![frame(FrameKind::Call, s, None, 0)] }),
    });
    assert_eq!(block_actions(&blk), Err(BlockError::FeeUnderflow));

    let mut blk = empty_block(POS_BLOCK_NUMBER, m);
    blk.transactions.push(TxInput {
        gas_price: Some(1),
        max_fee_per_gas: None,
        max_priority_fee_per_gas: None,
        trace: Some(TxTrace { gas_used: amt(1), blob_gas: None, frames: vec![] }),
    });
    assert_eq!(block_actions(&blk), Err(BlockError::EmptyTrace));

    let mut blk = empty_block(POS_BLOCK_NUMBER, m);
    blk.transactions.push(TxInput {
        gas_price: Some(1),
        max_fee_per_gas: None,
        max_priority_fee_per_gas: None,
        trace: Some(TxTrace { gas_used: amt(1), blob_gas: None, frames: vec![frame(FrameKind::Call, s, None, 3)] }),
    });
    assert_eq!(block_actions(&blk), Err(BlockError::MissingRecipient));

    let mut blk = empty_block(100, m);
    blk.uncles.push(UncleInput { number: Some(50), miner: s });
    assert_eq!(block_actions(&blk), Err(BlockError::UncleTooOld));

    let mut blk = empty_block(POS_BLOCK_NUMBER, m);
    blk.transactions.push(TxInput {
        gas_price: Some(1),
        max_fee_per_gas: None,
        max_priority_fee_per_gas: None,
        trace: Some(TxTrace { gas_used: Amount { limbs: [0, 0, 0, u64::MAX] }, blob_gas: None, frames: vec![frame(FrameKind::Call, s, None, 0)] }),
    });
    blk.transactions[0].gas_price = Some(2);
    assert_eq!(block_actions(&blk), Err(BlockError::FeeOverflow));
}

#[test]
fn traversal_skips_failed_subtrees_and_static_calls() {
    let (s, a, b, c, m) = (addr(1), addr(2), addr(3), addr(4), addr(5));
    let mut root = frame(FrameKind::Call, s, Some(a), 10);
    root.descendants = 4;
    let mut failed = frame(FrameKind::Call, a, Some(b), 3);
    failed.failed = true;
    failed.descendants = 1;
    let under_failed = frame(FrameKind::Call, b, Some(c), 1);
    let stat = frame(FrameKind::StaticCall, a, Some(c), 9);
    let ok = frame(FrameKind::Call, a, Some(c), 2);
    let tx = TxInput {
        gas_price: Some(0),
        max_fee_per_gas: None,
        max_priority_fee_per_gas: None,
        trace: Some(TxTrace { gas_used: amt(0), blob_gas: Some((2, 3)), frames: vec![root, failed, under_failed, stat, ok] }),
    };
    let mut blk = empty_block(POS_BLOCK_NUMBER, m);
    blk.transactions.push(tx);
    let acts = block_actions(&blk).unwrap();
    assert_eq!(
        acts,
        vec![
            Action::Transfer { sender: Some(s), recipient: m, sender_value: amt(6), recipient_value: Some(amt(0)) },
            Action::Transfer { sender: Some(s), recipient: a, sender_value: amt(10), recipient_value: None },
            Action::Transfer { sender: Some(a), recipient: c, sender_value: amt(2), recipient_value: None },
            Action::EndTransaction,
        ]
    );
}

#[test]
fn proof_of_work_rewards() {
    let (m, u1, u2) = (addr(1), addr(2), addr(3));
    let mut blk = empty_block(100, m);
    blk.uncles.push(UncleInput { number: Some(99), miner: u1 });
    blk.uncles.push(UncleInput { number: Some(94), miner: u2 });
    let acts = block_actions(&blk).unwrap();
    let r_s: u128 = 2_000_000_000_000_000_000;
    assert_eq!(
        acts,
        vec![
            Action::Transfer { sender: None, recipient: m, sender_value: amt(r_s + r_s / 32 * 2), recipient_value: None },
            Action::Transfer { sender: None, recipient: u1, sender_value: amt(7 * r_s / 8), recipient_value: None },
            Action::Transfer { sender: None, recipient: u2, sender_value: amt(2 * r_s / 8), recipient_value: None },
        ]
    );
}

#[test]
fn failed_block_leaves_store_unchanged() {
    let (x, m) = (addr(1), addr(2));
    let db = store_with(vec![(x, sc(100, 30))], 7);
    let mut chain = Blockchain::load(db, vec![]);
    let mut blk = empty_block(POS_BLOCK_NUMBER + 8, m);
    blk.transactions.push(TxInput {
        gas_price: Some(0),
        max_fee_per_gas: None,
        max_priority_fee_per_gas: None,
        trace: Some(TxTrace { gas_used: amt(0), blob_gas: None, frames: vec![frame(FrameKind::Call, x, Some(m), 500)] }),
    });
    let before_snaps = chain.score_db.snapshots.clone();
    let before_current = chain.score_db.current.clone();
    let r = chain.record_block(&blk, &vec![(m, amt(0))]);
    assert_eq!(r, Err(PipelineError::Transfer(TransferError::Insolvent)));
    assert_eq!(chain.score_db.snapshots, before_snaps);
    assert_eq!(chain.score_db.current, before_current);
    assert_eq!(chain.cache.get_data(&x), None);
}

#[test]
fn history_and_max_dirty() {
    let x = addr(1);
    let mut db = store_with(vec![(x, sc(100, 30))], 1);
    db.flush_cache(&vec![(x, sc(100, 60))], 2);
    db.flush_cache(&vec![(x, sc(100, 0))], 3);
    db.flush_cache(&vec![(x, sc(100, 0))], 4);
    assert_eq!(db.history, vec![(x, 1), (x, 2), (x, 3)]);
    assert_eq!(db.get_address_max_dirty_amount(&x), sc(100, 60));
    assert_eq!(db.get_address_latest_score(&x), None);
    assert_eq!(db.get_address_max_dirty_amount(&addr(9)), sc(0, 0));
    assert_eq!(db.get_last_block_number(), Some(3));
    db.clear();
    assert_eq!(db.get_last_block_number(), None);
}

#[test]
fn cache_operations() {
    let mut cache = Cache::new();
    cache.insert_data(addr(1), sc(5, 1));
    cache.insert_data(addr(1), sc(6, 2));
    assert_eq!(cache.get_data(&addr(1)), Some(sc(6, 2)));
    cache.insert_self_destruct(addr(3));
    cache.insert_self_destruct(addr(3));
    assert!(cache.check_self_destructed(&addr(3)));
    assert!(!cache.check_self_destructed(&addr(4)));
    assert_eq!(cache.drain_self_destruct(), vec![addr(3), addr(3)]);
    assert_eq!(cache.drain_data(), vec![(addr(1), sc(6, 2))]);
    assert_eq!(cache.get_data(&addr(1)), None);
    assert!(Cli { reset: true }.is_reset());
}

#[test]
fn tainted_upto_and_block_counts() {
    let (x, y, z) = (addr(1), addr(2), addr(3));
    let mut db = store_with(vec![(x, sc(10, 5)), (y, sc(8, 8))], 1);
    db.flush_cache(&vec![(x, sc(10, 0)), (z, sc(4, 1))], 2);
    db.flush_cache(&vec![(y, sc(9, 1))], 5);
    let upto_one = db.export_tainted_addresses_until_block_number(1);
    assert_eq!(upto_one, vec![(x, sc(10, 5)), (y, sc(8, 8))]);
    let upto_four = db.export_tainted_addresses_until_block_number(4);
    assert_eq!(upto_four, vec![(y, sc(8, 8)), (z, sc(4, 1))]);
    let all = db.export_tainted_addresses_until_block_number(9);
    assert_eq!(all, vec![(y, sc(9, 1)), (z, sc(4, 1))]);
    assert_eq!(db.export_historical_amount_of_tainted_addresses(), vec![(1, 2), (2, 2), (5, 1)]);
    assert_eq!(db.export_address_score_between_block_range(2, 4).len(), 2);
    assert_eq!(db.get_address_latest_score(&y), Some(sc(9, 1)));
}
