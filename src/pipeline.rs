use crate::address::AddressKey;
use crate::amount::{checked_add, checked_mul, Amount};
use crate::block::{
    action_model, actions_model, block_actions_spec, frame_actions, frames_actions, or_zero,
    reward_actions, skip_subtree, tip_of, tx_actions, txs_actions, uncles_actions,
    withdrawals_actions, Action, ActionModel, BlockError, BlockInput, FrameKind, TraceFrame, TxInput,
    UncleInput, WithdrawalInput, POS_BLOCK_NUMBER, STATIC_BLOCK_REWARD, WEI_PER_GWEI,
};
use vstd::prelude::*;

verus! {

/// The priority fee per gas that reaches the miner (see `tip_of`).
pub fn effective_tip(base: u128, tx: &TxInput) -> (r: Option<u128>)
    ensures
        match r {
            Some(t) => tip_of(base as int, or_zero(tx.gas_price), or_zero(tx.max_fee_per_gas), tx.max_priority_fee_per_gas) == Some(t as int),
            None => tip_of(base as int, or_zero(tx.gas_price), or_zero(tx.max_fee_per_gas), tx.max_priority_fee_per_gas) is None,
        },
{
    let gas_price: u128 = match tx.gas_price {
        Some(g) => g,
        None => 0,
    };
    let max_fee: u128 = match tx.max_fee_per_gas {
        Some(m) => m,
        None => 0,
    };
    let fallback = if gas_price >= base {
        Some(gas_price - base)
    } else {
        None
    };
    match tx.max_priority_fee_per_gas {
        Some(t) => {
            if max_fee > t && max_fee - t > base {
                Some(t)
            } else {
                fallback
            }
        },
        None => fallback,
    }
}

/// The actions of one frame that did not fail (see `frame_actions`).
pub fn process_frame(fr: &TraceFrame, out: &mut Vec<Action>) -> (r: Result<(), BlockError>)
    ensures
        match r {
            Ok(()) => frame_actions(*fr) matches Ok(a) && actions_model(final(out)@) == actions_model(old(out)@) + a,
            Err(e) => frame_actions(*fr) == Err::<Seq<ActionModel>, BlockError>(e),
        },
{
    let ghost start = out@;
    match fr.kind {
        FrameKind::DelegateCall | FrameKind::CallCode | FrameKind::StaticCall => {
            assert(actions_model(out@) =~= actions_model(start) + Seq::<ActionModel>::empty());
            return Ok(());
        },
        _ => {},
    }
    let is_sd = match fr.kind {
        FrameKind::SelfDestruct => fr.code_empty,
        _ => false,
    };
    if is_sd {
        out.push(Action::SelfDestruct(fr.from));
    }
    let ghost sd: Seq<ActionModel> = if is_sd {
        seq![ActionModel::SelfDestruct(fr.from)]
    } else {
        Seq::empty()
    };
    assert(actions_model(out@) =~= actions_model(start) + sd);
    match fr.value {
        Some(v) => {
            if !v.is_zero() {
                match fr.to {
                    None => {
                        return Err(BlockError::MissingRecipient);
                    },
                    Some(to) => {
                        out.push(Action::Transfer { sender: Some(fr.from), recipient: to, sender_value: v, recipient_value: None });
                        assert(actions_model(out@) =~= actions_model(start) + sd.push(
                            ActionModel::Transfer { sender: Some(fr.from), recipient: to, sender_value: v.value(), recipient_value: None },
                        ));
                    },
                }
            }
        },
        None => {},
    }
    Ok(())
}

/// Walks the frames in depth-first pre-order, skipping failed frames with
/// their subtrees, and appends each frame's actions.
pub fn depth_first_traversal(frames: &Vec<TraceFrame>, out: &mut Vec<Action>) -> (r: Result<(), BlockError>)
    ensures
        match r {
            Ok(()) => frames_actions(frames@, 0) matches Ok(a) && actions_model(final(out)@) == actions_model(old(out)@) + a,
            Err(e) => frames_actions(frames@, 0) == Err::<Seq<ActionModel>, BlockError>(e),
        },
{
    let ghost start = actions_model(out@);
    let mut i: usize = 0;
    while i < frames.len()
        invariant
            0 <= i <= frames.len(),
            frames_actions(frames@, 0) == match frames_actions(frames@, i as int) {
                Ok(rest) => Ok((actions_model(out@).subrange(start.len() as int, actions_model(out@).len() as int)) + rest),
                Err(e) => Err::<Seq<ActionModel>, BlockError>(e),
            },
            actions_model(out@).len() >= start.len(),
            actions_model(out@).subrange(0, start.len() as int) == start,
        decreases frames.len() - i,
    {
        let fr = frames[i];
        if fr.failed {
            let next: usize = if fr.descendants >= frames.len() - i {
                frames.len()
            } else {
                i + 1 + fr.descendants
            };
            assert(next as int == skip_subtree(frames@, i as int));
            i = next;
        } else {
            let ghost before = actions_model(out@);
            let res = process_frame(&fr, out);
            match res {
                Err(e) => {
                    return Err(e);
                },
                Ok(()) => {
                    proof {
                        let fa = frame_actions(fr)->Ok_0;
                        assert(actions_model(out@) == before + fa);
                        assert(actions_model(out@).subrange(start.len() as int, actions_model(out@).len() as int)
                            =~= before.subrange(start.len() as int, before.len() as int) + fa);
                        assert(actions_model(out@).subrange(0, start.len() as int) =~= before.subrange(0, start.len() as int));
                        match frames_actions(frames@, i + 1) {
                            Ok(rest) => {
                                assert((before.subrange(start.len() as int, before.len() as int) + fa) + rest
                                    =~= before.subrange(start.len() as int, before.len() as int) + (fa + rest));
                            },
                            Err(_) => {},
                        }
                    }
                    i = i + 1;
                },
            }
        }
    }
    proof {
        assert(actions_model(out@) =~= start + actions_model(out@).subrange(start.len() as int, actions_model(out@).len() as int));
    }
    Ok(())
}

} // verus!

verus! {

/// The actions of one transaction (see `tx_actions`).
pub fn transaction_actions(tx: &TxInput, miner: AddressKey, base: u128, out: &mut Vec<Action>) -> (r: Result<(), BlockError>)
    ensures
        match r {
            Ok(()) => tx_actions(*tx, miner, base as int) matches Ok(a) && actions_model(final(out)@) == actions_model(old(out)@) + a,
            Err(e) => tx_actions(*tx, miner, base as int) == Err::<Seq<ActionModel>, BlockError>(e),
        },
{
    let ghost start = actions_model(out@);
    match &tx.trace {
        None => {
            out.push(Action::EndTransaction);
            assert(actions_model(out@) =~= start + seq![ActionModel::EndTransaction]);
            Ok(())
        },
        Some(tr) => {
            let tip = match effective_tip(base, tx) {
                None => {
                    return Err(BlockError::FeeUnderflow);
                },
                Some(t) => t,
            };
            if tr.frames.len() == 0 {
                return Err(BlockError::EmptyTrace);
            }
            let gas_price: u128 = match tx.gas_price {
                Some(g) => g,
                None => 0,
            };
            let fee_total = match checked_mul(&tr.gas_used, &Amount::from_u128(gas_price)) {
                None => {
                    return Err(BlockError::FeeOverflow);
                },
                Some(f) => f,
            };
            let fee_miner = match checked_mul(&tr.gas_used, &Amount::from_u128(tip)) {
                None => {
                    return Err(BlockError::FeeOverflow);
                },
                Some(f) => f,
            };
            let blob_fee: u128 = match tr.blob_gas {
                None => 0,
                Some((used, price)) => match used.checked_mul(price) {
                    None => {
                        return Err(BlockError::FeeOverflow);
                    },
                    Some(b) => b,
                },
            };
            let sender_value = match checked_add(&fee_total, &Amount::from_u128(blob_fee)) {
                None => {
                    return Err(BlockError::FeeOverflow);
                },
                Some(v) => v,
            };
            let fee = Action::Transfer {
                sender: Some(tr.frames[0].from),
                recipient: miner,
                sender_value,
                recipient_value: Some(fee_miner),
            };
            let mut acts: Vec<Action> = Vec::new();
            acts.push(fee);
            assert(actions_model(acts@) =~= seq![action_model(fee)]);
            let res = depth_first_traversal(&tr.frames, &mut acts);
            match res {
                Err(e) => Err(e),
                Ok(()) => {
                    let ghost fa = frames_actions(tr.frames@, 0)->Ok_0;
                    let ghost mid = actions_model(acts@);
                    assert(mid == seq![action_model(fee)] + fa);
                    acts.push(Action::EndTransaction);
                    assert(actions_model(acts@) =~= mid.push(ActionModel::EndTransaction));
                    assert(actions_model(acts@) =~= seq![action_model(fee)] + fa.push(ActionModel::EndTransaction));
                    append_actions(out, &acts);
                    Ok(())
                },
            }
        },
    }
}

/// Appends `acts` to `out`.
fn append_actions(out: &mut Vec<Action>, acts: &Vec<Action>)
    ensures
        actions_model(final(out)@) == actions_model(old(out)@) + actions_model(acts@),
{
    let ghost start = out@;
    let mut i: usize = 0;
    while i < acts.len()
        invariant
            0 <= i <= acts.len(),
            out@ == start + acts@.take(i as int),
        decreases acts.len() - i,
    {
        out.push(acts[i]);
        assert(acts@.take(i as int + 1) =~= acts@.take(i as int).push(acts@[i as int]));
        i = i + 1;
    }
    assert(acts@.take(acts.len() as int) =~= acts@);
    assert(actions_model(out@) =~= actions_model(start) + actions_model(acts@));
}

/// Block, uncle and withdrawal rewards (see `reward_actions`).
pub fn record_reward(blk: &BlockInput, out: &mut Vec<Action>) -> (r: Result<(), BlockError>)
    ensures
        match r {
            Ok(()) => reward_actions(*blk) matches Ok(a) && actions_model(final(out)@) == actions_model(old(out)@) + a,
            Err(e) => reward_actions(*blk) == Err::<Seq<ActionModel>, BlockError>(e),
        },
{
    let ghost start = actions_model(out@);
    if blk.number < POS_BLOCK_NUMBER {
        let count = blk.uncles.len() as u128;
        assert(count <= 0xffff_ffff_ffff_ffff);
        let inclusion = STATIC_BLOCK_REWARD / 32 * count;
        let miner_reward = Action::Transfer {
            sender: None,
            recipient: blk.miner,
            sender_value: Amount::from_u128(STATIC_BLOCK_REWARD + inclusion),
            recipient_value: None,
        };
        let mut acts: Vec<Action> = Vec::new();
        let mut i: usize = 0;
        assert(blk.uncles@.take(0) =~= Seq::<UncleInput>::empty());
        assert(actions_model(acts@) =~= Seq::<ActionModel>::empty());
        while i < blk.uncles.len()
            invariant
                0 <= i <= blk.uncles.len(),
                blk.number < POS_BLOCK_NUMBER,
                uncles_actions(blk.uncles@.take(i as int), blk.number) == Ok::<Seq<ActionModel>, BlockError>(actions_model(acts@)),
            decreases blk.uncles.len() - i,
        {
            let u = blk.uncles[i];
            let ghost t1 = blk.uncles@.take(i as int + 1);
            let ghost prev = actions_model(acts@);
            assert(t1.drop_last() =~= blk.uncles@.take(i as int));
            assert(t1.last() == u);
            match u.number {
                None => {},
                Some(n) => {
                    if (n as u128) + 8 < blk.number as u128 {
                        proof {
                            assert(uncles_actions(t1, blk.number) == Err::<Seq<ActionModel>, BlockError>(BlockError::UncleTooOld));
                            lemma_uncles_error_persists(blk.uncles@, blk.number, i as int + 1);
                            assert(uncles_actions(blk.uncles@, blk.number) == Err::<Seq<ActionModel>, BlockError>(BlockError::UncleTooOld));
                            assert(blk.number < POS_BLOCK_NUMBER);
                            assert(reward_actions(*blk) == Err::<Seq<ActionModel>, BlockError>(BlockError::UncleTooOld));
                        }
                        return Err(BlockError::UncleTooOld);
                    }
                    let age = (n as u128) + 8 - (blk.number as u128);
                    let reward = age * STATIC_BLOCK_REWARD / 8;
                    let act = Action::Transfer { sender: None, recipient: u.miner, sender_value: Amount::from_u128(reward), recipient_value: None };
                    acts.push(act);
                    assert(actions_model(acts@) =~= prev.push(action_model(act)));
                },
            }
            assert(actions_model(acts@) =~= uncles_actions(t1, blk.number)->Ok_0);
            i = i + 1;
        }
        assert(blk.uncles@.take(blk.uncles.len() as int) =~= blk.uncles@);
        out.push(miner_reward);
        let ghost mid = out@;
        append_actions(out, &acts);
        assert(actions_model(mid) =~= start.push(action_model(miner_reward)));
        assert(actions_model(out@) =~= start + (seq![action_model(miner_reward)] + actions_model(acts@)));
        Ok(())
    } else {
        match &blk.withdrawals {
            None => {
                assert(actions_model(out@) =~= start + Seq::<ActionModel>::empty());
                Ok(())
            },
            Some(ws) => {
                let mut i: usize = 0;
                assert(ws@.take(0) =~= Seq::<WithdrawalInput>::empty());
                assert(start + Seq::<ActionModel>::empty() =~= start);
                while i < ws.len()
                    invariant
                        0 <= i <= ws.len(),
                        actions_model(out@) == start + withdrawals_actions(ws@.take(i as int)),
                    decreases ws.len() - i,
                {
                    let w = ws[i];
                    let ghost t1 = ws@.take(i as int + 1);
                    let ghost prev = actions_model(out@);
                    assert(t1.drop_last() =~= ws@.take(i as int));
                    assert(t1.last() == w);
                    let amount = (w.amount_gwei as u128) * WEI_PER_GWEI;
                    let act = Action::Transfer { sender: None, recipient: w.address, sender_value: Amount::from_u128(amount), recipient_value: None };
                    out.push(act);
                    assert(actions_model(out@) =~= prev.push(action_model(act)));
                    assert(actions_model(out@) =~= start + withdrawals_actions(t1));
                    i = i + 1;
                }
                assert(ws@.take(ws.len() as int) =~= ws@);
                Ok(())
            },
        }
    }
}

proof fn lemma_uncles_error_persists(u: Seq<UncleInput>, b: u64, k: int)
    requires
        1 <= k <= u.len(),
        uncles_actions(u.take(k), b) is Err,
    ensures
        uncles_actions(u, b) == uncles_actions(u.take(k), b),
    decreases u.len() - k,
{
    if k < u.len() {
        assert(u.take(k + 1).drop_last() =~= u.take(k));
        lemma_uncles_error_persists(u, b, k + 1);
    } else {
        assert(u.take(k) =~= u);
    }
}

/// All actions of a block, in order (see `block_actions_spec`).
pub fn block_actions(blk: &BlockInput) -> (r: Result<Vec<Action>, BlockError>)
    ensures
        match r {
            Ok(v) => block_actions_spec(*blk) == Ok::<Seq<ActionModel>, BlockError>(actions_model(v@)),
            Err(e) => block_actions_spec(*blk) == Err::<Seq<ActionModel>, BlockError>(e),
        },
{
    let base: u128 = match blk.base_fee_per_gas {
        Some(b) => b,
        None => 0,
    };
    let mut out: Vec<Action> = Vec::new();
    let mut i: usize = 0;
    assert(blk.transactions@.take(0) =~= Seq::<TxInput>::empty());
    assert(actions_model(out@) =~= Seq::<ActionModel>::empty());
    while i < blk.transactions.len()
        invariant
            0 <= i <= blk.transactions.len(),
            base as int == or_zero(blk.base_fee_per_gas),
            txs_actions(blk.transactions@.take(i as int), blk.miner, base as int) == Ok::<Seq<ActionModel>, BlockError>(actions_model(out@)),
        decreases blk.transactions.len() - i,
    {
        let ghost t1 = blk.transactions@.take(i as int + 1);
        assert(t1.drop_last() =~= blk.transactions@.take(i as int));
        let res = transaction_actions(&blk.transactions[i], blk.miner, base, &mut out);
        match res {
            Err(e) => {
                proof {
                    lemma_txs_error_persists(blk.transactions@, blk.miner, base as int, i as int + 1);
                }
                return Err(e);
            },
            Ok(()) => {},
        }
        i = i + 1;
    }
    assert(blk.transactions@.take(blk.transactions.len() as int) =~= blk.transactions@);
    match record_reward(blk, &mut out) {
        Err(e) => Err(e),
        Ok(()) => Ok(out),
    }
}

proof fn lemma_txs_error_persists(t: Seq<TxInput>, miner: AddressKey, base: int, k: int)
    requires
        1 <= k <= t.len(),
        txs_actions(t.take(k), miner, base) is Err,
    ensures
        txs_actions(t, miner, base) == txs_actions(t.take(k), miner, base),
    decreases t.len() - k,
{
    if k < t.len() {
        assert(t.take(k + 1).drop_last() =~= t.take(k));
        lemma_txs_error_persists(t, miner, base, k + 1);
    } else {
        assert(t.take(k) =~= t);
    }
}

} // verus!
