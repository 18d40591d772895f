use crate::address::AddressKey;
use crate::amount::{amount_bound, Amount};
use vstd::prelude::*;

verus! {

/// The first block under proof of stake.
pub const POS_BLOCK_NUMBER: u64 = 15537394;

/// The static proof-of-work block reward, 2 ether in wei.
pub const STATIC_BLOCK_REWARD: u128 = 2_000_000_000_000_000_000;

/// Wei per gwei.
pub const WEI_PER_GWEI: u128 = 1_000_000_000;

/// The kind of a call frame, as a call tracer names it.
#[derive(Clone, Copy, Debug, PartialEq, Eq)]
pub enum FrameKind {
    Call,
    DelegateCall,
    CallCode,
    StaticCall,
    SelfDestruct,
    Create,
    Other,
}

/// One frame of a transaction's call tree, in depth-first pre-order.
/// `descendants` counts the frames of its subtree that follow it.
/// `code_empty` tells, for a self-destruct, whether `from` has no code at the block.
#[derive(Clone, Copy, Debug, PartialEq, Eq)]
pub struct TraceFrame {
    pub kind: FrameKind,
    pub from: AddressKey,
    pub to: Option<AddressKey>,
    pub value: Option<Amount>,
    pub failed: bool,
    pub descendants: usize,
    pub code_empty: bool,
}

/// A successful trace of a transaction: the root frame's gas, the blob gas
/// used and its price when the transaction carries blobs, and the frames.
#[derive(Clone, Debug)]
pub struct TxTrace {
    pub gas_used: Amount,
    pub blob_gas: Option<(u128, u128)>,
    pub frames: Vec<TraceFrame>,
}

/// A transaction's fee fields and its trace; `trace` is `None` when tracing failed.
#[derive(Clone, Debug)]
pub struct TxInput {
    pub gas_price: Option<u128>,
    pub max_fee_per_gas: Option<u128>,
    pub max_priority_fee_per_gas: Option<u128>,
    pub trace: Option<TxTrace>,
}

#[derive(Clone, Copy, Debug, PartialEq, Eq)]
pub struct UncleInput {
    pub number: Option<u64>,
    pub miner: AddressKey,
}

#[derive(Clone, Copy, Debug, PartialEq, Eq)]
pub struct WithdrawalInput {
    pub address: AddressKey,
    pub amount_gwei: u64,
}

/// What the pipeline reads of a block.
#[derive(Clone, Debug)]
pub struct BlockInput {
    pub number: u64,
    pub miner: AddressKey,
    pub base_fee_per_gas: Option<u128>,
    pub transactions: Vec<TxInput>,
    pub uncles: Vec<UncleInput>,
    pub withdrawals: Option<Vec<WithdrawalInput>>,
}

/// One step of a block's value flow.
#[derive(Clone, Copy, Debug, PartialEq, Eq)]
pub enum Action {
    Transfer {
        sender: Option<AddressKey>,
        recipient: AddressKey,
        sender_value: Amount,
        recipient_value: Option<Amount>,
    },
    /// `address` self-destructed during the current transaction.
    SelfDestruct(AddressKey),
    /// The current transaction is over: every self-destructed address is wiped.
    EndTransaction,
}

/// Why a block could not be decomposed.
#[derive(Clone, Copy, Debug, PartialEq, Eq)]
pub enum BlockError {
    /// The gas price is below the base fee.
    FeeUnderflow,
    /// A fee does not fit in 256 bits.
    FeeOverflow,
    /// A successful trace has no root frame.
    EmptyTrace,
    /// A value-bearing frame has no recipient.
    MissingRecipient,
    /// An uncle is more than eight blocks older than its block.
    UncleTooOld,
}

/// An action with its amounts as numbers.
pub enum ActionModel {
    Transfer { sender: Option<AddressKey>, recipient: AddressKey, sender_value: nat, recipient_value: Option<nat> },
    SelfDestruct(AddressKey),
    EndTransaction,
}

pub open spec fn action_model(a: Action) -> ActionModel {
    match a {
        Action::Transfer { sender, recipient, sender_value, recipient_value } => ActionModel::Transfer {
            sender,
            recipient,
            sender_value: sender_value.value(),
            recipient_value: match recipient_value {
                Some(v) => Some(v.value()),
                None => None,
            },
        },
        Action::SelfDestruct(a) => ActionModel::SelfDestruct(a),
        Action::EndTransaction => ActionModel::EndTransaction,
    }
}

pub open spec fn actions_model(s: Seq<Action>) -> Seq<ActionModel> {
    s.map_values(|a: Action| action_model(a))
}

/// The priority fee per gas that reaches the miner: the declared tip when the
/// fee cap leaves room for it above the base fee, else the gas price less the
/// base fee; `None` when that is negative.
pub open spec fn tip_of(base: int, gas_price: int, max_fee: int, max_priority: Option<u128>) -> Option<int> {
    match max_priority {
        Some(t) if max_fee > t + base => Some(t as int),
        _ => if gas_price >= base {
            Some(gas_price - base)
        } else {
            None
        },
    }
}

pub open spec fn or_zero(o: Option<u128>) -> int {
    match o {
        Some(v) => v as int,
        None => 0,
    }
}

/// The index after the subtree of frame `i`, at most the end of the list.
pub open spec fn skip_subtree(f: Seq<TraceFrame>, i: int) -> int {
    if i + 1 + f[i].descendants > f.len() {
        f.len() as int
    } else {
        i + 1 + f[i].descendants
    }
}

/// The actions of the frames from index `i` on: failed frames are skipped
/// with their subtrees; frames that cannot move value only lead on to their
/// children.
pub open spec fn frames_actions(f: Seq<TraceFrame>, i: int) -> Result<Seq<ActionModel>, BlockError>
    decreases f.len() - i,
{
    if i < 0 || i >= f.len() {
        Ok(Seq::empty())
    } else if f[i].failed {
        frames_actions(f, skip_subtree(f, i))
    } else {
        match frame_actions(f[i]) {
            Err(e) => Err(e),
            Ok(head) => match frames_actions(f, i + 1) {
                Err(e) => Err(e),
                Ok(rest) => Ok(head + rest),
            },
        }
    }
}

/// The actions of one frame that did not fail.
pub open spec fn frame_actions(fr: TraceFrame) -> Result<Seq<ActionModel>, BlockError> {
    if fr.kind == FrameKind::DelegateCall || fr.kind == FrameKind::CallCode || fr.kind
        == FrameKind::StaticCall {
        Ok(Seq::empty())
    } else {
        let sd: Seq<ActionModel> = if fr.kind == FrameKind::SelfDestruct && fr.code_empty {
            seq![ActionModel::SelfDestruct(fr.from)]
        } else {
            Seq::empty()
        };
        match fr.value {
            Some(v) if v.value() > 0 => match fr.to {
                None => Err(BlockError::MissingRecipient),
                Some(to) => Ok(
                    sd.push(
                        ActionModel::Transfer {
                            sender: Some(fr.from),
                            recipient: to,
                            sender_value: v.value(),
                            recipient_value: None,
                        },
                    ),
                ),
            },
            _ => Ok(sd),
        }
    }
}

/// The actions of one transaction: nothing but the end marker when tracing
/// failed; else the fee transfer from the root sender to the miner (all of
/// the fee and blob fee leaves the sender, the tip reaches the miner), then
/// the frames' actions.
pub open spec fn tx_actions(tx: TxInput, miner: AddressKey, base: int) -> Result<Seq<ActionModel>, BlockError> {
    match tx.trace {
        None => Ok(seq![ActionModel::EndTransaction]),
        Some(tr) => match tip_of(base, or_zero(tx.gas_price), or_zero(tx.max_fee_per_gas), tx.max_priority_fee_per_gas) {
            None => Err(BlockError::FeeUnderflow),
            Some(tip) => {
                let gu = tr.gas_used.value() as int;
                let fee_total = gu * or_zero(tx.gas_price);
                let fee_miner = gu * tip;
                let blob_fee: int = match tr.blob_gas {
                    Some(b) => b.0 * b.1,
                    None => 0,
                };
                if tr.frames@.len() == 0 {
                    Err(BlockError::EmptyTrace)
                } else if fee_total >= amount_bound() || fee_miner >= amount_bound() || blob_fee
                    > u128::MAX || fee_total + blob_fee >= amount_bound() {
                    Err(BlockError::FeeOverflow)
                } else {
                    match frames_actions(tr.frames@, 0) {
                        Err(e) => Err(e),
                        Ok(fa) => Ok(
                            seq![
                                ActionModel::Transfer {
                                    sender: Some(tr.frames@[0].from),
                                    recipient: miner,
                                    sender_value: (fee_total + blob_fee) as nat,
                                    recipient_value: Some(fee_miner as nat),
                                },
                            ] + fa.push(ActionModel::EndTransaction),
                        ),
                    }
                }
            },
        },
    }
}

/// The reward of an uncle of block `b` with number `n`: `(n + 8 - b) / 8` of the static reward.
pub open spec fn uncle_reward(n: int, b: int) -> int {
    (n + 8 - b) * STATIC_BLOCK_REWARD / 8
}

pub open spec fn uncles_actions(u: Seq<UncleInput>, b: u64) -> Result<Seq<ActionModel>, BlockError>
    decreases u.len(),
{
    if u.len() == 0 {
        Ok(Seq::empty())
    } else {
        match uncles_actions(u.drop_last(), b) {
            Err(e) => Err(e),
            Ok(rest) => match u.last().number {
                None => Ok(rest),
                Some(n) => if n + 8 < b {
                    Err(BlockError::UncleTooOld)
                } else {
                    Ok(
                        rest.push(
                            ActionModel::Transfer {
                                sender: None,
                                recipient: u.last().miner,
                                sender_value: uncle_reward(n as int, b as int) as nat,
                                recipient_value: None,
                            },
                        ),
                    )
                },
            },
        }
    }
}

pub open spec fn withdrawals_actions(w: Seq<WithdrawalInput>) -> Seq<ActionModel>
    decreases w.len(),
{
    if w.len() == 0 {
        Seq::empty()
    } else {
        withdrawals_actions(w.drop_last()).push(
            ActionModel::Transfer {
                sender: None,
                recipient: w.last().address,
                sender_value: (w.last().amount_gwei * WEI_PER_GWEI) as nat,
                recipient_value: None,
            },
        )
    }
}

/// Rewards: before the merge the miner's static and uncle-inclusion reward,
/// then each uncle miner's reward; after it, each beacon withdrawal.
pub open spec fn reward_actions(blk: BlockInput) -> Result<Seq<ActionModel>, BlockError> {
    if blk.number < POS_BLOCK_NUMBER {
        let inclusion = STATIC_BLOCK_REWARD / 32 * blk.uncles@.len();
        match uncles_actions(blk.uncles@, blk.number) {
            Err(e) => Err(e),
            Ok(ua) => Ok(
                seq![
                    ActionModel::Transfer {
                        sender: None,
                        recipient: blk.miner,
                        sender_value: (STATIC_BLOCK_REWARD + inclusion) as nat,
                        recipient_value: None,
                    },
                ] + ua,
            ),
        }
    } else {
        match blk.withdrawals {
            None => Ok(Seq::empty()),
            Some(w) => Ok(withdrawals_actions(w@)),
        }
    }
}

pub open spec fn txs_actions(txs: Seq<TxInput>, miner: AddressKey, base: int) -> Result<Seq<ActionModel>, BlockError>
    decreases txs.len(),
{
    if txs.len() == 0 {
        Ok(Seq::empty())
    } else {
        match txs_actions(txs.drop_last(), miner, base) {
            Err(e) => Err(e),
            Ok(rest) => match tx_actions(txs.last(), miner, base) {
                Err(e) => Err(e),
                Ok(a) => Ok(rest + a),
            },
        }
    }
}

/// All actions of a block, in order: transactions, then rewards.
pub open spec fn block_actions_spec(blk: BlockInput) -> Result<Seq<ActionModel>, BlockError> {
    match txs_actions(blk.transactions@, blk.miner, or_zero(blk.base_fee_per_gas)) {
        Err(e) => Err(e),
        Ok(t) => match reward_actions(blk) {
            Err(e) => Err(e),
            Ok(r) => Ok(t + r),
        },
    }
}

} // verus!
