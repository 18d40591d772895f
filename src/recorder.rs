use crate::address::{contains_key, key_in, AddressKey};
use crate::amount::{amount_bound, amount_le, Amount};
use crate::cache::Cache;
use crate::score::{transfer_part, Score};
use crate::score_db::ScoreDb;
use vstd::prelude::*;

verus! {

/// Why a transfer could not be applied.
#[derive(Clone, Copy, Debug, PartialEq, Eq)]
pub enum TransferError {
    /// No prior score is known and no chain balance was supplied for this address.
    MissingBalance(AddressKey),
    /// The sender holds less than it sends.
    Insolvent,
    /// More is received than was sent.
    ReceiveExceedsSend,
    /// The recipient's balance would not fit in 256 bits.
    Overflow,
}

/// A score as the pair `(balance, dirty_amount)`.
pub open spec fn pair_of(s: Score) -> (nat, nat) {
    (s.bal(), s.dirt())
}

pub open spec fn opt_pair(o: Option<Score>) -> Option<(nat, nat)> {
    match o {
        Some(s) => Some(pair_of(s)),
        None => None,
    }
}

pub open spec fn opt_value(o: Option<Amount>) -> Option<nat> {
    match o {
        Some(v) => Some(v.value()),
        None => None,
    }
}

pub open spec fn pairs_view(m: Map<Seq<u8>, Score>) -> Map<Seq<u8>, (nat, nat)> {
    m.map_values(|s: Score| pair_of(s))
}

/// Chain balances by address; a later entry for the same address wins.
pub open spec fn balance_map(s: Seq<(AddressKey, Amount)>) -> Map<Seq<u8>, nat>
    decreases s.len(),
{
    if s.len() == 0 {
        Map::empty()
    } else {
        balance_map(s.drop_last()).insert(s.last().0@, s.last().1.value())
    }
}

/// The prior score of `a`: from the cache, else from the current-dirty table,
/// else clean with its chain balance.
pub open spec fn prior_pair(
    cache: Map<Seq<u8>, (nat, nat)>,
    current: Map<Seq<u8>, (nat, nat)>,
    balances: Map<Seq<u8>, nat>,
    a: Seq<u8>,
) -> Option<(nat, nat)> {
    if cache.contains_key(a) {
        Some(cache[a])
    } else if current.contains_key(a) {
        Some(current[a])
    } else if balances.contains_key(a) {
        Some((balances[a], 0))
    } else {
        None
    }
}

/// Crediting `ts` to the recipient, re-tainted in full when it is a source.
pub open spec fn credit_step(
    cache: Map<Seq<u8>, (nat, nat)>,
    current: Map<Seq<u8>, (nat, nat)>,
    balances: Map<Seq<u8>, nat>,
    sources: Seq<AddressKey>,
    recipient: AddressKey,
    ts: (nat, nat),
) -> Result<Map<Seq<u8>, (nat, nat)>, TransferError> {
    let ts2 = if key_in(sources, recipient@) {
        (ts.0, ts.0)
    } else {
        ts
    };
    match prior_pair(cache, current, balances, recipient@) {
        None => Err(TransferError::MissingBalance(recipient)),
        Some(p) => if p.0 + ts2.0 >= amount_bound() {
            Err(TransferError::Overflow)
        } else {
            Ok(cache.insert(recipient@, (p.0 + ts2.0, p.1 + ts2.1)))
        },
    }
}

/// Rebasing the transferred score on what the recipient receives, then crediting it.
pub open spec fn receive_step(
    cache: Map<Seq<u8>, (nat, nat)>,
    current: Map<Seq<u8>, (nat, nat)>,
    balances: Map<Seq<u8>, nat>,
    sources: Seq<AddressKey>,
    recipient: AddressKey,
    ts: (nat, nat),
    recipient_value: Option<nat>,
) -> Result<Map<Seq<u8>, (nat, nat)>, TransferError> {
    match recipient_value {
        None => credit_step(cache, current, balances, sources, recipient, ts),
        Some(v2) => if v2 > ts.0 {
            Err(TransferError::ReceiveExceedsSend)
        } else {
            credit_step(cache, current, balances, sources, recipient, transfer_part(v2, ts.0, ts.1))
        },
    }
}

/// The cache, as pairs, after one transfer; or the error it stops on.
pub open spec fn transfer_result(
    cache: Map<Seq<u8>, (nat, nat)>,
    current: Map<Seq<u8>, (nat, nat)>,
    balances: Map<Seq<u8>, nat>,
    sources: Seq<AddressKey>,
    sender: Option<AddressKey>,
    recipient: AddressKey,
    sender_value: nat,
    recipient_value: Option<nat>,
) -> Result<Map<Seq<u8>, (nat, nat)>, TransferError> {
    match sender {
        None => receive_step(cache, current, balances, sources, recipient, (sender_value, 0), recipient_value),
        Some(s) => match prior_pair(cache, current, balances, s@) {
            None => Err(TransferError::MissingBalance(s)),
            Some(p) => if sender_value > p.0 {
                Err(TransferError::Insolvent)
            } else {
                let ts = transfer_part(sender_value, p.0, p.1);
                receive_step(
                    cache.insert(s@, ((p.0 - sender_value) as nat, (p.1 - ts.1) as nat)),
                    current,
                    balances,
                    sources,
                    recipient,
                    ts,
                    recipient_value,
                )
            },
        },
    }
}

/// The balance supplied for `a`, the last one when several are.
pub fn find_balance(balances: &Vec<(AddressKey, Amount)>, a: &AddressKey) -> (r: Option<Amount>)
    ensures
        r is Some <==> balance_map(balances@).contains_key(a@),
        r matches Some(v) ==> v.value() == balance_map(balances@)[a@],
{
    let mut i: usize = balances.len();
    assert(balances@.take(i as int) =~= balances@);
    while i > 0
        invariant
            0 <= i <= balances.len(),
            forall|j: int| i <= j < balances.len() ==> balances@[j].0@ != a@,
            balance_map(balances@).contains_key(a@) == balance_map(balances@.take(i as int)).contains_key(a@),
            balance_map(balances@.take(i as int)).contains_key(a@) ==> balance_map(balances@)[a@]
                == balance_map(balances@.take(i as int))[a@],
        decreases i,
    {
        let ghost t = balances@.take(i as int);
        assert(t.drop_last() =~= balances@.take(i as int - 1));
        i = i - 1;
        if balances[i].0.same(a) {
            return Some(balances[i].1);
        }
    }
    None
}

impl ScoreDb {
    /// The prior score of `address` (cache, then current-dirty table, then the
    /// supplied chain balance, clean).
    pub fn get_score(&self, cache: &Cache, balances: &Vec<(AddressKey, Amount)>, address: &AddressKey) -> (r: Option<Score>)
        requires
            self.wf(),
            cache.wf(),
        ensures
            prior_pair(pairs_view(cache.view_data()), pairs_view(self.current_map()), balance_map(balances@), address@)
                == opt_pair(r),
            r matches Some(s) ==> s.wf(),
    {
        match cache.get_data(address) {
            Some(s) => Some(s),
            None => match self.get_current(address) {
                Some(s) => Some(s),
                None => match find_balance(balances, address) {
                    Some(b) => Some(Score::new_clean(b)),
                    None => None,
                },
            },
        }
    }

    fn update_recipient_state(
        &self,
        cache: &mut Cache,
        balances: &Vec<(AddressKey, Amount)>,
        sources: &Vec<AddressKey>,
        recipient: AddressKey,
        transfer_score: Score,
    ) -> (r: Result<(), TransferError>)
        requires
            self.wf(),
            old(cache).wf(),
            transfer_score.wf(),
        ensures
            final(cache).wf(),
            final(cache).self_destruct == old(cache).self_destruct,
            credit_step(
                pairs_view(old(cache).view_data()),
                pairs_view(self.current_map()),
                balance_map(balances@),
                sources@,
                recipient,
                pair_of(transfer_score),
            ) matches Ok(m) ==> r is Ok && pairs_view(final(cache).view_data()) == m,
            credit_step(
                pairs_view(old(cache).view_data()),
                pairs_view(self.current_map()),
                balance_map(balances@),
                sources@,
                recipient,
                pair_of(transfer_score),
            ) matches Err(e) ==> r == Err::<(), TransferError>(e),
    {
        let ts = if contains_key(sources, &recipient) {
            transfer_score.as_dirty()
        } else {
            transfer_score
        };
        match self.get_score(cache, balances, &recipient) {
            None => Err(TransferError::MissingBalance(recipient)),
            Some(prior) => match prior.checked_add(&ts) {
                None => Err(TransferError::Overflow),
                Some(post) => {
                    cache.insert_data(recipient, post);
                    assert(pairs_view(cache.view_data()) =~= pairs_view(old(cache).view_data()).insert(
                        recipient@,
                        pair_of(post),
                    ));
                    Ok(())
                },
            },
        }
    }

    /// Applies one directed value transfer to the cache.  `sender` is `None`
    /// for newly issued value (rewards, withdrawals); `recipient_value`, when
    /// given, is the part of `sender_value` that arrives, the rest being burned.
    /// `balances` holds chain balances, before the block, of addresses that
    /// may have no prior score; `sources` are the addresses whose incoming
    /// value is fully re-tainted.
    pub fn record_transfer(
        &self,
        cache: &mut Cache,
        balances: &Vec<(AddressKey, Amount)>,
        sources: &Vec<AddressKey>,
        sender: Option<AddressKey>,
        recipient: AddressKey,
        sender_value: Amount,
        recipient_value: Option<Amount>,
    ) -> (r: Result<(), TransferError>)
        requires
            self.wf(),
            old(cache).wf(),
        ensures
            final(cache).wf(),
            final(cache).self_destruct == old(cache).self_destruct,
            transfer_result(
                pairs_view(old(cache).view_data()),
                pairs_view(self.current_map()),
                balance_map(balances@),
                sources@,
                sender,
                recipient,
                sender_value.value(),
                opt_value(recipient_value),
            ) matches Ok(m) ==> r is Ok && pairs_view(final(cache).view_data()) == m,
            transfer_result(
                pairs_view(old(cache).view_data()),
                pairs_view(self.current_map()),
                balance_map(balances@),
                sources@,
                sender,
                recipient,
                sender_value.value(),
                opt_value(recipient_value),
            ) matches Err(e) ==> r == Err::<(), TransferError>(e),
    {
        let ts = match sender {
            None => Score::new_clean(sender_value),
            Some(s) => match self.get_score(cache, balances, &s) {
                None => {
                    return Err(TransferError::MissingBalance(s));
                },
                Some(prior) => {
                    if !amount_le(&sender_value, &prior.balance) {
                        return Err(TransferError::Insolvent);
                    }
                    let part = split_or_clean(sender_value, &prior);
                    proof {
                        if prior.bal() > 0 {
                            crate::score::lemma_split_bounds(sender_value.value(), prior.bal(), prior.dirt());
                        }
                    }
                    let post = prior.sub(&part);
                    cache.insert_data(s, post);
                    assert(pairs_view(cache.view_data()) =~= pairs_view(old(cache).view_data()).insert(
                        s@,
                        pair_of(post),
                    ));
                    part
                },
            },
        };
        match recipient_value {
            None => self.update_recipient_state(cache, balances, sources, recipient, ts),
            Some(v2) => {
                if !amount_le(&v2, &ts.balance) {
                    return Err(TransferError::ReceiveExceedsSend);
                }
                let rebased = split_or_clean(v2, &ts);
                self.update_recipient_state(cache, balances, sources, recipient, rebased)
            },
        }
    }
}

/// `transfer_part` on amounts: a proportional split with ceiling, clean when
/// the holding is empty.
pub fn split_or_clean(v: Amount, holding: &Score) -> (r: Score)
    requires
        holding.wf(),
    ensures
        r.balance == v,
        pair_of(r) == transfer_part(v.value(), holding.bal(), holding.dirt()),
        r.wf(),
{
    if holding.balance.is_zero() {
        Score::new_clean(v)
    } else {
        Score::with_same_uncleanliness_ceil(v, holding)
    }
}

} // verus!
