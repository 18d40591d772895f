use crate::address::AddressKey;
use crate::amount::Amount;
use crate::block::{block_actions_spec, Action, ActionModel, BlockError, BlockInput, actions_model, action_model};
use crate::cache::{keys_unique, pairs_map, Cache};
use crate::pipeline::block_actions;
use crate::recorder::{balance_map, pairs_view, transfer_result, TransferError};
use crate::score::Score;
use crate::score_db::{
    address_rows_between, block_counts, flush_current, flush_rows, last_upto, tainted_upto, ScoreDb,
    SnapshotEntry,
};
use vstd::prelude::*;

verus! {

/// Why a block was not recorded.
#[derive(Clone, Copy, Debug, PartialEq, Eq)]
pub enum PipelineError {
    Block(BlockError),
    Transfer(TransferError),
}

/// Scores of the cache, as pairs, with every address of `s` wiped to `(0, 0)`.
pub open spec fn wipe_all(m: Map<Seq<u8>, (nat, nat)>, s: Seq<AddressKey>) -> Map<Seq<u8>, (nat, nat)>
    decreases s.len(),
{
    if s.len() == 0 {
        m
    } else {
        wipe_all(m, s.drop_last()).insert(s.last()@, (0, 0))
    }
}

/// One action applied to the cache model (scores as pairs, self-destructed addresses).
pub open spec fn apply_step(
    st: (Map<Seq<u8>, (nat, nat)>, Seq<AddressKey>),
    a: ActionModel,
    current: Map<Seq<u8>, (nat, nat)>,
    balances: Map<Seq<u8>, nat>,
    sources: Seq<AddressKey>,
) -> Result<(Map<Seq<u8>, (nat, nat)>, Seq<AddressKey>), TransferError> {
    match a {
        ActionModel::Transfer { sender, recipient, sender_value, recipient_value } => match transfer_result(
            st.0,
            current,
            balances,
            sources,
            sender,
            recipient,
            sender_value,
            recipient_value,
        ) {
            Ok(m) => Ok((m, st.1)),
            Err(e) => Err(e),
        },
        ActionModel::SelfDestruct(x) => Ok((st.0, st.1.push(x))),
        ActionModel::EndTransaction => Ok((wipe_all(st.0, st.1), Seq::empty())),
    }
}

/// The actions applied in order, stopping at the first error.
pub open spec fn apply_actions_spec(
    st: (Map<Seq<u8>, (nat, nat)>, Seq<AddressKey>),
    acts: Seq<ActionModel>,
    current: Map<Seq<u8>, (nat, nat)>,
    balances: Map<Seq<u8>, nat>,
    sources: Seq<AddressKey>,
) -> Result<(Map<Seq<u8>, (nat, nat)>, Seq<AddressKey>), TransferError>
    decreases acts.len(),
{
    if acts.len() == 0 {
        Ok(st)
    } else {
        match apply_actions_spec(st, acts.drop_last(), current, balances, sources) {
            Err(e) => Err(e),
            Ok(s2) => apply_step(s2, acts.last(), current, balances, sources),
        }
    }
}

proof fn lemma_apply_error_persists(
    st: (Map<Seq<u8>, (nat, nat)>, Seq<AddressKey>),
    acts: Seq<ActionModel>,
    current: Map<Seq<u8>, (nat, nat)>,
    balances: Map<Seq<u8>, nat>,
    sources: Seq<AddressKey>,
    k: int,
)
    requires
        1 <= k <= acts.len(),
        apply_actions_spec(st, acts.take(k), current, balances, sources) is Err,
    ensures
        apply_actions_spec(st, acts, current, balances, sources) == apply_actions_spec(st, acts.take(k), current, balances, sources),
    decreases acts.len() - k,
{
    if k < acts.len() {
        assert(acts.take(k + 1).drop_last() =~= acts.take(k));
        lemma_apply_error_persists(st, acts, current, balances, sources, k + 1);
    } else {
        assert(acts.take(k) =~= acts);
    }
}

/// The engine: the store, the block cache, and the source addresses whose
/// incoming value is re-tainted.
pub struct Blockchain {
    pub score_db: ScoreDb,
    pub cache: Cache,
    pub sources: Vec<AddressKey>,
}

impl Blockchain {
    /// The store is well formed and the cache is empty, as between blocks.
    pub open spec fn wf(&self) -> bool {
        &&& self.score_db.wf()
        &&& self.cache.wf()
        &&& self.cache.data@.len() == 0
        &&& self.cache.self_destruct@.len() == 0
    }

    /// Wraps an existing store.
    pub fn load(score_db: ScoreDb, sources: Vec<AddressKey>) -> (r: Blockchain)
        requires
            score_db.wf(),
        ensures
            r.wf(),
            r.score_db == score_db,
            r.sources == sources,
    {
        Blockchain { score_db, cache: Cache::new(), sources }
    }

    /// The largest block with a snapshot, if any.
    pub fn get_last_block_number(&self) -> (r: Option<u64>)
        requires
            self.wf(),
        ensures
            r is None <==> self.score_db.snapshots@.len() == 0,
            r matches Some(b) ==> b == self.score_db.snapshots@.last().block_number,
    {
        self.score_db.get_last_block_number()
    }

    /// See `ScoreDb::get_address_latest_score`.
    pub fn get_address_latest_score(&self, address: &AddressKey) -> (r: Option<Score>)
        requires
            self.wf(),
        ensures
            r is Some <==> self.score_db.current_map().contains_key(address@),
            r matches Some(s) ==> s == self.score_db.current_map()[address@],
    {
        self.score_db.get_address_latest_score(address)
    }

    /// See `ScoreDb::get_address_score_by_block_number`.
    pub fn get_address_score_by_block_number(&self, address: &AddressKey, block_number: u64) -> (r: Option<Score>)
        requires
            self.wf(),
        ensures
            r == match last_upto(self.score_db.snapshots@, address@, block_number) {
                Some(s) => if s.bal() > 0 { Some(s) } else { None },
                None => None,
            },
    {
        self.score_db.get_address_score_by_block_number(address, block_number)
    }

    /// See `ScoreDb::get_address_max_dirty_amount`.
    pub fn get_address_max_dirty_amount(&self, address: &AddressKey) -> (r: Score)
        requires
            self.wf(),
        ensures
            r.wf(),
            forall|i: int| 0 <= i < self.score_db.snapshots@.len() && #[trigger] self.score_db.snapshots@[i].address@ == address@
                ==> self.score_db.snapshots@[i].score.dirt() <= r.dirt(),
            r.dirt() == 0 && r.bal() == 0 || exists|i: int| 0 <= i < self.score_db.snapshots@.len()
                && #[trigger] self.score_db.snapshots@[i].address@ == address@ && self.score_db.snapshots@[i].score == r,
    {
        self.score_db.get_address_max_dirty_amount(address)
    }

    /// See `ScoreDb::export_tainted_addresses_until_block_number`.
    pub fn export_tainted_addresses_until_block_number(&self, block_number: u64) -> (r: Vec<(AddressKey, Score)>)
        requires
            self.wf(),
        ensures
            keys_unique(r@),
            pairs_map(r@) == tainted_upto(self.score_db.snapshots@, block_number),
    {
        self.score_db.export_tainted_addresses_until_block_number(block_number)
    }

    /// See `ScoreDb::export_historical_amount_of_tainted_addresses`.
    pub fn export_historical_amount_of_tainted_addresses(&self) -> (r: Vec<(u64, usize)>)
        ensures
            r@ == block_counts(self.score_db.snapshots@),
    {
        self.score_db.export_historical_amount_of_tainted_addresses()
    }

    /// See `ScoreDb::export_address_historical_score_between_block_range`.
    pub fn export_address_historical_score_between_block_range(
        &self,
        address: &AddressKey,
        from_block: u64,
        to_block: u64,
    ) -> (r: Vec<SnapshotEntry>)
        ensures
            r@ == address_rows_between(self.score_db.snapshots@, address@, from_block, to_block),
    {
        self.score_db.export_address_historical_score_between_block_range(address, from_block, to_block)
    }

    /// See `ScoreDb::record_numbers`.
    pub fn print_record_number(&self) -> (r: (usize, usize, usize))
        ensures
            r.0 == self.score_db.current@.len() && r.1 == self.score_db.snapshots@.len() && r.2 == self.score_db.history@.len(),
    {
        self.score_db.record_numbers()
    }

    fn wipe_self_destructed(&mut self)
        requires
            old(self).cache.wf(),
        ensures
            final(self).cache.wf(),
            final(self).cache.self_destruct@.len() == 0,
            pairs_view(final(self).cache.view_data()) == wipe_all(pairs_view(old(self).cache.view_data()), old(self).cache.self_destruct@),
            final(self).score_db == old(self).score_db,
            final(self).sources == old(self).sources,
    {
        let ghost m0 = pairs_view(self.cache.view_data());
        let wiped = self.cache.drain_self_destruct();
        let mut i: usize = 0;
        assert(wiped@.take(0) =~= Seq::<AddressKey>::empty());
        while i < wiped.len()
            invariant
                0 <= i <= wiped.len(),
                self.cache.wf(),
                self.cache.self_destruct@.len() == 0,
                pairs_view(self.cache.view_data()) == wipe_all(m0, wiped@.take(i as int)),
                self.score_db == old(self).score_db,
                self.sources == old(self).sources,
            decreases wiped.len() - i,
        {
            let ghost t1 = wiped@.take(i as int + 1);
            assert(t1.drop_last() =~= wiped@.take(i as int));
            let ghost before = pairs_view(self.cache.view_data());
            let zero = Score::new_clean(Amount::zero());
            self.cache.insert_data(wiped[i], zero);
            assert(pairs_view(self.cache.view_data()) =~= before.insert(wiped@[i as int]@, (0, 0)));
            i = i + 1;
        }
        assert(wiped@.take(wiped.len() as int) =~= wiped@);
    }

    fn apply_action(&mut self, a: &Action, balances: &Vec<(AddressKey, Amount)>) -> (r: Result<(), TransferError>)
        requires
            old(self).score_db.wf(),
            old(self).cache.wf(),
        ensures
            final(self).score_db == old(self).score_db,
            final(self).sources == old(self).sources,
            final(self).cache.wf(),
            r is Ok ==> apply_step(
                (pairs_view(old(self).cache.view_data()), old(self).cache.self_destruct@),
                action_model(*a),
                pairs_view(old(self).score_db.current_map()),
                balance_map(balances@),
                old(self).sources@,
            ) == Ok::<(Map<Seq<u8>, (nat, nat)>, Seq<AddressKey>), TransferError>(
                (pairs_view(final(self).cache.view_data()), final(self).cache.self_destruct@),
            ),
            r is Err ==> apply_step(
                (pairs_view(old(self).cache.view_data()), old(self).cache.self_destruct@),
                action_model(*a),
                pairs_view(old(self).score_db.current_map()),
                balance_map(balances@),
                old(self).sources@,
            ) == Err::<(Map<Seq<u8>, (nat, nat)>, Seq<AddressKey>), TransferError>(r->Err_0),
    {
        match a {
            Action::Transfer { sender, recipient, sender_value, recipient_value } => {
                let ghost am = action_model(*a);
                assert(am == ActionModel::Transfer {
                    sender: *sender,
                    recipient: *recipient,
                    sender_value: sender_value.value(),
                    recipient_value: crate::recorder::opt_value(*recipient_value),
                });
                self.score_db.record_transfer(
                    &mut self.cache,
                    balances,
                    &self.sources,
                    *sender,
                    *recipient,
                    *sender_value,
                    *recipient_value,
                )
            },
            Action::SelfDestruct(x) => {
                self.cache.insert_self_destruct(*x);
                Ok(())
            },
            Action::EndTransaction => {
                self.wipe_self_destructed();
                assert(self.cache.self_destruct@ =~= Seq::<AddressKey>::empty());
                Ok(())
            },
        }
    }

    /// Applies the actions in order to the cache, stopping at the first error.
    #[verifier::rlimit(50)]
    pub fn apply_actions(&mut self, acts: &Vec<Action>, balances: &Vec<(AddressKey, Amount)>) -> (r: Result<(), TransferError>)
        requires
            old(self).score_db.wf(),
            old(self).cache.wf(),
        ensures
            final(self).score_db == old(self).score_db,
            final(self).sources == old(self).sources,
            final(self).cache.wf(),
            r is Ok ==> apply_actions_spec(
                (pairs_view(old(self).cache.view_data()), old(self).cache.self_destruct@),
                actions_model(acts@),
                pairs_view(old(self).score_db.current_map()),
                balance_map(balances@),
                old(self).sources@,
            ) == Ok::<(Map<Seq<u8>, (nat, nat)>, Seq<AddressKey>), TransferError>(
                (pairs_view(final(self).cache.view_data()), final(self).cache.self_destruct@),
            ),
            r is Err ==> apply_actions_spec(
                (pairs_view(old(self).cache.view_data()), old(self).cache.self_destruct@),
                actions_model(acts@),
                pairs_view(old(self).score_db.current_map()),
                balance_map(balances@),
                old(self).sources@,
            ) == Err::<(Map<Seq<u8>, (nat, nat)>, Seq<AddressKey>), TransferError>(r->Err_0),
    {
        let ghost st0 = (pairs_view(self.cache.view_data()), self.cache.self_destruct@);
        let ghost am = actions_model(acts@);
        let mut i: usize = 0;
        assert(am.take(0) =~= Seq::<ActionModel>::empty());
        while i < acts.len()
            invariant
                0 <= i <= acts.len(),
                am == actions_model(acts@),
                st0 == (pairs_view(old(self).cache.view_data()), old(self).cache.self_destruct@),
                self.score_db == old(self).score_db,
                self.score_db.wf(),
                self.sources == old(self).sources,
                self.cache.wf(),
                apply_actions_spec(st0, am.take(i as int), pairs_view(old(self).score_db.current_map()), balance_map(balances@), old(self).sources@) == Ok::<_, TransferError>(
                    (pairs_view(self.cache.view_data()), self.cache.self_destruct@),
                ),
            decreases acts.len() - i,
        {
            assert(am.take(i as int + 1).drop_last() =~= am.take(i as int));
            assert(am.take(i as int + 1).last() == action_model(acts@[i as int]));
            let ghost prev = (pairs_view(self.cache.view_data()), self.cache.self_destruct@);
            assert(am[i as int] == action_model(acts@[i as int]));
            let res = self.apply_action(&acts[i], balances);
            match res {
                Err(e) => {
                    proof {
                        assert(apply_step(prev, action_model(acts@[i as int]), pairs_view(old(self).score_db.current_map()), balance_map(balances@), old(self).sources@) == Err::<(Map<Seq<u8>, (nat, nat)>, Seq<AddressKey>), TransferError>(e));
                        let t1 = am.take(i as int + 1);
                        assert(t1.drop_last() == am.take(i as int));
                        assert(t1.last() == action_model(acts@[i as int]));
                        assert(apply_actions_spec(st0, t1.drop_last(), pairs_view(old(self).score_db.current_map()), balance_map(balances@), old(self).sources@) == Ok::<(Map<Seq<u8>, (nat, nat)>, Seq<AddressKey>), TransferError>(prev));
                        assert(apply_actions_spec(st0, t1, pairs_view(old(self).score_db.current_map()), balance_map(balances@), old(self).sources@) == Err::<(Map<Seq<u8>, (nat, nat)>, Seq<AddressKey>), TransferError>(e));
                        lemma_apply_error_persists(st0, am, pairs_view(old(self).score_db.current_map()), balance_map(balances@), old(self).sources@, i as int + 1);
                        assert(apply_actions_spec(st0, am, pairs_view(old(self).score_db.current_map()), balance_map(balances@), old(self).sources@) == Err::<(Map<Seq<u8>, (nat, nat)>, Seq<AddressKey>), TransferError>(e));
                        assert(st0 == (pairs_view(old(self).cache.view_data()), old(self).cache.self_destruct@));
                        assert(am == actions_model(acts@));
                    }
                    return Err(e);
                },
                Ok(()) => {},
            }
            i = i + 1;
        }
        assert(am.take(acts.len() as int) =~= am);
        Ok(())
    }

    /// Records one block atomically: its actions are applied to the cache, and
    /// only when all succeed is the cache flushed into the store.  On an error
    /// the store is left as it was and the cache is emptied.
    pub fn record_block(&mut self, blk: &BlockInput, balances: &Vec<(AddressKey, Amount)>) -> (r: Result<(), PipelineError>)
        requires
            old(self).wf(),
            old(self).score_db.all_before(blk.number),
        ensures
            final(self).wf(),
            final(self).sources == old(self).sources,
            match r {
                Ok(()) => block_actions_spec(*blk) matches Ok(acts) && apply_actions_spec(
                    (Map::empty(), Seq::empty()),
                    acts,
                    pairs_view(old(self).score_db.current_map()),
                    balance_map(balances@),
                    old(self).sources@,
                ) matches Ok(st) && exists|d: Seq<(AddressKey, Score)>|
                    keys_unique(d) && pairs_view(pairs_map(d)) == st.0
                    && final(self).score_db.snapshots@ == old(self).score_db.snapshots@ + flush_rows(
                        old(self).score_db.current_map(),
                        d,
                        blk.number,
                    ) && final(self).score_db.current_map() == flush_current(old(self).score_db.current_map(), d),
                Err(PipelineError::Block(e)) => block_actions_spec(*blk) == Err::<Seq<ActionModel>, BlockError>(e)
                    && final(self).score_db == old(self).score_db,
                Err(PipelineError::Transfer(e)) => block_actions_spec(*blk) matches Ok(acts) && apply_actions_spec(
                    (Map::empty(), Seq::empty()),
                    acts,
                    pairs_view(old(self).score_db.current_map()),
                    balance_map(balances@),
                    old(self).sources@,
                ) == Err::<(Map<Seq<u8>, (nat, nat)>, Seq<AddressKey>), TransferError>(e)
                    && final(self).score_db == old(self).score_db,
            },
    {
        assert(pairs_view(self.cache.view_data()) =~= Map::empty());
        assert(self.cache.self_destruct@ =~= Seq::<AddressKey>::empty());
        let acts = match block_actions(blk) {
            Err(e) => {
                return Err(PipelineError::Block(e));
            },
            Ok(a) => a,
        };
        let res = self.apply_actions(&acts, balances);
        let drained = self.cache.drain_data();
        let _ = self.cache.drain_self_destruct();
        match res {
            Err(e) => Err(PipelineError::Transfer(e)),
            Ok(()) => {
                self.score_db.flush_cache(&drained, blk.number);
                assert(keys_unique(drained@));
                Ok(())
            },
        }
    }

    /// Starts afresh at block `block_number`: the tables are cleared and each
    /// source is recorded as fully dirty with its balance at that block
    /// (`source_balances[i]` is the balance of `sources[i]`).
    pub fn init_new(sources: Vec<AddressKey>, source_balances: &Vec<Amount>, block_number: u64) -> (r: Blockchain)
        requires
            source_balances.len() == sources.len(),
        ensures
            r.wf(),
            r.sources == sources,
            exists|d: Seq<(AddressKey, Score)>|
                keys_unique(d) && pairs_map(d) == seed_map(sources@, source_balances@)
                && r.score_db.snapshots@ == flush_rows(Map::empty(), d, block_number)
                && r.score_db.current_map() == flush_current(Map::empty(), d),
    {
        let mut score_db = ScoreDb::new();
        score_db.clear();
        let mut cache = Cache::new();
        let mut i: usize = 0;
        assert(sources@.take(0) =~= Seq::<AddressKey>::empty());
        while i < sources.len()
            invariant
                0 <= i <= sources.len(),
                source_balances.len() == sources.len(),
                cache.wf(),
                cache.self_destruct@.len() == 0,
                cache.view_data() == seed_map(sources@.take(i as int), source_balances@.take(i as int)),
            decreases sources.len() - i,
        {
            assert(sources@.take(i as int + 1).drop_last() =~= sources@.take(i as int));
            assert(source_balances@.take(i as int + 1).drop_last() =~= source_balances@.take(i as int));
            cache.insert_data(sources[i], Score::new_dirty(source_balances[i]));
            i = i + 1;
        }
        assert(sources@.take(sources.len() as int) =~= sources@);
        assert(source_balances@.take(sources.len() as int) =~= source_balances@);
        let drained = cache.drain_data();
        assert(score_db.current_map() =~= Map::empty());
        score_db.flush_cache(&drained, block_number);
        Blockchain { score_db, cache, sources }
    }
}

/// Each source with a fully dirty score of its balance; a later entry for the
/// same address wins.
pub open spec fn seed_map(sources: Seq<AddressKey>, balances: Seq<Amount>) -> Map<Seq<u8>, Score>
    decreases sources.len(),
{
    if sources.len() == 0 || balances.len() != sources.len() {
        Map::empty()
    } else {
        seed_map(sources.drop_last(), balances.drop_last()).insert(
            sources.last()@,
            Score { balance: balances.last(), dirty_amount: balances.last() },
        )
    }
}

} // verus!
