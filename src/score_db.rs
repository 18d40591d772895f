use crate::address::AddressKey;
use crate::cache::{
    all_wf, find_pair, keys_unique, lemma_pairs_map_wf, pairs_map, put_pair, remove_pair,
};
use crate::score::Score;
use vstd::prelude::*;

verus! {

/// The post-block score of an address at a block where it was recorded.
#[derive(Clone, Copy, Debug, PartialEq, Eq)]
pub struct SnapshotEntry {
    pub block_number: u64,
    pub address: AddressKey,
    pub score: Score,
}

/// The score of the last snapshot of `a`, if any.
pub open spec fn last_for(s: Seq<SnapshotEntry>, a: Seq<u8>) -> Option<Score>
    decreases s.len(),
{
    if s.len() == 0 {
        None
    } else if s.last().address@ == a {
        Some(s.last().score)
    } else {
        last_for(s.drop_last(), a)
    }
}

/// The score of the last snapshot of `a` at a block not after `b`, if any.
pub open spec fn last_upto(s: Seq<SnapshotEntry>, a: Seq<u8>, b: u64) -> Option<Score>
    decreases s.len(),
{
    if s.len() == 0 {
        None
    } else if s.last().address@ == a && s.last().block_number <= b {
        Some(s.last().score)
    } else {
        last_upto(s.drop_last(), a, b)
    }
}

/// The snapshots of blocks `lo..=hi`, in order.
pub open spec fn rows_between(s: Seq<SnapshotEntry>, lo: u64, hi: u64) -> Seq<SnapshotEntry>
    decreases s.len(),
{
    if s.len() == 0 {
        Seq::empty()
    } else if lo <= s.last().block_number <= hi {
        rows_between(s.drop_last(), lo, hi).push(s.last())
    } else {
        rows_between(s.drop_last(), lo, hi)
    }
}

/// The last score of each address among the snapshots of blocks up to `b`,
/// kept only when it is dirty.
pub open spec fn tainted_upto(s: Seq<SnapshotEntry>, b: u64) -> Map<Seq<u8>, Score>
    decreases s.len(),
{
    if s.len() == 0 {
        Map::empty()
    } else {
        let m = tainted_upto(s.drop_last(), b);
        if s.last().block_number > b {
            m
        } else if s.last().score.dirt() > 0 {
            m.insert(s.last().address@, s.last().score)
        } else {
            m.remove(s.last().address@)
        }
    }
}

/// For each block with snapshots, in order, how many snapshots it has.
pub open spec fn block_counts(s: Seq<SnapshotEntry>) -> Seq<(u64, usize)>
    decreases s.len(),
{
    if s.len() == 0 {
        Seq::empty()
    } else {
        let c = block_counts(s.drop_last());
        if c.len() > 0 && c.last().0 == s.last().block_number {
            c.update(c.len() - 1, (c.last().0, (c.last().1 + 1) as usize))
        } else {
            c.push((s.last().block_number, 1usize))
        }
    }
}

proof fn lemma_block_counts_bounded(s: Seq<SnapshotEntry>)
    ensures
        block_counts(s).len() <= s.len(),
        block_counts(s).len() > 0 ==> block_counts(s).last().1 <= s.len(),
        s.len() > 0 ==> block_counts(s).len() > 0,
    decreases s.len(),
{
    if s.len() > 0 {
        lemma_block_counts_bounded(s.drop_last());
    }
}

/// The snapshots of address `a` at blocks `lo..=hi`, in order.
pub open spec fn address_rows_between(s: Seq<SnapshotEntry>, a: Seq<u8>, lo: u64, hi: u64) -> Seq<SnapshotEntry>
    decreases s.len(),
{
    if s.len() == 0 {
        Seq::empty()
    } else if s.last().address@ == a && lo <= s.last().block_number <= hi {
        address_rows_between(s.drop_last(), a, lo, hi).push(s.last())
    } else {
        address_rows_between(s.drop_last(), a, lo, hi)
    }
}

/// Whether the flush of a block writes a snapshot for the drained pair `e`,
/// given the current-dirty table `prior` before the block: it does when the
/// address was dirty before or is dirty now.
pub open spec fn is_recorded(prior: Map<Seq<u8>, Score>, e: (AddressKey, Score)) -> bool {
    prior.contains_key(e.0@) || e.1.dirt() > 0
}

/// The snapshots that a flush of `d` at block `b` appends, in order.
pub open spec fn flush_rows(prior: Map<Seq<u8>, Score>, d: Seq<(AddressKey, Score)>, b: u64) -> Seq<
    SnapshotEntry,
>
    decreases d.len(),
{
    if d.len() == 0 {
        Seq::empty()
    } else {
        let rest = flush_rows(prior, d.drop_last(), b);
        if is_recorded(prior, d.last()) {
            rest.push(SnapshotEntry { block_number: b, address: d.last().0, score: d.last().1 })
        } else {
            rest
        }
    }
}

/// The current-dirty table after a flush of `d`: dirty scores are set, clean
/// ones removed.
pub open spec fn flush_current(prior: Map<Seq<u8>, Score>, d: Seq<(AddressKey, Score)>) -> Map<
    Seq<u8>,
    Score,
>
    decreases d.len(),
{
    if d.len() == 0 {
        prior
    } else {
        let m = flush_current(prior, d.drop_last());
        if d.last().1.dirt() > 0 {
            m.insert(d.last().0@, d.last().1)
        } else {
            m.remove(d.last().0@)
        }
    }
}

proof fn lemma_flush_current_other(prior: Map<Seq<u8>, Score>, d: Seq<(AddressKey, Score)>, a: Seq<u8>)
    requires
        forall|j: int| 0 <= j < d.len() ==> d[j].0@ != a,
    ensures
        flush_current(prior, d).contains_key(a) == prior.contains_key(a),
        prior.contains_key(a) ==> flush_current(prior, d)[a] == prior[a],
    decreases d.len(),
{
    if d.len() > 0 {
        lemma_flush_current_other(prior, d.drop_last(), a);
    }
}

proof fn lemma_flush_rows_shape(prior: Map<Seq<u8>, Score>, d: Seq<(AddressKey, Score)>, b: u64, i: int)
    requires
        0 <= i < flush_rows(prior, d, b).len(),
    ensures
        flush_rows(prior, d, b)[i].block_number == b,
        exists|j: int| 0 <= j < d.len() && #[trigger] d[j].0@ == flush_rows(prior, d, b)[i].address@,
    decreases d.len(),
{
    let rest = flush_rows(prior, d.drop_last(), b);
    if i < rest.len() {
        lemma_flush_rows_shape(prior, d.drop_last(), b, i);
        let j = choose|j: int| 0 <= j < d.drop_last().len() && #[trigger] d.drop_last()[j].0@ == rest[i].address@;
        assert(d[j] == d.drop_last()[j]);
    } else {
        assert(d[d.len() - 1].0@ == flush_rows(prior, d, b)[i].address@);
    }
}

/// The three tables: current dirty scores, per-block snapshots in write
/// order, and the per-address change index, one entry per snapshot.
pub struct ScoreDb {
    pub current: Vec<(AddressKey, Score)>,
    pub snapshots: Vec<SnapshotEntry>,
    pub history: Vec<(AddressKey, u64)>,
}

impl ScoreDb {
    pub open spec fn current_map(&self) -> Map<Seq<u8>, Score> {
        pairs_map(self.current@)
    }

    /// Every score in the tables satisfies `dirty_amount <= balance`.
    pub open spec fn taint_bounded(&self) -> bool {
        &&& all_wf(self.current@)
        &&& forall|i: int| 0 <= i < self.snapshots@.len() ==> (#[trigger] self.snapshots@[i]).score.wf()
    }

    /// Each history entry names the block and address of a snapshot.
    pub open spec fn history_matches(&self) -> bool {
        &&& self.history@.len() == self.snapshots@.len()
        &&& forall|i: int|
            0 <= i < self.history@.len() ==> (#[trigger] self.history@[i]).0 == self.snapshots@[i].address
                && self.history@[i].1 == self.snapshots@[i].block_number
    }

    /// Snapshots come in block order, and the blocks of one address strictly increase.
    pub open spec fn ordered(&self) -> bool {
        &&& forall|i: int, j: int|
            0 <= i < j < self.snapshots@.len() ==> self.snapshots@[i].block_number
                <= self.snapshots@[j].block_number
        &&& forall|i: int, j: int|
            0 <= i < j < self.snapshots@.len() && self.snapshots@[i].address@
                == self.snapshots@[j].address@ ==> self.snapshots@[i].block_number
                < self.snapshots@[j].block_number
    }

    /// An address is in the current-dirty table exactly when its last snapshot
    /// is dirty, and then with that score.
    pub open spec fn current_agrees(&self) -> bool {
        &&& keys_unique(self.current@)
        &&& forall|a: Seq<u8>|
            #![trigger self.current_map().contains_key(a)]
            #![trigger last_for(self.snapshots@, a)]
            self.current_map().contains_key(a) <==> (last_for(self.snapshots@, a) matches Some(s)
                && s.dirt() > 0)
        &&& forall|a: Seq<u8>|
            #![trigger self.current_map().contains_key(a)]
            self.current_map().contains_key(a) ==> last_for(self.snapshots@, a) == Some(
                self.current_map()[a],
            )
    }

    pub open spec fn wf(&self) -> bool {
        &&& self.taint_bounded()
        &&& self.history_matches()
        &&& self.ordered()
        &&& self.current_agrees()
    }

    /// Every snapshot is of a block before `b`.
    pub open spec fn all_before(&self, b: u64) -> bool {
        forall|i: int| 0 <= i < self.snapshots@.len() ==> (#[trigger] self.snapshots@[i]).block_number < b
    }

    pub fn new() -> (r: ScoreDb)
        ensures
            r.wf(),
            r.snapshots@.len() == 0,
            r.current_map() == Map::<Seq<u8>, Score>::empty(),
    {
        ScoreDb { current: Vec::new(), snapshots: Vec::new(), history: Vec::new() }
    }

    /// Empties all three tables.
    pub fn clear(&mut self)
        ensures
            final(self).wf(),
            final(self).snapshots@.len() == 0,
            final(self).history@.len() == 0,
            final(self).current_map() == Map::<Seq<u8>, Score>::empty(),
    {
        self.current = Vec::new();
        self.snapshots = Vec::new();
        self.history = Vec::new();
    }

    /// The largest block with a snapshot, if any.
    pub fn get_last_block_number(&self) -> (r: Option<u64>)
        requires
            self.wf(),
        ensures
            r is None <==> self.snapshots@.len() == 0,
            r matches Some(b) ==> b == self.snapshots@.last().block_number && forall|i: int|
                0 <= i < self.snapshots@.len() ==> (#[trigger] self.snapshots@[i]).block_number <= b,
    {
        let n = self.snapshots.len();
        if n == 0 {
            None
        } else {
            Some(self.snapshots[n - 1].block_number)
        }
    }

    /// The current-dirty score of `address`, if it is dirty.
    pub fn get_current(&self, address: &AddressKey) -> (r: Option<Score>)
        requires
            self.wf(),
        ensures
            r is Some <==> self.current_map().contains_key(address@),
            r matches Some(s) ==> s == self.current_map()[address@] && s.wf() && s.dirt() > 0,
    {
        match find_pair(&self.current, address) {
            Some(i) => {
                proof {
                    lemma_pairs_map_wf(self.current@, address@);
                }
                Some(self.current[i].1)
            },
            None => None,
        }
    }

    /// Writes the drained scores of block `block_number`: an address that was
    /// dirty before the block, or is dirty now, gets a snapshot and a history
    /// entry, and the current-dirty table keeps exactly its dirty scores.
    /// The score of `address` as of block `block_number`: its latest snapshot
    /// at or before that block, unless there is none or it was wiped to a zero
    /// balance; `None` then, and the caller falls back to the clean chain
    /// balance at that block.
    pub fn get_address_score_by_block_number(&self, address: &AddressKey, block_number: u64) -> (r: Option<Score>)
        requires
            self.wf(),
        ensures
            r == match last_upto(self.snapshots@, address@, block_number) {
                Some(s) => if s.bal() > 0 { Some(s) } else { None },
                None => None,
            },
    {
        let mut i: usize = self.snapshots.len();
        assert(self.snapshots@.take(i as int) =~= self.snapshots@);
        while i > 0
            invariant
                0 <= i <= self.snapshots@.len(),
                last_upto(self.snapshots@, address@, block_number) == last_upto(self.snapshots@.take(i as int), address@, block_number),
            decreases i,
        {
            assert(self.snapshots@.take(i as int).drop_last() =~= self.snapshots@.take(i as int - 1));
            let e = self.snapshots[i - 1];
            if e.block_number <= block_number && e.address.same(address) {
                if e.score.balance.is_zero() {
                    return None;
                }
                return Some(e.score);
            }
            i = i - 1;
        }
        None
    }

    /// The snapshot of `address` with the largest dirty amount, the first such
    /// one on ties; a zero score when it has none.
    pub fn get_address_max_dirty_amount(&self, address: &AddressKey) -> (r: Score)
        requires
            self.wf(),
        ensures
            r.wf(),
            forall|i: int| 0 <= i < self.snapshots@.len() && #[trigger] self.snapshots@[i].address@ == address@
                ==> self.snapshots@[i].score.dirt() <= r.dirt(),
            r.dirt() == 0 && r.bal() == 0 || exists|i: int| 0 <= i < self.snapshots@.len() && #[trigger] self.snapshots@[i].address@ == address@
                && self.snapshots@[i].score == r,
    {
        let mut best = Score::new_clean(crate::amount::Amount::zero());
        let mut i: usize = 0;
        while i < self.snapshots.len()
            invariant
                0 <= i <= self.snapshots@.len(),
                self.wf(),
                best.wf(),
                forall|j: int| 0 <= j < i && #[trigger] self.snapshots@[j].address@ == address@
                    ==> self.snapshots@[j].score.dirt() <= best.dirt(),
                best.dirt() == 0 && best.bal() == 0 || exists|j: int| 0 <= j < self.snapshots@.len() && #[trigger] self.snapshots@[j].address@ == address@
                    && self.snapshots@[j].score == best,
            decreases self.snapshots@.len() - i,
        {
            let e = self.snapshots[i];
            if e.address.same(address) && !crate::amount::amount_le(&e.score.dirty_amount, &best.dirty_amount) {
                best = e.score;
            }
            i = i + 1;
        }
        best
    }

    /// The current-dirty score of `address`; `None` when it is clean, and the
    /// caller falls back to its clean chain balance.
    pub fn get_address_latest_score(&self, address: &AddressKey) -> (r: Option<Score>)
        requires
            self.wf(),
        ensures
            r is Some <==> self.current_map().contains_key(address@),
            r matches Some(s) ==> s == self.current_map()[address@],
    {
        self.get_current(address)
    }

    /// The snapshots of blocks `from_block..=to_block`, in block order.
    pub fn export_address_score_between_block_range(&self, from_block: u64, to_block: u64) -> (r: Vec<SnapshotEntry>)
        ensures
            r@ == rows_between(self.snapshots@, from_block, to_block),
    {
        let mut out: Vec<SnapshotEntry> = Vec::new();
        let mut i: usize = 0;
        assert(self.snapshots@.take(0) =~= Seq::<SnapshotEntry>::empty());
        while i < self.snapshots.len()
            invariant
                0 <= i <= self.snapshots@.len(),
                out@ == rows_between(self.snapshots@.take(i as int), from_block, to_block),
            decreases self.snapshots@.len() - i,
        {
            assert(self.snapshots@.take(i as int + 1).drop_last() =~= self.snapshots@.take(i as int));
            let e = self.snapshots[i];
            if from_block <= e.block_number && e.block_number <= to_block {
                out.push(e);
            }
            i = i + 1;
        }
        assert(self.snapshots@.take(self.snapshots@.len() as int) =~= self.snapshots@);
        out
    }

    /// The addresses whose last snapshot up to `block_number` is dirty, with that score.
    pub fn export_tainted_addresses_until_block_number(&self, block_number: u64) -> (r: Vec<(AddressKey, Score)>)
        requires
            self.wf(),
        ensures
            keys_unique(r@),
            pairs_map(r@) == tainted_upto(self.snapshots@, block_number),
    {
        let mut out: Vec<(AddressKey, Score)> = Vec::new();
        let mut i: usize = 0;
        assert(self.snapshots@.take(0) =~= Seq::<SnapshotEntry>::empty());
        assert(pairs_map(out@) =~= Map::<Seq<u8>, Score>::empty());
        while i < self.snapshots.len()
            invariant
                0 <= i <= self.snapshots@.len(),
                self.wf(),
                keys_unique(out@),
                all_wf(out@),
                pairs_map(out@) == tainted_upto(self.snapshots@.take(i as int), block_number),
            decreases self.snapshots@.len() - i,
        {
            assert(self.snapshots@.take(i as int + 1).drop_last() =~= self.snapshots@.take(i as int));
            let e = self.snapshots[i];
            assert(e.score.wf());
            if e.block_number <= block_number {
                if e.score.is_dirty() {
                    put_pair(&mut out, e.address, e.score);
                } else {
                    remove_pair(&mut out, &e.address);
                }
            }
            i = i + 1;
        }
        assert(self.snapshots@.take(self.snapshots@.len() as int) =~= self.snapshots@);
        out
    }

    /// For each block with snapshots, in block order, the number of addresses
    /// recorded at it.
    pub fn export_historical_amount_of_tainted_addresses(&self) -> (r: Vec<(u64, usize)>)
        ensures
            r@ == block_counts(self.snapshots@),
    {
        let mut out: Vec<(u64, usize)> = Vec::new();
        let mut i: usize = 0;
        assert(self.snapshots@.take(0) =~= Seq::<SnapshotEntry>::empty());
        while i < self.snapshots.len()
            invariant
                0 <= i <= self.snapshots@.len(),
                out@ == block_counts(self.snapshots@.take(i as int)),
            decreases self.snapshots@.len() - i,
        {
            let ghost t = self.snapshots@.take(i as int);
            assert(self.snapshots@.take(i as int + 1).drop_last() =~= t);
            proof {
                lemma_block_counts_bounded(t);
            }
            let b = self.snapshots[i].block_number;
            let n = out.len();
            if n > 0 && out[n - 1].0 == b {
                let c = out[n - 1].1;
                out.set(n - 1, (b, c + 1));
            } else {
                out.push((b, 1));
            }
            i = i + 1;
        }
        assert(self.snapshots@.take(self.snapshots@.len() as int) =~= self.snapshots@);
        out
    }

    /// The snapshots of `address` at blocks `from_block..=to_block`, in block order.
    pub fn export_address_historical_score_between_block_range(
        &self,
        address: &AddressKey,
        from_block: u64,
        to_block: u64,
    ) -> (r: Vec<SnapshotEntry>)
        ensures
            r@ == address_rows_between(self.snapshots@, address@, from_block, to_block),
    {
        let mut out: Vec<SnapshotEntry> = Vec::new();
        let mut i: usize = 0;
        assert(self.snapshots@.take(0) =~= Seq::<SnapshotEntry>::empty());
        while i < self.snapshots.len()
            invariant
                0 <= i <= self.snapshots@.len(),
                out@ == address_rows_between(self.snapshots@.take(i as int), address@, from_block, to_block),
            decreases self.snapshots@.len() - i,
        {
            assert(self.snapshots@.take(i as int + 1).drop_last() =~= self.snapshots@.take(i as int));
            let e = self.snapshots[i];
            if e.address.same(address) && from_block <= e.block_number && e.block_number <= to_block {
                out.push(e);
            }
            i = i + 1;
        }
        assert(self.snapshots@.take(self.snapshots@.len() as int) =~= self.snapshots@);
        out
    }

    /// The number of entries in the current-dirty, snapshot and history tables.
    pub fn record_numbers(&self) -> (r: (usize, usize, usize))
        ensures
            r.0 == self.current@.len() && r.1 == self.snapshots@.len() && r.2 == self.history@.len(),
    {
        (self.current.len(), self.snapshots.len(), self.history.len())
    }

    pub fn flush_cache(&mut self, drained: &Vec<(AddressKey, Score)>, block_number: u64)
        requires
            old(self).wf(),
            old(self).all_before(block_number),
            keys_unique(drained@),
            all_wf(drained@),
        ensures
            final(self).wf(),
            final(self).snapshots@ == old(self).snapshots@ + flush_rows(
                old(self).current_map(),
                drained@,
                block_number,
            ),
            final(self).current_map() == flush_current(old(self).current_map(), drained@),
    {
        let ghost prior = self.current_map();
        let ghost old_snaps = self.snapshots@;
        let mut k: usize = 0;
        while k < drained.len()
            invariant
                0 <= k <= drained.len(),
                keys_unique(drained@),
                all_wf(drained@),
                self.wf(),
                forall|i: int| 0 <= i < old_snaps.len() ==> (#[trigger] old_snaps[i]).block_number < block_number,
                self.snapshots@ == old_snaps + flush_rows(prior, drained@.take(k as int), block_number),
                self.current_map() == flush_current(prior, drained@.take(k as int)),
            decreases drained.len() - k,
        {
            let address = drained[k].0;
            let score = drained[k].1;
            let ghost d = drained@.take(k as int);
            let ghost d1 = drained@.take(k as int + 1);
            assert(d1.drop_last() =~= d);
            assert(d1.last() == drained@[k as int]);
            proof {
                assert forall|j: int| 0 <= j < d.len() implies d[j].0@ != address@ by {
                    assert(d[j] == drained@[j]);
                }
                lemma_flush_current_other(prior, d, address@);
            }
            let was_dirty = find_pair(&self.current, &address).is_some();
            let dirty = score.is_dirty();
            assert(drained@[k as int].1.wf());
            if was_dirty || dirty {
                let ghost before = self.snapshots@;
                proof {
                    assert forall|i: int| 0 <= i < before.len() && before[i].address@ == address@
                        implies before[i].block_number < block_number by {
                        if i >= old_snaps.len() {
                            let rows = flush_rows(prior, d, block_number);
                            lemma_flush_rows_shape(prior, d, block_number, i - old_snaps.len());
                            assert(rows[i - old_snaps.len()] == before[i]);
                            let j = choose|j: int| 0 <= j < d.len() && #[trigger] d[j].0@ == rows[i - old_snaps.len()].address@;
                            assert(d[j] == drained@[j]);
                            assert(false);
                        }
                    }
                    assert forall|i: int| 0 <= i < before.len() implies before[i].block_number <= block_number by {
                        if i >= old_snaps.len() {
                            lemma_flush_rows_shape(prior, d, block_number, i - old_snaps.len());
                        }
                    }
                }
                if dirty {
                    put_pair(&mut self.current, address, score);
                } else {
                    remove_pair(&mut self.current, &address);
                }
                let entry = SnapshotEntry { block_number, address, score };
                self.snapshots.push(entry);
                self.history.push((address, block_number));
                proof {
                    assert(self.snapshots@ =~= old_snaps + flush_rows(prior, d1, block_number));
                    assert forall|a: Seq<u8>| a != address@ implies last_for(self.snapshots@, a) == last_for(before, a) by {
                        assert(self.snapshots@.drop_last() =~= before);
                    }
                    assert(last_for(self.snapshots@, address@) == Some(score)) by {
                        assert(self.snapshots@.last() == entry);
                    }
                    assert(self.current_map() =~= flush_current(prior, d1));
                }
            } else {
                proof {
                    assert(self.current_map() =~= flush_current(prior, d1));
                    assert(flush_rows(prior, d1, block_number) == flush_rows(prior, d, block_number));
                }
            }
            k = k + 1;
        }
        assert(drained@.take(drained@.len() as int) =~= drained@);
    }
}

proof fn lemma_flush_current_pointwise(prior: Map<Seq<u8>, Score>, d: Seq<(AddressKey, Score)>, a: Seq<u8>)
    ensures
        flush_current(prior, d).contains_key(a) == if pairs_map(d).contains_key(a) {
            pairs_map(d)[a].dirt() > 0
        } else {
            prior.contains_key(a)
        },
        flush_current(prior, d).contains_key(a) ==> flush_current(prior, d)[a] == if pairs_map(d).contains_key(a) {
            pairs_map(d)[a]
        } else {
            prior[a]
        },
    decreases d.len(),
{
    if d.len() > 0 {
        lemma_flush_current_pointwise(prior, d.drop_last(), a);
    }
}

/// The snapshots of one block as a map from address to score.
pub open spec fn rows_map(rows: Seq<SnapshotEntry>) -> Map<Seq<u8>, Score>
    decreases rows.len(),
{
    if rows.len() == 0 {
        Map::empty()
    } else {
        rows_map(rows.drop_last()).insert(rows.last().address@, rows.last().score)
    }
}

proof fn lemma_flush_rows_pointwise(prior: Map<Seq<u8>, Score>, d: Seq<(AddressKey, Score)>, b: u64, a: Seq<u8>)
    requires
        keys_unique(d),
    ensures
        rows_map(flush_rows(prior, d, b)).contains_key(a) == (pairs_map(d).contains_key(a) && (
        prior.contains_key(a) || pairs_map(d)[a].dirt() > 0)),
        rows_map(flush_rows(prior, d, b)).contains_key(a) ==> rows_map(flush_rows(prior, d, b))[a]
            == pairs_map(d)[a],
    decreases d.len(),
{
    if d.len() > 0 {
        assert(keys_unique(d.drop_last()));
        lemma_flush_rows_pointwise(prior, d.drop_last(), b, a);
        let rest = flush_rows(prior, d.drop_last(), b);
        if is_recorded(prior, d.last()) {
            let e = SnapshotEntry { block_number: b, address: d.last().0, score: d.last().1 };
            assert(rest.push(e).drop_last() =~= rest);
            assert(rows_map(rest.push(e)) == rows_map(rest).insert(e.address@, e.score));
        }
        if d.last().0@ == a {
            assert forall|j: int| 0 <= j < d.drop_last().len() implies d.drop_last()[j].0@ != a by {
                assert(d.drop_last()[j] == d[j]);
            }
            crate::cache::lemma_pairs_map_absent(d.drop_last(), a);
        }
    }
}

/// Replaying a block gives the same current-dirty table: it depends only on
/// the table before the block and the scores the block leaves in the cache,
/// not on the order in which the cache lists them.
pub proof fn lemma_flush_deterministic(prior: Map<Seq<u8>, Score>, d1: Seq<(AddressKey, Score)>, d2: Seq<(AddressKey, Score)>)
    requires
        pairs_map(d1) == pairs_map(d2),
    ensures
        flush_current(prior, d1) == flush_current(prior, d2),
{
    assert forall|a: Seq<u8>| #[trigger] flush_current(prior, d1).contains_key(a) == flush_current(prior, d2).contains_key(a)
        && (flush_current(prior, d1).contains_key(a) ==> flush_current(prior, d1)[a] == flush_current(prior, d2)[a]) by {
        lemma_flush_current_pointwise(prior, d1, a);
        lemma_flush_current_pointwise(prior, d2, a);
    }
    assert(flush_current(prior, d1) =~= flush_current(prior, d2));
}

/// Replaying a block writes the same snapshots, address by address, whatever
/// the order in which the cache lists its scores.
pub proof fn lemma_flush_rows_deterministic(
    prior: Map<Seq<u8>, Score>,
    d1: Seq<(AddressKey, Score)>,
    d2: Seq<(AddressKey, Score)>,
    b: u64,
)
    requires
        keys_unique(d1),
        keys_unique(d2),
        pairs_map(d1) == pairs_map(d2),
    ensures
        rows_map(flush_rows(prior, d1, b)) == rows_map(flush_rows(prior, d2, b)),
{
    assert forall|a: Seq<u8>| #[trigger] rows_map(flush_rows(prior, d1, b)).contains_key(a) == rows_map(flush_rows(prior, d2, b)).contains_key(a)
        && (rows_map(flush_rows(prior, d1, b)).contains_key(a) ==> rows_map(flush_rows(prior, d1, b))[a] == rows_map(flush_rows(prior, d2, b))[a]) by {
        lemma_flush_rows_pointwise(prior, d1, b, a);
        lemma_flush_rows_pointwise(prior, d2, b, a);
    }
    assert(rows_map(flush_rows(prior, d1, b)) =~= rows_map(flush_rows(prior, d2, b)));
}

/// Every score held in the store satisfies `dirty_amount <= balance`.
pub proof fn lemma_taint_bound(db: &ScoreDb, a: Seq<u8>, i: int)
    requires
        db.wf(),
    ensures
        db.current_map().contains_key(a) ==> db.current_map()[a].wf(),
        0 <= i < db.snapshots@.len() ==> db.snapshots@[i].score.wf(),
{
    if db.current_map().contains_key(a) {
        lemma_pairs_map_wf(db.current@, a);
    }
}

/// Each history entry `(a, b)` has a snapshot of `a` at block `b`; and `a`
/// is in the current-dirty table exactly when its last snapshot is dirty,
/// with that score.
pub proof fn lemma_history_agrees(db: &ScoreDb, a: Seq<u8>, i: int)
    requires
        db.wf(),
    ensures
        0 <= i < db.history@.len() ==> db.snapshots@[i].address == db.history@[i].0
            && db.snapshots@[i].block_number == db.history@[i].1,
        db.current_map().contains_key(a) <==> (last_for(db.snapshots@, a) matches Some(s) && s.dirt() > 0),
        db.current_map().contains_key(a) ==> last_for(db.snapshots@, a) == Some(db.current_map()[a]),
{
}

/// The history of an address is strictly increasing.
pub proof fn lemma_history_increasing(db: &ScoreDb, i: int, j: int)
    requires
        db.wf(),
        0 <= i < j < db.history@.len(),
        db.history@[i].0@ == db.history@[j].0@,
    ensures
        db.history@[i].1 < db.history@[j].1,
{
}

/// A flush writes nothing for an address that was not dirty before the block
/// and is clean after it.
pub proof fn lemma_no_silent_history(prior: Map<Seq<u8>, Score>, d: Seq<(AddressKey, Score)>, b: u64, a: Seq<u8>, i: int)
    requires
        !prior.contains_key(a),
        forall|j: int| 0 <= j < d.len() && d[j].0@ == a ==> d[j].1.dirt() == 0,
        0 <= i < flush_rows(prior, d, b).len(),
    ensures
        flush_rows(prior, d, b)[i].address@ != a,
    decreases d.len(),
{
    let rest = flush_rows(prior, d.drop_last(), b);
    if i < rest.len() {
        assert forall|j: int| 0 <= j < d.drop_last().len() && d.drop_last()[j].0@ == a implies d.drop_last()[j].1.dirt() == 0 by {
            assert(d.drop_last()[j] == d[j]);
        }
        lemma_no_silent_history(prior, d.drop_last(), b, a, i);
    }
}

} // verus!
