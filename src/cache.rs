use crate::address::{contains_key, key_in, AddressKey};
use crate::score::Score;
use vstd::prelude::*;

verus! {

/// The map that a list of `(address, score)` pairs stands for; a later pair
/// for the same address wins.
pub open spec fn pairs_map(s: Seq<(AddressKey, Score)>) -> Map<Seq<u8>, Score>
    decreases s.len(),
{
    if s.len() == 0 {
        Map::empty()
    } else {
        pairs_map(s.drop_last()).insert(s.last().0@, s.last().1)
    }
}

/// No address occurs twice.
pub open spec fn keys_unique(s: Seq<(AddressKey, Score)>) -> bool {
    forall|i: int, j: int| 0 <= i < j < s.len() ==> s[i].0@ != s[j].0@
}

/// Every score satisfies `dirty_amount <= balance`.
pub open spec fn all_wf(s: Seq<(AddressKey, Score)>) -> bool {
    forall|i: int| 0 <= i < s.len() ==> (#[trigger] s[i]).1.wf()
}

pub proof fn lemma_pairs_map_index(s: Seq<(AddressKey, Score)>, i: int)
    requires
        keys_unique(s),
        0 <= i < s.len(),
    ensures
        pairs_map(s).contains_key(s[i].0@),
        pairs_map(s)[s[i].0@] == s[i].1,
    decreases s.len(),
{
    if i < s.len() - 1 {
        assert(s.drop_last()[i] == s[i]);
        lemma_pairs_map_index(s.drop_last(), i);
    }
}

pub proof fn lemma_pairs_map_absent(s: Seq<(AddressKey, Score)>, a: Seq<u8>)
    requires
        forall|i: int| 0 <= i < s.len() ==> s[i].0@ != a,
    ensures
        !pairs_map(s).contains_key(a),
    decreases s.len(),
{
    if s.len() > 0 {
        lemma_pairs_map_absent(s.drop_last(), a);
    }
}

pub proof fn lemma_pairs_map_wf(s: Seq<(AddressKey, Score)>, a: Seq<u8>)
    requires
        all_wf(s),
        pairs_map(s).contains_key(a),
    ensures
        pairs_map(s)[a].wf(),
    decreases s.len(),
{
    if s.len() > 0 && s.last().0@ != a {
        assert(all_wf(s.drop_last()));
        lemma_pairs_map_wf(s.drop_last(), a);
    }
}

pub proof fn lemma_pairs_map_update(s: Seq<(AddressKey, Score)>, i: int, v: Score)
    requires
        keys_unique(s),
        0 <= i < s.len(),
    ensures
        pairs_map(s.update(i, (s[i].0, v))) == pairs_map(s).insert(s[i].0@, v),
    decreases s.len(),
{
    let t = s.update(i, (s[i].0, v));
    if i == s.len() - 1 {
        assert(t.drop_last() =~= s.drop_last());
    } else {
        assert(t.drop_last() =~= s.drop_last().update(i, (s[i].0, v)));
        lemma_pairs_map_update(s.drop_last(), i, v);
        assert(pairs_map(t) =~= pairs_map(s).insert(s[i].0@, v));
    }
}

pub proof fn lemma_pairs_map_remove(s: Seq<(AddressKey, Score)>, i: int)
    requires
        keys_unique(s),
        0 <= i < s.len(),
    ensures
        pairs_map(s.remove(i)) == pairs_map(s).remove(s[i].0@),
    decreases s.len(),
{
    let t = s.remove(i);
    if i == s.len() - 1 {
        assert(t =~= s.drop_last());
        lemma_pairs_map_absent(s.drop_last(), s[i].0@);
        assert(pairs_map(t) =~= pairs_map(s).remove(s[i].0@));
    } else {
        assert(t.drop_last() =~= s.drop_last().remove(i));
        lemma_pairs_map_remove(s.drop_last(), i);
        assert(pairs_map(t) =~= pairs_map(s).remove(s[i].0@));
    }
}

/// Index of the pair for `a`, if any.
pub fn find_pair(s: &Vec<(AddressKey, Score)>, a: &AddressKey) -> (r: Option<usize>)
    requires
        keys_unique(s@),
    ensures
        r is None ==> !pairs_map(s@).contains_key(a@),
        r matches Some(i) ==> i < s@.len() && s@[i as int].0@ == a@ && pairs_map(s@).contains_key(a@)
            && pairs_map(s@)[a@] == s@[i as int].1,
{
    let mut i: usize = 0;
    while i < s.len()
        invariant
            0 <= i <= s.len(),
            keys_unique(s@),
            forall|j: int| 0 <= j < i ==> s@[j].0@ != a@,
        decreases s.len() - i,
    {
        if s[i].0.same(a) {
            proof {
                lemma_pairs_map_index(s@, i as int);
            }
            return Some(i);
        }
        i = i + 1;
    }
    proof {
        lemma_pairs_map_absent(s@, a@);
    }
    None
}

/// Sets the score of `a`, adding a pair when `a` has none.
pub fn put_pair(s: &mut Vec<(AddressKey, Score)>, a: AddressKey, v: Score)
    requires
        keys_unique(old(s)@),
        all_wf(old(s)@),
        v.wf(),
    ensures
        keys_unique(final(s)@),
        all_wf(final(s)@),
        pairs_map(final(s)@) == pairs_map(old(s)@).insert(a@, v),
{
    match find_pair(s, &a) {
        Some(i) => {
            proof {
                lemma_pairs_map_update(s@, i as int, v);
            }
            s.set(i, (a, v));
            proof {
                assert(pairs_map(s@) == pairs_map(old(s)@).insert(a@, v)) by {
                    lemma_pairs_map_update(old(s)@, i as int, v);
                    let t = old(s)@.update(i as int, (old(s)@[i as int].0, v));
                    assert(pairs_map(s@) =~= pairs_map(t)) by {
                        lemma_pairs_map_same_keys(s@, t);
                    }
                }
            }
        },
        None => {
            proof {
                assert forall|j: int| 0 <= j < s@.len() implies s@[j].0@ != a@ by {
                    if s@[j].0@ == a@ {
                        lemma_pairs_map_index(s@, j);
                    }
                }
            }
            s.push((a, v));
            assert(s@.drop_last() =~= old(s)@);
        },
    }
}

/// Two lists whose pairs agree on address views and scores stand for the same map.
pub proof fn lemma_pairs_map_same_keys(s: Seq<(AddressKey, Score)>, t: Seq<(AddressKey, Score)>)
    requires
        s.len() == t.len(),
        forall|i: int| 0 <= i < s.len() ==> s[i].0@ == t[i].0@ && s[i].1 == t[i].1,
    ensures
        pairs_map(s) == pairs_map(t),
    decreases s.len(),
{
    if s.len() > 0 {
        lemma_pairs_map_same_keys(s.drop_last(), t.drop_last());
    }
}

/// Removes the pair of `a`, if any.
pub fn remove_pair(s: &mut Vec<(AddressKey, Score)>, a: &AddressKey)
    requires
        keys_unique(old(s)@),
        all_wf(old(s)@),
    ensures
        keys_unique(final(s)@),
        all_wf(final(s)@),
        pairs_map(final(s)@) == pairs_map(old(s)@).remove(a@),
{
    match find_pair(s, a) {
        Some(i) => {
            proof {
                lemma_pairs_map_remove(s@, i as int);
            }
            s.remove(i);
        },
        None => {
            assert(pairs_map(s@) =~= pairs_map(s@).remove(a@));
        },
    }
}

/// Scratch scores and self-destructed addresses of the block being processed.
pub struct Cache {
    pub data: Vec<(AddressKey, Score)>,
    pub self_destruct: Vec<AddressKey>,
}

impl Cache {
    pub open spec fn wf(&self) -> bool {
        keys_unique(self.data@) && all_wf(self.data@)
    }

    pub open spec fn view_data(&self) -> Map<Seq<u8>, Score> {
        pairs_map(self.data@)
    }

    pub fn new() -> (r: Cache)
        ensures
            r.wf(),
            r.data@.len() == 0,
            r.view_data() == Map::<Seq<u8>, Score>::empty(),
            r.self_destruct@.len() == 0,
    {
        Cache { data: Vec::new(), self_destruct: Vec::new() }
    }

    /// The scratch score of `address`, if any.
    pub fn get_data(&self, address: &AddressKey) -> (r: Option<Score>)
        requires
            self.wf(),
        ensures
            r is Some <==> self.view_data().contains_key(address@),
            r matches Some(s) ==> s == self.view_data()[address@] && s.wf(),
    {
        match find_pair(&self.data, address) {
            Some(i) => {
                proof {
                    lemma_pairs_map_wf(self.data@, address@);
                }
                Some(self.data[i].1)
            },
            None => None,
        }
    }

    /// Sets the scratch score of `address`.
    pub fn insert_data(&mut self, address: AddressKey, score: Score)
        requires
            old(self).wf(),
            score.wf(),
        ensures
            final(self).wf(),
            final(self).view_data() == old(self).view_data().insert(address@, score),
            final(self).self_destruct == old(self).self_destruct,
    {
        put_pair(&mut self.data, address, score);
    }

    /// Takes every scratch score out, leaving none.
    pub fn drain_data(&mut self) -> (r: Vec<(AddressKey, Score)>)
        requires
            old(self).wf(),
        ensures
            r@ == old(self).data@,
            keys_unique(r@),
            all_wf(r@),
            final(self).wf(),
            final(self).data@.len() == 0,
            final(self).view_data() == Map::<Seq<u8>, Score>::empty(),
            final(self).self_destruct == old(self).self_destruct,
    {
        let mut out: Vec<(AddressKey, Score)> = Vec::new();
        std::mem::swap(&mut self.data, &mut out);
        out
    }

    /// Whether `address` was recorded as self-destructed.
    pub fn check_self_destructed(&self, address: &AddressKey) -> (r: bool)
        ensures
            r == key_in(self.self_destruct@, address@),
    {
        contains_key(&self.self_destruct, address)
    }

    pub fn insert_self_destruct(&mut self, address: AddressKey)
        ensures
            final(self).self_destruct@ == old(self).self_destruct@.push(address),
            final(self).data == old(self).data,
    {
        self.self_destruct.push(address);
    }

    /// Takes every self-destructed address out, in order of recording.
    pub fn drain_self_destruct(&mut self) -> (r: Vec<AddressKey>)
        ensures
            r@ == old(self).self_destruct@,
            final(self).self_destruct@.len() == 0,
            final(self).data == old(self).data,
    {
        let mut out: Vec<AddressKey> = Vec::new();
        std::mem::swap(&mut self.self_destruct, &mut out);
        out
    }
}

} // verus!
