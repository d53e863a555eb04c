//! Bookkeeping of the waiters that a system subscribes to: each waiter is
//! kept under a fresh id until it is unsubscribed.
use vstd::prelude::*;

use std::collections::HashMap;
use vstd::std_specs::iter::IteratorSpec;

verus! {

broadcast use vstd::std_specs::hash::group_hash_axioms;

/// Why waiting for a signal failed.
#[derive(Debug, PartialEq, Eq)]
pub enum WaitError {
    /// The channel was closed.
    Closed,
    /// Any other failure, with its message.
    Caston(String),
}

/// The id under which a waiter is subscribed.
#[derive(Debug, Clone, Copy, PartialEq, Eq, Structural, PartialOrd, Ord, Hash)]
pub struct SingalWaiterId(u128);

impl View for SingalWaiterId {
    type V = u128;

    closed spec fn view(&self) -> u128 {
        self.0
    }
}

impl SingalWaiterId {
    pub fn new(id: u128) -> (r: SingalWaiterId)
        ensures
            r@ == id,
    {
        SingalWaiterId(id)
    }

    pub fn value(&self) -> (r: u128)
        ensures
            r == self@,
    {
        self.0
    }
}

/// `uuid::Uuid::now_v7` read as a `u128`: a time-ordered UUID. It depends on
/// the clock and on a counter of the process, so nothing is claimed of it.
#[verifier::external_body]
fn fresh_waiter_uuid() -> u128 {
    uuid::Uuid::now_v7().as_u128()
}

/// `map` after subscribing `ws[k]` under `ids[k]`, one after the other.
pub open spec fn subscribed_all<W>(map: Map<u128, W>, ids: Seq<u128>, ws: Seq<W>) -> Map<u128, W>
    decreases ids.len(),
{
    if ids.len() == 0 {
        map
    } else {
        subscribed_all(map, ids.drop_last(), ws.drop_last()).insert(ids.last(), ws[ids.len() - 1])
    }
}

/// What `subscribe` keeps under an id is what `remove` of that id gives
/// back, and taking it out leaves the other waiters as they were before.
pub proof fn law_subscribed_waiter_comes_back<W>(before: Map<u128, W>, id: u128, w: W)
    ensures
        before.insert(id, w).contains_key(id),
        before.insert(id, w)[id] == w,
        before.insert(id, w).remove(id) == before.remove(id),
{
    assert(before.insert(id, w).remove(id) =~= before.remove(id));
}

/// Unsubscribing the id of a waiter that was subscribed under a fresh id
/// gives back the collection as it was before, key set included; `subscribe`
/// always picks such an id.
pub proof fn law_unsubscribe_undoes_subscribe<W>(before: Map<u128, W>, id: u128, w: W)
    requires
        !before.contains_key(id),
    ensures
        before.insert(id, w).remove(id) == before,
        before.insert(id, w).remove(id).dom() == before.dom(),
{
    assert(before.insert(id, w).remove(id) =~= before);
}

/// Unsubscribing an id under which no waiter is kept changes nothing.
pub proof fn law_unsubscribe_missing_id<W>(waiters: Map<u128, W>, id: u128)
    requires
        !waiters.contains_key(id),
    ensures
        waiters.remove(id) == waiters,
{
    assert(waiters.remove(id) =~= waiters);
}

/// Subscribing waiters one after the other under ids that are distinct and
/// that no waiter had keeps every earlier waiter and every new one, each
/// under its id, so the collection grows by the number of new waiters.
pub proof fn law_subscribe_many_keeps_every_waiter<W>(before: Map<u128, W>, ids: Seq<u128>, ws: Seq<W>)
    requires
        before.dom().finite(),
        ids.len() == ws.len(),
        forall|k: int| 0 <= k < ids.len() ==> !before.contains_key(#[trigger] ids[k]),
        forall|j: int, k: int| 0 <= j < k < ids.len() ==> ids[j] != ids[k],
    ensures
        subscribed_all(before, ids, ws).dom().finite(),
        subscribed_all(before, ids, ws).len() == before.len() + ids.len(),
        forall|k: int|
            0 <= k < ids.len() ==> subscribed_all(before, ids, ws).contains_key(#[trigger] ids[k])
                && subscribed_all(before, ids, ws)[ids[k]] == ws[k],
        forall|u: u128|
            #[trigger] before.contains_key(u) ==> subscribed_all(before, ids, ws).contains_key(u)
                && subscribed_all(before, ids, ws)[u] == before[u],
    decreases ids.len(),
{
    if ids.len() > 0 {
        let n = ids.len() - 1;
        let ids0 = ids.drop_last();
        let ws0 = ws.drop_last();
        assert forall|k: int| 0 <= k < ids0.len() implies !before.contains_key(#[trigger] ids0[k]) by {
            assert(ids0[k] == ids[k]);
        }
        assert forall|j: int, k: int| 0 <= j < k < ids0.len() implies ids0[j] != ids0[k] by {
            assert(ids0[j] == ids[j] && ids0[k] == ids[k]);
        }
        law_subscribe_many_keeps_every_waiter(before, ids0, ws0);
        let m0 = subscribed_all(before, ids0, ws0);
        let last = ids.last();
        assert(!before.contains_key(ids[n]));
        if m0.contains_key(last) {
            assert forall|k: int| 0 <= k < ids0.len() implies ids0[k] != last by {
                assert(ids0[k] == ids[k]);
            }
            assert(false) by {
                lemma_subscribed_keys(before, ids0, ws0, last);
            }
        }
        assert forall|k: int|
            0 <= k < ids.len() implies subscribed_all(before, ids, ws).contains_key(#[trigger] ids[k])
                && subscribed_all(before, ids, ws)[ids[k]] == ws[k] by {
            if k < n {
                assert(ids0[k] == ids[k] && ws0[k] == ws[k]);
                assert(ids[k] != last);
            }
        }
    }
}

/// A key of `subscribed_all(before, ids, ws)` was a key before or is one of
/// `ids`.
proof fn lemma_subscribed_keys<W>(before: Map<u128, W>, ids: Seq<u128>, ws: Seq<W>, u: u128)
    requires
        subscribed_all(before, ids, ws).contains_key(u),
    ensures
        before.contains_key(u) || exists|k: int| 0 <= k < ids.len() && ids[k] == u,
    decreases ids.len(),
{
    if ids.len() > 0 && u != ids.last() {
        lemma_subscribed_keys(before, ids.drop_last(), ws.drop_last(), u);
        if !before.contains_key(u) {
            let k = choose|k: int| 0 <= k < ids.drop_last().len() && ids.drop_last()[k] == u;
            assert(ids[k] == u);
        }
    }
}

/// The waiters of a system, each under its id.
#[derive(Debug)]
pub struct SignalWaitersCollection<W> {
    waiters: HashMap<u128, W>,
}

impl<W> View for SignalWaitersCollection<W> {
    type V = Map<u128, W>;

    closed spec fn view(&self) -> Map<u128, W> {
        self.waiters@
    }
}

impl<W> SignalWaitersCollection<W> {
    pub fn new() -> (r: Self)
        ensures
            r@ == Map::<u128, W>::empty(),
    {
        SignalWaitersCollection { waiters: HashMap::new() }
    }

    /// An id under which no waiter is kept: a time-ordered UUID, or, should
    /// that one be taken, the least number that is not.
    fn unused_id(&self) -> (id: u128)
        ensures
            !self@.contains_key(id),
    {
        let drawn = fresh_waiter_uuid();
        if !self.waiters.contains_key(&drawn) {
            return drawn;
        }
        let n = self.waiters.len();
        let mut j: u128 = 0;
        let ghost mut below: Set<u128> = Set::empty();
        while self.waiters.contains_key(&j)
            invariant
                n == self@.len(),
                self@.dom().finite(),
                j <= n,
                below.finite(),
                below.len() == j,
                below.subset_of(self@.dom()),
                forall|i: u128| #[trigger] below.contains(i) <==> i < j,
            decreases n - j,
        {
            proof {
                assert(!below.contains(j));
                vstd::set_lib::lemma_len_subset(below.insert(j), self@.dom());
                below = below.insert(j);
            }
            j = j + 1;
        }
        j
    }

    /// Keeps `w` under an id that no waiter had, and returns that id: every
    /// waiter kept before stays, and the collection grows by one.
    pub fn subscribe(&mut self, w: W) -> (id: SingalWaiterId)
        ensures
            !old(self)@.contains_key(id@),
            final(self)@ == old(self)@.insert(id@, w),
            final(self)@.len() == old(self)@.len() + 1,
    {
        let id = SingalWaiterId(self.unused_id());
        self.waiters.insert(id.0, w);
        id
    }

    /// Keeps each waiter of `ws` under a fresh id, in order, and returns the
    /// ids in the same order.
    pub fn subscribe_many(&mut self, ws: Vec<W>) -> (ids: Vec<SingalWaiterId>)
        ensures
            ids.len() == ws.len(),
            final(self)@ == subscribed_all(old(self)@, ids@.map_values(|id: SingalWaiterId| id@), ws@),
            forall|k: int| 0 <= k < ids.len() ==> !old(self)@.contains_key(#[trigger] ids[k]@),
            forall|j: int, k: int| 0 <= j < k < ids.len() ==> ids[j]@ != ids[k]@,
            final(self)@.len() == old(self)@.len() + ws.len(),
            forall|k: int|
                0 <= k < ids.len() ==> final(self)@.contains_key(#[trigger] ids[k]@)
                    && final(self)@[ids[k]@] == ws[k],
            forall|u: u128|
                #[trigger] old(self)@.contains_key(u) ==> final(self)@.contains_key(u)
                    && final(self)@[u] == old(self)@[u],
    {
        let mut ids: Vec<SingalWaiterId> = Vec::new();
        let ghost start = self.waiters@;
        let ghost all = ws@;
        for w in it: ws.into_iter()
            invariant
                it.seq() == all,
                ids.len() == it.index(),
                self.waiters@ == subscribed_all(
                    start,
                    ids@.map_values(|id: SingalWaiterId| id@),
                    all.take(it.index()),
                ),
                start.dom().finite(),
                forall|k: int| 0 <= k < ids.len() ==> !start.contains_key(#[trigger] ids[k]@),
                forall|j: int, k: int| 0 <= j < k < ids.len() ==> ids[j]@ != ids[k]@,
                forall|k: int| 0 <= k < ids.len() ==> self.waiters@.contains_key(#[trigger] ids[k]@),
                forall|u: u128| #[trigger] start.contains_key(u) ==> self.waiters@.contains_key(u),
        {
            let id = SingalWaiterId(self.unused_id());
            let ghost before = ids@.map_values(|id: SingalWaiterId| id@);
            self.waiters.insert(id.0, w);
            ids.push(id);
            proof {
                let after = ids@.map_values(|id: SingalWaiterId| id@);
                assert(after.drop_last() =~= before);
                assert(all.take(it.index() + 1).drop_last() =~= all.take(it.index()));
            }
        }
        proof {
            assert(all.take(all.len() as int) =~= all);
            let keys = ids@.map_values(|id: SingalWaiterId| id@);
            law_subscribe_many_keeps_every_waiter(start, keys, all);
            assert forall|k: int| 0 <= k < ids.len() implies final(self)@.contains_key(
                #[trigger] ids[k]@,
            ) && final(self)@[ids[k]@] == ws[k] by {
                assert(keys[k] == ids[k]@);
            }
        }
        ids
    }

    /// Drops the waiter kept under `id`, if there is one.
    pub fn unsubscribe(&mut self, id: &SingalWaiterId)
        ensures
            final(self)@ == old(self)@.remove(id@),
    {
        self.waiters.remove(&id.0);
    }

    /// Takes out the waiter kept under `id`, if there is one.
    pub fn remove(&mut self, id: &SingalWaiterId) -> (r: Option<W>)
        ensures
            final(self)@ == old(self)@.remove(id@),
            r == (if old(self)@.contains_key(id@) {
                Some(old(self)@[id@])
            } else {
                None
            }),
    {
        self.waiters.remove(&id.0)
    }

    /// Keeps `w` under `id`, replacing any waiter kept there.
    pub fn insert(&mut self, id: SingalWaiterId, w: W)
        ensures
            final(self)@ == old(self)@.insert(id@, w),
    {
        self.waiters.insert(id.0, w);
    }

    /// The ids of all the waiters, each once.
    pub fn waiter_ids(&self) -> (ids: Vec<SingalWaiterId>)
        ensures
            ids@.map_values(|id: SingalWaiterId| id@).to_set() == self@.dom(),
            ids@.map_values(|id: SingalWaiterId| id@).no_duplicates(),
    {
        let mut ids: Vec<SingalWaiterId> = Vec::new();
        let keys = self.waiters.keys();
        for k in it: keys
            invariant
                it.seq().unref().to_set() == self@.dom(),
                it.seq().unref().no_duplicates(),
                it.seq().unref().take(it.seq().len() as int) == it.seq().unref(),
                ids@.map_values(|id: SingalWaiterId| id@) == it.seq().unref().take(it.index()),
        {
            proof {
                assert(*k == it.seq()[it.index()]);
                assert(it.seq().unref()[it.index()] == *k);
            }
            let ghost before = ids@;
            ids.push(SingalWaiterId(*k));
            proof {
                assert(ids@ =~= before.push(SingalWaiterId(*k)));
                assert(ids@.map_values(|id: SingalWaiterId| id@) =~= before.map_values(
                    |id: SingalWaiterId| id@,
                ).push(*k));
                assert(it.seq().unref().take(it.index() + 1) =~= it.seq().unref().take(
                    it.index(),
                ).push(*k));
                assert(ids@.map_values(|id: SingalWaiterId| id@) =~= it.seq().unref().take(it.index() + 1));
            }
        }
        ids
    }
}

} // verus!
