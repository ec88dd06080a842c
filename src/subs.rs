use vstd::prelude::*;
use crate::ids::SubId;
use crate::requests::{Notification, SerializedRequest};
use crate::wire::{params_hash, params_hash_of};

verus! {

/// An open subscription: its stable local identifier, the identifier that the
/// current connection's server gave it (absent while it is being replayed),
/// and the request that opened it.
#[derive(Clone, Debug)]
pub struct ActiveSub {
    pub local_id: SubId,
    pub server_id: Option<SubId>,
    pub request: SerializedRequest,
}

/// The record with its server identifier replaced.
pub open spec fn with_server(a: ActiveSub, s: Option<SubId>) -> ActiveSub {
    ActiveSub { local_id: a.local_id, server_id: s, request: a.request }
}

/// The open subscriptions, in the order in which they were opened.
pub struct SubscriptionManager {
    pub subs: Vec<ActiveSub>,
}

impl SubscriptionManager {
    /// Local identifiers are unique, a server identifier belongs to at most one
    /// subscription, and each subscription was opened by a subscription request
    /// and is known locally by the hash of that request's parameters.
    pub open spec fn wf(&self) -> bool {
        &&& forall|i: int, j: int|
            0 <= i < j < self.subs@.len() ==> #[trigger] self.subs@[i].local_id
                != #[trigger] self.subs@[j].local_id
        &&& forall|i: int, j: int|
            0 <= i < j < self.subs@.len() && self.subs@[i].server_id is Some
                ==> #[trigger] self.subs@[i].server_id != #[trigger] self.subs@[j].server_id
        &&& forall|i: int|
            0 <= i < self.subs@.len() ==> #[trigger] self.subs@[i].local_id == params_hash_of(
                self.subs@[i].request.params@,
            ) && self.subs@[i].request.opens_subscription()
    }

    pub open spec fn has_local(&self, l: SubId) -> bool {
        exists|i: int| 0 <= i < self.subs@.len() && #[trigger] self.subs@[i].local_id == l
    }

    pub open spec fn serves(&self, sid: SubId) -> bool {
        exists|i: int| 0 <= i < self.subs@.len() && #[trigger] self.subs@[i].server_id == Some(sid)
    }

    /// The local identifier of the subscription that a server identifier
    /// currently belongs to.
    pub open spec fn route(&self, sid: SubId) -> Option<SubId> {
        if self.serves(sid) {
            Some(
                self.subs@[choose|i: int|
                    0 <= i < self.subs@.len() && #[trigger] self.subs@[i].server_id == Some(
                        sid,
                    )].local_id,
            )
        } else {
            None
        }
    }

    /// The subscription under a local identifier that `has_local`.
    pub open spec fn record(&self, l: SubId) -> ActiveSub {
        self.subs@[choose|i: int| 0 <= i < self.subs@.len() && #[trigger] self.subs@[i].local_id == l]
    }

    pub proof fn lemma_route_at(&self, i: int)
        requires
            self.wf(),
            0 <= i < self.subs@.len(),
            self.subs@[i].server_id is Some,
        ensures
            self.route(self.subs@[i].server_id->0) == Some(self.subs@[i].local_id),
    {
        let sid = self.subs@[i].server_id->0;
        assert(self.serves(sid));
        let j = choose|j: int| 0 <= j < self.subs@.len() && #[trigger] self.subs@[j].server_id == Some(sid);
        if j < i {
            assert(self.subs@[j].server_id != self.subs@[i].server_id);
        } else if i < j {
            assert(self.subs@[i].server_id != self.subs@[j].server_id);
        }
    }

    pub proof fn lemma_record_at(&self, i: int)
        requires
            self.wf(),
            0 <= i < self.subs@.len(),
        ensures
            self.has_local(self.subs@[i].local_id),
            self.record(self.subs@[i].local_id) == self.subs@[i],
    {
        let l = self.subs@[i].local_id;
        assert(self.has_local(l));
        let j = choose|j: int| 0 <= j < self.subs@.len() && #[trigger] self.subs@[j].local_id == l;
        if j < i {
            assert(self.subs@[j].local_id != self.subs@[i].local_id);
        } else if i < j {
            assert(self.subs@[i].local_id != self.subs@[j].local_id);
        }
    }

    pub fn new() -> (r: SubscriptionManager)
        ensures
            r.wf(),
            r.subs@.len() == 0,
    {
        SubscriptionManager { subs: Vec::new() }
    }

    pub fn len(&self) -> (r: usize)
        ensures
            r == self.subs@.len(),
    {
        self.subs.len()
    }

    fn find_local(&self, l: SubId) -> (r: Option<usize>)
        ensures
            r matches Some(i) ==> i < self.subs@.len() && self.subs@[i as int].local_id == l,
            r is None ==> !self.has_local(l),
    {
        let mut i: usize = 0;
        while i < self.subs.len()
            invariant
                i <= self.subs@.len(),
                forall|k: int| 0 <= k < i ==> self.subs@[k].local_id != l,
            decreases self.subs@.len() - i,
        {
            if self.subs[i].local_id.same(&l) {
                return Some(i);
            }
            i = i + 1;
        }
        None
    }

    fn find_server(&self, sid: SubId) -> (r: Option<usize>)
        ensures
            r matches Some(i) ==> i < self.subs@.len() && self.subs@[i as int].server_id == Some(sid),
            r is None ==> !self.serves(sid),
    {
        let mut i: usize = 0;
        while i < self.subs.len()
            invariant
                i <= self.subs@.len(),
                forall|k: int| 0 <= k < i ==> self.subs@[k].server_id != Some(sid),
            decreases self.subs@.len() - i,
        {
            match self.subs[i].server_id {
                Some(s) => {
                    if s.same(&sid) {
                        return Some(i);
                    }
                },
                None => {},
            }
            i = i + 1;
        }
        None
    }

    /// Whether a subscription is open under a local identifier.
    pub fn contains(&self, local_id: SubId) -> (r: bool)
        ensures
            r == self.has_local(local_id),
    {
        self.find_local(local_id).is_some()
    }

    /// The local identifier that a server identifier stands for.
    pub fn local_id_for(&self, server_id: SubId) -> (r: Option<SubId>)
        requires
            self.wf(),
        ensures
            r == self.route(server_id),
    {
        match self.find_server(server_id) {
            Some(i) => {
                proof {
                    self.lemma_route_at(i as int);
                }
                Some(self.subs[i].local_id)
            },
            None => None,
        }
    }

    /// Where a notification goes: the local identifier of its subscription and
    /// its payload, or nowhere when its server identifier is unknown.
    pub fn notify(&self, n: Notification) -> (r: Option<(SubId, String)>)
        requires
            self.wf(),
        ensures
            r == match self.route(n.subscription) {
                Some(l) => Some((l, n.result)),
                None => None,
            },
    {
        match self.local_id_for(n.subscription) {
            Some(l) => Some((l, n.result)),
            None => None,
        }
    }
    fn set_server(&mut self, i: usize, s: Option<SubId>)
        requires
            i < old(self).subs@.len(),
        ensures
            final(self).subs@ == old(self).subs@.update(i as int, with_server(old(self).subs@[i as int], s)),
    {
        let ghost s0 = self.subs@;
        let mut a = self.subs.remove(i);
        a.server_id = s;
        self.subs.insert(i, a);
        assert(self.subs@ =~= s0.update(i as int, with_server(s0[i as int], s)));
    }

    /// Route and records after the server identifier of one record changed.
    proof fn lemma_update(old: &SubscriptionManager, new: &SubscriptionManager, i: int, s: Option<SubId>)
        requires
            old.wf(),
            new.wf(),
            0 <= i < old.subs@.len(),
            new.subs@ == old.subs@.update(i, with_server(old.subs@[i], s)),
        ensures
            forall|x: SubId| new.has_local(x) == old.has_local(x),
            forall|x: SubId| old.has_local(x) ==> #[trigger] new.record(x).request == old.record(x).request,
            forall|sid: SubId|
                Some(sid) != s && Some(sid) != old.subs@[i].server_id ==> #[trigger] new.route(sid)
                    == old.route(sid),
            forall|sid: SubId|
                Some(sid) != s && Some(sid) == old.subs@[i].server_id ==> #[trigger] new.route(sid)
                    is None,
            s is Some ==> new.route(s->0) == Some(old.subs@[i].local_id),
    {
        assert forall|x: SubId| new.has_local(x) == old.has_local(x) by {
            if new.has_local(x) {
                let j = choose|j: int| 0 <= j < new.subs@.len() && #[trigger] new.subs@[j].local_id == x;
                assert(old.subs@[j].local_id == x);
            }
            if old.has_local(x) {
                let j = choose|j: int| 0 <= j < old.subs@.len() && #[trigger] old.subs@[j].local_id == x;
                assert(new.subs@[j].local_id == x);
            }
        }
        assert forall|x: SubId| old.has_local(x) implies #[trigger] new.record(x).request == old.record(x).request by {
            let j = choose|j: int| 0 <= j < old.subs@.len() && #[trigger] old.subs@[j].local_id == x;
            old.lemma_record_at(j);
            assert(new.subs@[j].local_id == x);
            new.lemma_record_at(j);
        }
        assert forall|sid: SubId| Some(sid) != s implies #[trigger] new.route(sid) == (if Some(sid) == old.subs@[i].server_id { None } else { old.route(sid) }) by {
            if new.serves(sid) {
                let j = choose|j: int| 0 <= j < new.subs@.len() && #[trigger] new.subs@[j].server_id == Some(sid);
                new.lemma_route_at(j);
                assert(j != i);
                assert(old.subs@[j].server_id == Some(sid));
                old.lemma_route_at(j);
                if Some(sid) == old.subs@[i].server_id {
                    assert(old.subs@[i].server_id != old.subs@[j].server_id || i == j);
                    if i < j {
                        assert(old.subs@[i].server_id != old.subs@[j].server_id);
                    } else {
                        assert(old.subs@[j].server_id != old.subs@[i].server_id);
                    }
                }
            } else {
                if old.serves(sid) && Some(sid) != old.subs@[i].server_id {
                    let j = choose|j: int| 0 <= j < old.subs@.len() && #[trigger] old.subs@[j].server_id == Some(sid);
                    assert(new.subs@[j].server_id == Some(sid));
                }
            }
        }
        if s is Some {
            new.lemma_route_at(i);
        }
    }

    /// Forgets every server identifier; the subscriptions stay.
    pub fn drop_server_ids(&mut self)
        requires
            old(self).wf(),
        ensures
            final(self).wf(),
            final(self).subs@.len() == old(self).subs@.len(),
            forall|i: int|
                0 <= i < final(self).subs@.len() ==> #[trigger] final(self).subs@[i] == with_server(
                    old(self).subs@[i],
                    None,
                ),
            forall|sid: SubId| #[trigger] final(self).route(sid) is None,
            forall|x: SubId| #[trigger] final(self).has_local(x) == old(self).has_local(x),
    {
        let ghost s0 = self.subs@;
        let mut i: usize = 0;
        while i < self.subs.len()
            invariant
                i <= self.subs@.len(),
                self.subs@.len() == s0.len(),
                forall|k: int| 0 <= k < i ==> #[trigger] self.subs@[k] == with_server(s0[k], None),
                forall|k: int| i <= k < s0.len() ==> #[trigger] self.subs@[k] == s0[k],
            decreases s0.len() - i,
        {
            self.set_server(i, None);
            i = i + 1;
        }
        assert forall|sid: SubId| #[trigger] self.route(sid) is None by {
            if self.serves(sid) {
                let j = choose|j: int| 0 <= j < self.subs@.len() && #[trigger] self.subs@[j].server_id == Some(sid);
            }
        }
        assert forall|x: SubId| #[trigger] self.has_local(x) == old(self).has_local(x) by {
            if self.has_local(x) {
                let j = choose|j: int| 0 <= j < self.subs@.len() && #[trigger] self.subs@[j].local_id == x;
                assert(s0[j].local_id == x);
            }
            if old(self).has_local(x) {
                let j = choose|j: int| 0 <= j < s0.len() && #[trigger] s0[j].local_id == x;
                assert(self.subs@[j].local_id == x);
            }
        }
    }
    /// What closing the subscription under `l` leaves: no subscription under
    /// `l` nor any server identifier that led to it, and everything else as it
    /// was.
    pub open spec fn closed_from(&self, prev: SubscriptionManager, l: SubId) -> bool {
        &&& !self.has_local(l)
        &&& forall|x: SubId| x != l ==> #[trigger] self.has_local(x) == prev.has_local(x)
        &&& forall|x: SubId|
            x != l && prev.has_local(x) ==> #[trigger] self.record(x) == prev.record(x)
        &&& forall|sid: SubId| #[trigger]
            self.route(sid) == if prev.route(sid) == Some(l) {
                None
            } else {
                prev.route(sid)
            }
    }

    /// What answering a subscription under `l` with `server_id` leaves:
    /// `server_id` leads to `l`, any other server identifier that led to `l`
    /// leads nowhere, and the others lead where they did.
    pub open spec fn rerouted(&self, prev: SubscriptionManager, l: SubId, server_id: SubId) -> bool {
        &&& self.route(server_id) == Some(l)
        &&& forall|sid: SubId|
            sid != server_id ==> #[trigger] self.route(sid) == if prev.route(sid) == Some(l) {
                None
            } else {
                prev.route(sid)
            }
    }

    /// Closes the subscription under a local identifier, if one is open;
    /// says whether one was.
    pub fn remove_sub(&mut self, local_id: SubId) -> (r: bool)
        requires
            old(self).wf(),
        ensures
            final(self).wf(),
            r == old(self).has_local(local_id),
            final(self).closed_from(*old(self), local_id),
            !r ==> final(self).subs@ == old(self).subs@,
            !final(self).has_local(local_id),
            forall|x: SubId|
                x != local_id ==> #[trigger] final(self).has_local(x) == old(self).has_local(x),
            forall|x: SubId|
                x != local_id && old(self).has_local(x) ==> #[trigger] final(self).record(x)
                    == old(self).record(x),
            forall|sid: SubId| #[trigger]
                final(self).route(sid) == if old(self).route(sid) == Some(local_id) {
                    None
                } else {
                    old(self).route(sid)
                },
    {
        let ghost s0 = self.subs@;
        let ghost o = SubscriptionManager { subs: self.subs };
        match self.find_local(local_id) {
            Some(i) => {
                self.subs.remove(i);
                let ghost n = self.subs@;
                assert forall|j: int| 0 <= j < n.len() implies #[trigger] n[j] == s0[if j < i { j } else { j + 1 }] by {}
                assert(self.wf()) by {
                    assert forall|a: int, b: int| 0 <= a < b < n.len() implies #[trigger] n[a].local_id != #[trigger] n[b].local_id by {
                        let a1 = if a < i { a } else { a + 1 };
                        let b1 = if b < i { b } else { b + 1 };
                        assert(s0[a1].local_id != s0[b1].local_id);
                    }
                    assert forall|a: int, b: int| 0 <= a < b < n.len() && n[a].server_id is Some implies #[trigger] n[a].server_id != #[trigger] n[b].server_id by {
                        let a1 = if a < i { a } else { a + 1 };
                        let b1 = if b < i { b } else { b + 1 };
                        assert(s0[a1].server_id != s0[b1].server_id);
                    }
                    assert forall|a: int| 0 <= a < n.len() implies #[trigger] n[a].local_id == params_hash_of(n[a].request.params@) && n[a].request.opens_subscription() by {
                        let a1 = if a < i { a } else { a + 1 };
                        assert(s0[a1].local_id == params_hash_of(s0[a1].request.params@));
                    }
                }
                assert forall|x: SubId| #[trigger] self.has_local(x) == (old(self).has_local(x) && x != local_id) by {
                    if self.has_local(x) {
                        let j = choose|j: int| 0 <= j < n.len() && #[trigger] n[j].local_id == x;
                        let j1 = if j < i { j } else { j + 1 };
                        assert(s0[j1].local_id == x);
                        if j1 < i {
                            assert(s0[j1].local_id != s0[i as int].local_id);
                        } else {
                            assert(s0[i as int].local_id != s0[j1].local_id);
                        }
                    }
                    if old(self).has_local(x) && x != local_id {
                        let j = choose|j: int| 0 <= j < s0.len() && #[trigger] s0[j].local_id == x;
                        assert(j != i);
                        let j1 = if j < i { j } else { j - 1 };
                        assert(n[j1].local_id == x);
                    }
                }
                assert forall|x: SubId| x != local_id && old(self).has_local(x) implies #[trigger] self.record(x) == old(self).record(x) by {
                    let j = choose|j: int| 0 <= j < s0.len() && #[trigger] s0[j].local_id == x;
                    o.lemma_record_at(j);
                    assert(j != i);
                    let j1 = if j < i { j } else { j - 1 };
                    assert(n[j1].local_id == x);
                    self.lemma_record_at(j1);
                }
                assert forall|sid: SubId| #[trigger] self.route(sid) == if old(self).route(sid) == Some(local_id) { None } else { old(self).route(sid) } by {
                    if self.serves(sid) {
                        let j = choose|j: int| 0 <= j < n.len() && #[trigger] n[j].server_id == Some(sid);
                        self.lemma_route_at(j);
                        let j1 = if j < i { j } else { j + 1 };
                        o.lemma_route_at(j1);
                        if j1 < i {
                            assert(s0[j1].local_id != s0[i as int].local_id);
                        } else {
                            assert(s0[i as int].local_id != s0[j1].local_id);
                        }
                    } else if o.serves(sid) {
                        let j = choose|j: int| 0 <= j < s0.len() && #[trigger] s0[j].server_id == Some(sid);
                        o.lemma_route_at(j);
                        if j != i {
                            let j1 = if j < i { j } else { j - 1 };
                            assert(n[j1].server_id == Some(sid));
                        }
                    }
                }
                true
            },
            None => false,
        }
    }
    /// Records that a subscription request was answered with a server
    /// identifier. A subscription already open under the same local identifier
    /// (the hash of the request's parameters) takes the new server identifier;
    /// otherwise one is opened. Says whether one was opened.
    pub fn upsert(&mut self, request: SerializedRequest, server_id: SubId) -> (created: bool)
        requires
            old(self).wf(),
            request.opens_subscription(),
        ensures
            final(self).wf(),
            created == !old(self).has_local(params_hash_of(request.params@)),
            final(self).rerouted(*old(self), params_hash_of(request.params@), server_id),
            final(self).route(server_id) == Some(params_hash_of(request.params@)),
            forall|x: SubId|
                #[trigger] final(self).has_local(x) == (old(self).has_local(x) || x
                    == params_hash_of(request.params@)),
            forall|x: SubId|
                old(self).has_local(x) ==> #[trigger] final(self).record(x).request == old(
                    self,
                ).record(x).request,
            created ==> final(self).record(params_hash_of(request.params@)).request == request,
            forall|sid: SubId|
                sid != server_id ==> #[trigger] final(self).route(sid) == if old(self).route(sid)
                    == Some(params_hash_of(request.params@)) {
                    None
                } else {
                    old(self).route(sid)
                },
    {
        let h = params_hash(&request.params);
        let ghost o = SubscriptionManager { subs: self.subs };
        match self.find_server(server_id) {
            Some(j) => {
                self.set_server(j, None);
                proof {
                    let n = self.subs@;
                    assert forall|a: int, b: int| 0 <= a < b < n.len() && n[a].server_id is Some implies #[trigger] n[a].server_id != #[trigger] n[b].server_id by {
                        assert(o.subs@[a].server_id != o.subs@[b].server_id);
                    }
                    SubscriptionManager::lemma_update(&o, self, j as int, None);
                    assert(!self.serves(server_id)) by {
                        if self.serves(server_id) {
                            let k = choose|k: int| 0 <= k < n.len() && #[trigger] n[k].server_id == Some(server_id);
                            if k < j {
                                assert(o.subs@[k].server_id != o.subs@[j as int].server_id);
                            } else {
                                assert(o.subs@[j as int].server_id != o.subs@[k].server_id);
                            }
                        }
                    }
                }
            },
            None => {},
        }
        let ghost m = SubscriptionManager { subs: self.subs };
        match self.find_local(h) {
            Some(i) => {
                let ghost prev = self.subs@[i as int].server_id;
                self.set_server(i, Some(server_id));
                proof {
                    let n = self.subs@;
                    assert forall|a: int, b: int| 0 <= a < b < n.len() && n[a].server_id is Some implies #[trigger] n[a].server_id != #[trigger] n[b].server_id by {
                        if a != i && b != i {
                            assert(m.subs@[a].server_id != m.subs@[b].server_id);
                        } else if a == i {
                            assert(m.subs@[b].server_id != Some(server_id));
                        } else {
                            assert(m.subs@[a].server_id != Some(server_id));
                        }
                    }
                    SubscriptionManager::lemma_update(&m, self, i as int, Some(server_id));
                    assert forall|sid: SubId| sid != server_id implies #[trigger] self.route(sid) == if old(self).route(sid) == Some(h) { None } else { old(self).route(sid) } by {
                        if Some(sid) == prev {
                            m.lemma_route_at(i as int);
                        }
                        assert(self.route(sid) == if Some(sid) == prev { None } else { m.route(sid) });
                    }
                }
                false
            },
            None => {
                self.subs.push(ActiveSub { local_id: h, server_id: Some(server_id), request });
                proof {
                    let n = self.subs@;
                    let last = n.len() - 1;
                    assert forall|a: int, b: int| 0 <= a < b < n.len() implies #[trigger] n[a].local_id != #[trigger] n[b].local_id by {
                        if b < last {
                            assert(m.subs@[a].local_id != m.subs@[b].local_id);
                        } else {
                            assert(m.subs@[a].local_id == n[a].local_id);
                        }
                    }
                    assert forall|a: int, b: int| 0 <= a < b < n.len() && n[a].server_id is Some implies #[trigger] n[a].server_id != #[trigger] n[b].server_id by {
                        if b < last {
                            assert(m.subs@[a].server_id != m.subs@[b].server_id);
                        } else {
                            assert(m.subs@[a].server_id == n[a].server_id);
                        }
                    }
                    assert(self.wf());
                    self.lemma_route_at(last);
                    self.lemma_record_at(last);
                    assert forall|x: SubId| #[trigger] self.has_local(x) == (m.has_local(x) || x == h) by {
                        if m.has_local(x) {
                            let j = choose|j: int| 0 <= j < m.subs@.len() && #[trigger] m.subs@[j].local_id == x;
                            assert(n[j].local_id == x);
                        }
                        if self.has_local(x) && x != h {
                            let j = choose|j: int| 0 <= j < n.len() && #[trigger] n[j].local_id == x;
                            assert(m.subs@[j].local_id == x);
                        }
                    }
                    assert forall|x: SubId| m.has_local(x) implies #[trigger] self.record(x).request == m.record(x).request by {
                        let j = choose|j: int| 0 <= j < m.subs@.len() && #[trigger] m.subs@[j].local_id == x;
                        m.lemma_record_at(j);
                        assert(n[j] == m.subs@[j]);
                        self.lemma_record_at(j);
                    }
                    assert forall|sid: SubId| sid != server_id implies #[trigger] self.route(sid) == m.route(sid) by {
                        if self.serves(sid) {
                            let j = choose|j: int| 0 <= j < n.len() && #[trigger] n[j].server_id == Some(sid);
                            self.lemma_route_at(j);
                            assert(m.subs@[j].server_id == Some(sid));
                            m.lemma_route_at(j);
                        } else if m.serves(sid) {
                            let j = choose|j: int| 0 <= j < m.subs@.len() && #[trigger] m.subs@[j].server_id == Some(sid);
                            assert(n[j].server_id == Some(sid));
                        }
                        assert(m.route(sid) != Some(h)) by {
                            if m.serves(sid) {
                                let j = choose|j: int| 0 <= j < m.subs@.len() && #[trigger] m.subs@[j].server_id == Some(sid);
                                m.lemma_route_at(j);
                            }
                        }
                    }
                }
                true
            },
        }
    }
}

} // verus!
