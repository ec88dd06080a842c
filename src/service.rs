use vstd::prelude::*;
use crate::ids::{IdView, RequestId, SubId};
use crate::requests::{
    classify_spec, InFlight, Notification, Payload, PubSubItem, RequestManager, Response,
    ResponseRoute, SerializedRequest,
};
use crate::subs::{with_server, SubscriptionManager};
use crate::wire::{call_frame, call_frame_of, id_json, id_json_of, params_hash_of};

verus! {

/// Why the service stops.
#[derive(Clone, Copy, Debug, PartialEq, Eq, Structural)]
pub enum ServiceError {
    /// A frame could not be handed to the backend: its task is gone.
    BackendGone,
    /// The connector could not make a new backend.
    ReconnectFailed,
    /// An outbound frame or a rewritten response could not be serialized.
    Serialization,
}

/// What the caller of the service does after an item from the backend.
pub enum Effect<W> {
    /// Nothing.
    Nothing,
    /// Hand the response to the waiter, if there is one.
    Reply(Option<W>, Response),
    /// Broadcast the payload to the receivers of the subscription with the
    /// given local identifier.
    Publish(SubId, String),
    /// A subscription is open under the given local identifier: open its
    /// broadcast channel if the flag says it is new, and hand the rewritten
    /// response to the waiter, if there is one.
    Subscribed(SubId, bool, Option<W>, Response),
}

/// The state that the service loop owns: the pending requests and the open
/// subscriptions.
pub struct PubSubCore<W> {
    pub in_flights: RequestManager<W>,
    pub subs: SubscriptionManager,
}

/// The method by which a subscription is closed on the wire.
pub open spec fn unsubscribe_method() -> Seq<char> {
    "eth_unsubscribe"@
}

/// The frame that asks the peer to close a subscription.
pub open spec fn unsubscribe_frame(local_id: SubId) -> Seq<char> {
    call_frame_of(IdView::Null, unsubscribe_method(), local_id)
}

/// The effect that announces a subscription opened by `f`: it names the
/// local identifier, says whether the subscription is new, and carries `f`'s
/// waiter and a success response to `f`'s request whose payload is the local
/// identifier's JSON text.
pub open spec fn subscribed<W>(eff: Effect<W>, f: InFlight<W>, created: bool) -> bool {
    match eff {
        Effect::Subscribed(l, c, w, resp) => {
            &&& l == params_hash_of(f.request.params@)
            &&& c == created
            &&& w == f.waiter
            &&& resp.id@ == f.request.id@
            &&& resp.payload matches Payload::Success(s) && s@ == id_json_of(l)
        },
        _ => false,
    }
}

/// A subscription request made pending again, with no waiter.
pub open spec fn replay<W>(request: SerializedRequest) -> InFlight<W> {
    InFlight { request, waiter: None }
}

/// No subscription opened after the `j`-th was opened by a request with the
/// same identifier, so that the replay of the `j`-th is not displaced.
pub open spec fn replay_is_last(subs: SubscriptionManager, j: int) -> bool {
    forall|k: int|
        j < k < subs.subs@.len() ==> #[trigger] subs.subs@[k].request.id@ != subs.subs@[j].request.id@
}

/// The effect that announces a subscription under `local_id`, given the JSON
/// text of `local_id`, or the failure where that text could not be made.
pub fn announce<W>(
    local_id: SubId,
    created: bool,
    waiter: Option<W>,
    id: RequestId,
    text: Option<String>,
) -> (r: Result<Effect<W>, ServiceError>)
    ensures
        r == match text {
            Some(t) => Ok::<Effect<W>, ServiceError>(
                Effect::Subscribed(local_id, created, waiter, Response { id, payload: Payload::Success(t) }),
            ),
            None => Err(ServiceError::Serialization),
        },
{
    match text {
        Some(t) => Ok(Effect::Subscribed(local_id, created, waiter, Response { id, payload: Payload::Success(t) })),
        None => Err(ServiceError::Serialization),
    }
}

/// The frames that a reconnect sends: those of the pending requests, oldest
/// first, then those of the subscription requests, in the order in which the
/// subscriptions were opened.
pub open spec fn resent_frames<W>(core: PubSubCore<W>) -> Seq<String> {
    core.in_flights.reqs@.map_values(|f: InFlight<W>| f.request.frame) + core.subs.subs@.map_values(
        |a: crate::subs::ActiveSub| a.request.frame,
    )
}

impl<W> PubSubCore<W> {
    /// What a reconnect leaves, with `frames` sent: the frames of
    /// `resent_frames(prev)`, each pending request whose identifier no
    /// subscription request shares still pending, each subscription request
    /// pending again unless a later one has its identifier, nothing else
    /// pending, and every server identifier forgotten.
    pub open spec fn resumed(&self, prev: PubSubCore<W>, frames: Seq<String>) -> bool {
        &&& frames == resent_frames(prev)
        &&& forall|f: InFlight<W>|
            prev.in_flights.reqs@.contains(f) && (forall|j: int|
                0 <= j < prev.subs.subs@.len() ==> #[trigger] prev.subs.subs@[j].request.id@
                    != f.request.id@) ==> self.in_flights.reqs@.contains(f)
        &&& forall|j: int|
            0 <= j < prev.subs.subs@.len() && replay_is_last(prev.subs, j)
                ==> self.in_flights.reqs@.contains(replay::<W>(#[trigger] prev.subs.subs@[j].request))
        &&& forall|f: InFlight<W>|
            #[trigger] self.in_flights.reqs@.contains(f) ==> prev.in_flights.reqs@.contains(f)
                || exists|j: int|
                0 <= j < prev.subs.subs@.len() && f == replay::<W>(#[trigger] prev.subs.subs@[j].request)
        &&& forall|sid: SubId| #[trigger] self.subs.route(sid) is None
        &&& forall|x: SubId| #[trigger] self.subs.has_local(x) == prev.subs.has_local(x)
    }

    pub open spec fn wf(&self) -> bool {
        self.in_flights.wf() && self.subs.wf()
    }

    pub fn new() -> (r: PubSubCore<W>)
        ensures
            r.wf(),
            r.in_flights.reqs@.len() == 0,
            r.subs.subs@.len() == 0,
    {
        PubSubCore { in_flights: RequestManager::new(), subs: SubscriptionManager::new() }
    }

    /// Takes a request from the frontend: it becomes pending, and its frame is
    /// what goes to the backend.
    pub fn service_request(&mut self, in_flight: InFlight<W>) -> (frame: String)
        requires
            old(self).wf(),
        ensures
            final(self).wf(),
            frame == in_flight.request.frame,
            final(self).subs == old(self).subs,
            final(self).in_flights.reqs@.last() == in_flight,
            final(self).in_flights.reqs@.len() == old(self).in_flights.reqs@.len() + if old(self).in_flights.has_id(in_flight.request.id@) {
                0int
            } else {
                1int
            },
            forall|f: InFlight<W>|
                f.request.id@ != in_flight.request.id@ ==> (final(self).in_flights.reqs@.contains(
                    f,
                ) <==> old(self).in_flights.reqs@.contains(f)),
    {
        let frame = in_flight.request.frame.clone();
        self.in_flights.insert(in_flight);
        frame
    }

    /// Whether a receiver can be handed out for a local identifier.
    pub fn service_get_sub(&self, local_id: SubId) -> (r: bool)
        ensures
            r == self.subs.has_local(local_id),
    {
        self.subs.contains(local_id)
    }

    /// Closes a subscription; the frame that tells the peer so is returned.
    /// Closing one that is not open changes nothing and still yields the frame.
    pub fn service_unsubscribe(&mut self, local_id: SubId) -> (r: Result<String, ServiceError>)
        requires
            old(self).wf(),
        ensures
            final(self).wf(),
            final(self).in_flights == old(self).in_flights,
            r is Ok,
            r->Ok_0@ == unsubscribe_frame(local_id),
            final(self).subs.closed_from(old(self).subs, local_id),
            !old(self).subs.has_local(local_id) ==> final(self).subs.subs@ == old(self).subs.subs@,
    {
        let method = "eth_unsubscribe".to_owned();
        let frame = call_frame(&RequestId::Null, &method, local_id);
        self.close_with(local_id, frame)
    }

    /// Closes a subscription given the frame that tells the peer so, or fails
    /// with nothing changed where that frame could not be made.
    pub fn close_with(&mut self, local_id: SubId, frame: Option<String>) -> (r: Result<
        String,
        ServiceError,
    >)
        requires
            old(self).wf(),
        ensures
            final(self).wf(),
            final(self).in_flights == old(self).in_flights,
            r == match frame {
                Some(f) => Ok::<String, ServiceError>(f),
                None => Err(ServiceError::Serialization),
            },
            frame is Some ==> final(self).subs.closed_from(old(self).subs, local_id),
            frame is Some && !old(self).subs.has_local(local_id) ==> final(self).subs.subs@ == old(self).subs.subs@,
            frame is None ==> final(self).subs == old(self).subs,
    {
        match frame {
            Some(f) => {
                self.subs.remove_sub(local_id);
                Ok(f)
            },
            None => Err(ServiceError::Serialization),
        }
    }

    /// Opens or refreshes the subscription that a response announced, and
    /// rewrites the response so that it carries the local identifier.
    pub fn handle_sub_response(&mut self, in_flight: InFlight<W>, server_id: SubId) -> (r: Result<
        Effect<W>,
        ServiceError,
    >)
        requires
            old(self).wf(),
            in_flight.request.opens_subscription(),
        ensures
            final(self).wf(),
            final(self).in_flights == old(self).in_flights,
            final(self).subs.rerouted(old(self).subs, params_hash_of(in_flight.request.params@), server_id),
            forall|x: SubId|
                #[trigger] final(self).subs.has_local(x) == (old(self).subs.has_local(x) || x
                    == params_hash_of(in_flight.request.params@)),
            r is Ok,
            subscribed(
                r->Ok_0,
                in_flight,
                !old(self).subs.has_local(params_hash_of(in_flight.request.params@)),
            ),
    {
        let id = in_flight.request.id.duplicate();
        let waiter = in_flight.waiter;
        let created = self.subs.upsert(in_flight.request, server_id);
        match self.subs.local_id_for(server_id) {
            Some(local_id) => announce(local_id, created, waiter, id, id_json(local_id)),
            None => Err(ServiceError::Serialization),
        }
    }

    /// Handles an item from the backend.
    pub fn handle_item(&mut self, item: PubSubItem) -> (r: Result<Effect<W>, ServiceError>)
        requires
            old(self).wf(),
        ensures
            final(self).wf(),
            item matches PubSubItem::Notification(n) ==> *final(self) == *old(self) && r == Ok::<
                Effect<W>,
                ServiceError,
            >(
                match old(self).subs.route(n.subscription) {
                    Some(l) => Effect::Publish(l, n.result),
                    None => Effect::Nothing,
                },
            ),
            item matches PubSubItem::Response(resp) ==> !final(self).in_flights.has_id(resp.id@),
            item matches PubSubItem::Response(resp) ==> forall|f: InFlight<W>|
                f.request.id@ != resp.id@ ==> (final(self).in_flights.reqs@.contains(f)
                    <==> old(self).in_flights.reqs@.contains(f)),
            item matches PubSubItem::Response(resp) ==> (!old(self).in_flights.has_id(resp.id@)
                ==> final(self).in_flights.reqs@ == old(self).in_flights.reqs@ && final(self).subs
                == old(self).subs && r == Ok::<Effect<W>, ServiceError>(
                Effect::Nothing,
            )),
            item matches PubSubItem::Response(resp) ==> (old(self).in_flights.has_id(resp.id@)
                ==> match classify_spec(old(self).in_flights.entry(resp.id@), resp) {
                ResponseRoute::Deliver(w, rr) => final(self).subs == old(self).subs && r == Ok::<
                    Effect<W>,
                    ServiceError,
                >(Effect::Reply(w, rr)),
                ResponseRoute::Subscription(sid, f) => final(self).subs.rerouted(
                    old(self).subs,
                    params_hash_of(f.request.params@),
                    sid,
                ) && (forall|x: SubId|
                    #[trigger] final(self).subs.has_local(x) == (old(self).subs.has_local(x) || x
                        == params_hash_of(f.request.params@))) && (r is Ok ==> subscribed(
                    r->Ok_0,
                    f,
                    !old(self).subs.has_local(params_hash_of(f.request.params@)),
                )) && (r is Err ==> r->Err_0 == ServiceError::Serialization),
                ResponseRoute::Discard => false,
            }),
    {
        match item {
            PubSubItem::Response(resp) => {
                let ghost rid = resp.id@;
                let ghost before = self.in_flights;
                let route = self.in_flights.handle_response(resp);
                match route {
                    ResponseRoute::Discard => Ok(Effect::Nothing),
                    ResponseRoute::Deliver(w, rr) => Ok(Effect::Reply(w, rr)),
                    ResponseRoute::Subscription(sid, f) => {
                        proof {
                            let i = choose|i: int| 0 <= i < before.reqs@.len() && #[trigger] before.reqs@[i].request.id@ == rid;
                            before.lemma_entry_at(i);
                        }
                        self.handle_sub_response(f, sid)
                    },
                }
            },
            PubSubItem::Notification(n) => match self.subs.notify(n) {
                Some((l, payload)) => Ok(Effect::Publish(l, payload)),
                None => Ok(Effect::Nothing),
            },
        }
    }
    /// Completes a reconnect, once the new backend is in place and the old one
    /// was drained: returns the frames of all pending requests, oldest first,
    /// then those of all subscription requests, in the order in which the
    /// subscriptions were opened. Pending requests stay pending with their
    /// waiters; the server identifiers are forgotten, and each subscription
    /// request becomes pending again with no waiter.
    pub fn resume(&mut self) -> (frames: Vec<String>)
        requires
            old(self).wf(),
        ensures
            final(self).wf(),
            final(self).resumed(*old(self), frames@),
            frames@.len() == old(self).in_flights.reqs@.len() + old(self).subs.subs@.len(),
            forall|k: int|
                0 <= k < old(self).in_flights.reqs@.len() ==> #[trigger] frames@[k] == old(self).in_flights.reqs@[k].request.frame,
            forall|j: int|
                0 <= j < old(self).subs.subs@.len() ==> #[trigger] frames@[old(self).in_flights.reqs@.len() + j] == old(self).subs.subs@[j].request.frame,
            final(self).subs.subs@.len() == old(self).subs.subs@.len(),
            forall|j: int|
                0 <= j < old(self).subs.subs@.len() ==> #[trigger] final(self).subs.subs@[j]
                    == with_server(old(self).subs.subs@[j], None),
            forall|sid: SubId| #[trigger] final(self).subs.route(sid) is None,
            forall|x: SubId| #[trigger] final(self).subs.has_local(x) == old(self).subs.has_local(x),
            forall|f: InFlight<W>|
                old(self).in_flights.reqs@.contains(f) && (forall|j: int|
                    0 <= j < old(self).subs.subs@.len() ==> #[trigger] old(self).subs.subs@[j].request.id@ != f.request.id@) ==> final(self).in_flights.reqs@.contains(f),
            forall|j: int|
                0 <= j < old(self).subs.subs@.len() && replay_is_last(old(self).subs, j) ==> final(self).in_flights.reqs@.contains(replay::<W>(#[trigger] old(self).subs.subs@[j].request)),
            forall|f: InFlight<W>|
                #[trigger] final(self).in_flights.reqs@.contains(f) ==> old(self).in_flights.reqs@.contains(f)
                    || exists|j: int|
                    0 <= j < old(self).subs.subs@.len() && f == replay::<W>(
                        #[trigger] old(self).subs.subs@[j].request,
                    ),
    {
        let ghost s0 = self.subs.subs@;
        let ghost r0 = self.in_flights.reqs@;
        let ghost n = r0.len();
        let mut frames = self.in_flights.frames();
        self.subs.drop_server_ids();
        let ghost subs1 = self.subs;
        let mut i: usize = 0;
        while i < self.subs.len()
            invariant
                self.wf(),
                self.subs == subs1,
                subs1.subs@.len() == s0.len(),
                forall|j: int| 0 <= j < s0.len() ==> #[trigger] subs1.subs@[j] == with_server(s0[j], None),
                i <= s0.len(),
                frames@.len() == n + i,
                forall|k: int| 0 <= k < n ==> #[trigger] frames@[k] == r0[k].request.frame,
                forall|j: int| 0 <= j < i ==> #[trigger] frames@[n + j] == s0[j].request.frame,
                forall|f: InFlight<W>|
                    r0.contains(f) && (forall|j: int| 0 <= j < i ==> #[trigger] s0[j].request.id@ != f.request.id@)
                        ==> self.in_flights.reqs@.contains(f),
                forall|j: int|
                    0 <= j < i && (forall|k: int| j < k < i ==> #[trigger] s0[k].request.id@ != s0[j].request.id@)
                        ==> self.in_flights.reqs@.contains(replay::<W>(#[trigger] s0[j].request)),
                forall|f: InFlight<W>|
                    #[trigger] self.in_flights.reqs@.contains(f) ==> r0.contains(f) || exists|j: int|
                        0 <= j < i && f == replay::<W>(#[trigger] s0[j].request),
            decreases s0.len() - i,
        {
            let req = self.subs.subs[i].request.duplicate();
            let frame = req.frame.clone();
            let ghost before = self.in_flights.reqs@;
            self.in_flights.insert(InFlight { request: req, waiter: None });
            frames.push(frame);
            proof {
                let me = self.in_flights.reqs@;
                assert(me.contains(replay::<W>(s0[i as int].request))) by {
                    assert(me[me.len() - 1] == replay::<W>(s0[i as int].request));
                }
                assert forall|f: InFlight<W>|
                    r0.contains(f) && (forall|j: int| 0 <= j < i + 1 ==> #[trigger] s0[j].request.id@ != f.request.id@)
                        implies me.contains(f) by {
                    assert(s0[i as int].request.id@ != f.request.id@);
                }
                assert forall|j: int|
                    0 <= j < i + 1 && (forall|k: int| j < k < i + 1 ==> #[trigger] s0[k].request.id@ != s0[j].request.id@)
                        implies me.contains(replay::<W>(#[trigger] s0[j].request)) by {
                    if j < i {
                        assert(s0[i as int].request.id@ != s0[j].request.id@);
                        assert(before.contains(replay::<W>(s0[j].request)));
                    }
                }
                assert forall|f: InFlight<W>|
                    #[trigger] me.contains(f) implies r0.contains(f) || exists|j: int|
                        0 <= j < i + 1 && f == replay::<W>(#[trigger] s0[j].request) by {
                    let new_one = replay::<W>(s0[i as int].request);
                    if f.request.id@ != new_one.request.id@ {
                        assert(before.contains(f));
                        if !r0.contains(f) {
                            let j = choose|j: int| 0 <= j < i && f == replay::<W>(#[trigger] s0[j].request);
                            assert(0 <= j < i + 1 && f == replay::<W>(s0[j].request));
                        }
                    } else {
                        let a = choose|a: int| 0 <= a < me.len() && me[a] == f;
                        let b = me.len() - 1;
                        if a != b {
                            assert(me[a].request.id@ == me[b].request.id@);
                            assert(false);
                        }
                        assert(f == replay::<W>(s0[i as int].request));
                    }
                }
                assert forall|j: int| 0 <= j < i + 1 implies #[trigger] frames@[n + j] == s0[j].request.frame by {
                    if j == i {
                    }
                }
            }
            i = i + 1;
        }
        proof {
            let rs = resent_frames(*old(self));
            let a = r0.map_values(|f: InFlight<W>| f.request.frame);
            let b = s0.map_values(|x: crate::subs::ActiveSub| x.request.frame);
            assert(rs.len() == frames@.len());
            assert forall|k: int| 0 <= k < frames@.len() implies frames@[k] == rs[k] by {
                if k < n {
                    assert(rs[k] == a[k]);
                } else {
                    assert(rs[k] == b[k - n]);
                    assert(frames@[n + (k - n)] == s0[k - n].request.frame);
                }
            }
            assert(frames@ =~= rs);
        }
        frames
    }
}

} // verus!
