use vstd::prelude::*;
use crate::ids::SubId;
use crate::requests::{classify_spec, InFlight, Payload, RequestManager, Response, ResponseRoute};
use crate::service::{replay, replay_is_last, resent_frames, PubSubCore};
use crate::subs::SubscriptionManager;
use crate::wire::{json_u256, params_hash_of};

verus! {

/// A subscription keeps its local identifier across a reconnect: the replay
/// of the request that opened it, answered with any new server identifier,
/// is taken as opening a subscription under that identifier, and the local
/// identifier that this yields is the one the subscription had.
pub proof fn law_local_id_survives_reconnect<W>(
    subs: SubscriptionManager,
    l: SubId,
    raw: String,
    new_server_id: SubId,
)
    requires
        subs.wf(),
        subs.has_local(l),
        json_u256(raw@) == Some(new_server_id),
    ensures
        classify_spec(
            replay::<W>(subs.record(l).request),
            Response { id: subs.record(l).request.id, payload: Payload::Success(raw) },
        ) == ResponseRoute::Subscription(new_server_id, replay::<W>(subs.record(l).request)),
        params_hash_of(subs.record(l).request.params@) == l,
{
    let i = choose|i: int| 0 <= i < subs.subs@.len() && #[trigger] subs.subs@[i].local_id == l;
    subs.lemma_record_at(i);
}

/// A request pending when the connection broke is answered once: the first
/// response under its identifier is routed with its waiter, and the response
/// takes it out, so that a later one under the same identifier goes nowhere.
pub proof fn law_pending_answered_once<W>(
    pending: RequestManager<W>,
    f: InFlight<W>,
    resp: Response,
    answered: RequestManager<W>,
)
    requires
        pending.wf(),
        pending.reqs@.contains(f),
        resp.id@ == f.request.id@,
        !answered.has_id(resp.id@),
    ensures
        pending.has_id(resp.id@),
        classify_spec(pending.entry(resp.id@), resp) == classify_spec(f, resp),
        classify_spec(f, resp) matches ResponseRoute::Deliver(w, r) ==> w == f.waiter && r == resp,
        classify_spec(f, resp) matches ResponseRoute::Subscription(_, g) ==> g == f,
        !answered.has_id(resp.id@),
{
    let i = choose|i: int| 0 <= i < pending.reqs@.len() && pending.reqs@[i] == f;
    pending.lemma_entry_at(i);
}

/// Once the server identifiers are forgotten and a subscription is answered
/// again under a new server identifier, notifications under the new one
/// reach it and those under any other identifier, such as the stale one,
/// reach nothing.
pub proof fn law_stale_server_ids_dropped(
    dropped: SubscriptionManager,
    answered: SubscriptionManager,
    l: SubId,
    new_server_id: SubId,
    stale_server_id: SubId,
)
    requires
        forall|sid: SubId| #[trigger] dropped.route(sid) is None,
        answered.rerouted(dropped, l, new_server_id),
        stale_server_id != new_server_id,
    ensures
        answered.route(new_server_id) == Some(l),
        answered.route(stale_server_id) is None,
{
    assert(dropped.route(stale_server_id) is None);
}

/// After a subscription is closed, no server identifier leads to it, and
/// one that led to it leads nowhere.
pub proof fn law_unsubscribed_gets_nothing(
    prev: SubscriptionManager,
    next: SubscriptionManager,
    l: SubId,
    sid: SubId,
)
    requires
        next.closed_from(prev, l),
    ensures
        next.route(sid) != Some(l),
        prev.route(sid) == Some(l) ==> next.route(sid) is None,
        !next.has_local(l),
{
    if next.route(sid) == Some(l) {
        assert(prev.route(sid) != Some(l));
    }
}

/// For a local identifier handed out while its subscription has a server
/// identifier, a receiver can be had for it, and a notification under that
/// server identifier goes to it.
pub proof fn law_get_sub_then_notify(subs: SubscriptionManager, l: SubId, sid: SubId)
    requires
        subs.wf(),
        subs.has_local(l),
        subs.record(l).server_id == Some(sid),
    ensures
        subs.has_local(l),
        subs.route(sid) == Some(l),
{
    let i = choose|i: int| 0 <= i < subs.subs@.len() && #[trigger] subs.subs@[i].local_id == l;
    subs.lemma_record_at(i);
    subs.lemma_route_at(i);
}

/// A request pending when the connection broke, whose identifier no
/// subscription request shares, is still pending after the reconnect as the
/// same entry with the same waiter, and its frame is sent again once, at its
/// place among the pending requests.
pub proof fn law_pending_request_survives_reconnect<W>(
    prev: PubSubCore<W>,
    next: PubSubCore<W>,
    frames: Seq<String>,
    f: InFlight<W>,
)
    requires
        prev.wf(),
        next.wf(),
        next.resumed(prev, frames),
        prev.in_flights.reqs@.contains(f),
        forall|j: int|
            0 <= j < prev.subs.subs@.len() ==> #[trigger] prev.subs.subs@[j].request.id@
                != f.request.id@,
    ensures
        next.in_flights.has_id(f.request.id@),
        next.in_flights.entry(f.request.id@) == f,
        exists|k: int|
            0 <= k < prev.in_flights.reqs@.len() && prev.in_flights.reqs@[k] == f && frames[k]
                == f.request.frame,
{
    assert(next.in_flights.reqs@.contains(f));
    let i = choose|i: int| 0 <= i < next.in_flights.reqs@.len() && next.in_flights.reqs@[i] == f;
    next.in_flights.lemma_entry_at(i);
    let k = choose|k: int| 0 <= k < prev.in_flights.reqs@.len() && prev.in_flights.reqs@[k] == f;
    assert(frames[k] == resent_frames(prev)[k]);
}

/// After a reconnect every subscription keeps its local identifier and its
/// old server identifier leads nowhere; its request is sent again once, after
/// the pending requests, and, unless a later subscription request has the same
/// identifier, is pending again with no waiter.
pub proof fn law_subscription_replayed_after_reconnect<W>(
    prev: PubSubCore<W>,
    next: PubSubCore<W>,
    frames: Seq<String>,
    j: int,
    old_server_id: SubId,
)
    requires
        prev.wf(),
        next.wf(),
        next.resumed(prev, frames),
        0 <= j < prev.subs.subs@.len(),
    ensures
        next.subs.has_local(prev.subs.subs@[j].local_id),
        next.subs.route(old_server_id) is None,
        frames[prev.in_flights.reqs@.len() + j] == prev.subs.subs@[j].request.frame,
        replay_is_last(prev.subs, j) ==> next.in_flights.entry(
            prev.subs.subs@[j].request.id@,
        ) == replay::<W>(prev.subs.subs@[j].request),
{
    prev.subs.lemma_record_at(j);
    assert(next.subs.route(old_server_id) is None);
    let n = prev.in_flights.reqs@.len();
    assert(frames[n + j] == resent_frames(prev)[n + j]);
    if replay_is_last(prev.subs, j) {
        let g = replay::<W>(prev.subs.subs@[j].request);
        assert(next.in_flights.reqs@.contains(g));
        let i = choose|i: int| 0 <= i < next.in_flights.reqs@.len() && next.in_flights.reqs@[i] == g;
        next.in_flights.lemma_entry_at(i);
    }
}

} // verus!
