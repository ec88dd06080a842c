use vstd::prelude::*;
use crate::ids::{IdView, RequestId, SubId};
use crate::wire::{decode_u256, json_u256};

verus! {

/// A request as it was serialized by the caller, kept verbatim for replay.
#[derive(Clone, Debug)]
pub struct SerializedRequest {
    pub id: RequestId,
    pub method: String,
    /// Marks a request that opens a subscription under a method other than
    /// `eth_subscribe`.
    pub subscription: bool,
    /// The JSON text of the parameters; empty where there are none.
    pub params: String,
    /// The whole request as it goes on the wire.
    pub frame: String,
}

impl SerializedRequest {
    /// Whether a successful response to this request opens a subscription.
    pub open spec fn opens_subscription(&self) -> bool {
        self.subscription || self.method@ == "eth_subscribe"@
    }

    pub fn is_subscription(&self) -> (r: bool)
        ensures
            r == self.opens_subscription(),
    {
        let m = "eth_subscribe".to_owned();
        self.subscription || self.method == m
    }

    pub fn duplicate(&self) -> (r: SerializedRequest)
        ensures
            r == *self,
    {
        SerializedRequest {
            id: self.id.duplicate(),
            method: self.method.clone(),
            subscription: self.subscription,
            params: self.params.clone(),
            frame: self.frame.clone(),
        }
    }
}

/// One pending request and whoever waits for its response, if anyone does.
pub struct InFlight<W> {
    pub request: SerializedRequest,
    pub waiter: Option<W>,
}

impl<W> InFlight<W> {
    pub fn new(request: SerializedRequest, waiter: W) -> (r: InFlight<W>)
        ensures
            r.request == request,
            r.waiter == Some(waiter),
    {
        InFlight { request, waiter: Some(waiter) }
    }

    pub fn request(&self) -> (r: &SerializedRequest)
        ensures
            *r == self.request,
    {
        &self.request
    }
}

/// The error object of a failed JSON-RPC call.
#[derive(Clone, Debug)]
pub struct ErrorObject {
    pub code: i64,
    pub message: String,
    pub data: Option<String>,
}

/// The payload of a response: a raw JSON result or an error.
#[derive(Clone, Debug)]
pub enum Payload {
    Success(String),
    Failure(ErrorObject),
}

#[derive(Clone, Debug)]
pub struct Response {
    pub id: RequestId,
    pub payload: Payload,
}

/// A message from the peer on a subscription, under the peer's identifier.
#[derive(Clone, Debug)]
pub struct Notification {
    pub subscription: SubId,
    pub result: String,
}

/// What arrives from the backend.
#[derive(Clone, Debug)]
pub enum PubSubItem {
    Response(Response),
    Notification(Notification),
}

/// Where a response goes.
pub enum ResponseRoute<W> {
    /// Nobody waits for it.
    Discard,
    /// To the waiter of the request, as it came.
    Deliver(Option<W>, Response),
    /// It opened a subscription under the given server identifier.
    Subscription(SubId, InFlight<W>),
}

/// How a response to a pending request is routed.
pub open spec fn classify_spec<W>(f: InFlight<W>, resp: Response) -> ResponseRoute<W> {
    match resp.payload {
        Payload::Success(raw) => if f.request.opens_subscription() && json_u256(raw@) is Some {
            ResponseRoute::Subscription(json_u256(raw@)->0, f)
        } else {
            ResponseRoute::Deliver(f.waiter, resp)
        },
        Payload::Failure(_) => ResponseRoute::Deliver(f.waiter, resp),
    }
}

/// Routes a response to a pending request, given what its payload decoded
/// to as a 256-bit integer (`None` where it was not decoded or did not
/// decode): a decoded value opens a subscription under it.
pub fn route_decoded<W>(f: InFlight<W>, resp: Response, decoded: Option<SubId>) -> (r: ResponseRoute<W>)
    ensures
        r == match decoded {
            Some(sid) => ResponseRoute::Subscription(sid, f),
            None => ResponseRoute::Deliver(f.waiter, resp),
        },
{
    match decoded {
        Some(sid) => ResponseRoute::Subscription(sid, f),
        None => ResponseRoute::Deliver(f.waiter, resp),
    }
}

pub fn classify<W>(f: InFlight<W>, resp: Response) -> (r: ResponseRoute<W>)
    ensures
        r == classify_spec(f, resp),
{
    let mut decoded: Option<SubId> = None;
    if f.request.is_subscription() {
        if let Payload::Success(raw) = &resp.payload {
            decoded = decode_u256(raw);
        }
    }
    route_decoded(f, resp, decoded)
}

/// The pending requests, at most one per request identifier, oldest first.
pub struct RequestManager<W> {
    pub reqs: Vec<InFlight<W>>,
}

impl<W> RequestManager<W> {
    pub open spec fn wf(&self) -> bool {
        forall|i: int, j: int|
            0 <= i < j < self.reqs@.len() ==> #[trigger] self.reqs@[i].request.id@
                != #[trigger] self.reqs@[j].request.id@
    }

    pub open spec fn has_id(&self, id: IdView) -> bool {
        exists|i: int| 0 <= i < self.reqs@.len() && #[trigger] self.reqs@[i].request.id@ == id
    }

    /// The pending request under an identifier that `has_id`.
    pub open spec fn entry(&self, id: IdView) -> InFlight<W> {
        self.reqs@[choose|i: int| 0 <= i < self.reqs@.len() && #[trigger] self.reqs@[i].request.id@ == id]
    }

    pub proof fn lemma_entry_at(&self, i: int)
        requires
            self.wf(),
            0 <= i < self.reqs@.len(),
        ensures
            self.has_id(self.reqs@[i].request.id@),
            self.entry(self.reqs@[i].request.id@) == self.reqs@[i],
    {
        let id = self.reqs@[i].request.id@;
        assert(self.has_id(id));
        let j = choose|j: int| 0 <= j < self.reqs@.len() && #[trigger] self.reqs@[j].request.id@ == id;
        if j < i {
            assert(self.reqs@[j].request.id@ != self.reqs@[i].request.id@);
        } else if i < j {
            assert(self.reqs@[i].request.id@ != self.reqs@[j].request.id@);
        }
    }

    pub fn new() -> (r: RequestManager<W>)
        ensures
            r.wf(),
            r.reqs@.len() == 0,
    {
        RequestManager { reqs: Vec::new() }
    }

    pub fn len(&self) -> (r: usize)
        ensures
            r == self.reqs@.len(),
    {
        self.reqs.len()
    }

    fn find(&self, id: &RequestId) -> (r: Option<usize>)
        ensures
            r matches Some(i) ==> i < self.reqs@.len() && self.reqs@[i as int].request.id@ == id@,
            r is None ==> !self.has_id(id@),
    {
        let mut i: usize = 0;
        while i < self.reqs.len()
            invariant
                i <= self.reqs@.len(),
                forall|k: int| 0 <= k < i ==> self.reqs@[k].request.id@ != id@,
            decreases self.reqs@.len() - i,
        {
            if self.reqs[i].request.id.same(id) {
                return Some(i);
            }
            i = i + 1;
        }
        None
    }

    /// Indexes a pending request by its identifier; one that was pending under
    /// the same identifier is dropped.
    pub fn insert(&mut self, in_flight: InFlight<W>)
        requires
            old(self).wf(),
        ensures
            final(self).wf(),
            final(self).reqs@.len() == old(self).reqs@.len() + if old(self).has_id(
                in_flight.request.id@,
            ) {
                0int
            } else {
                1int
            },
            final(self).reqs@.last() == in_flight,
            forall|f: InFlight<W>|
                f.request.id@ != in_flight.request.id@ ==> (final(self).reqs@.contains(f)
                    <==> old(self).reqs@.contains(f)),
    {
        let ghost k = in_flight.request.id@;
        let ghost s0 = self.reqs@;
        match self.find(&in_flight.request.id) {
            Some(i) => {
                self.reqs.remove(i);
                assert(forall|f: InFlight<W>|
                    f.request.id@ != k ==> (self.reqs@.contains(f) <==> s0.contains(f))) by {
                    assert forall|f: InFlight<W>| f.request.id@ != k implies (self.reqs@.contains(
                        f,
                    ) <==> s0.contains(f)) by {
                        if s0.contains(f) {
                            let j = choose|j: int| 0 <= j < s0.len() && s0[j] == f;
                            if j < i {
                                assert(self.reqs@[j] == f);
                            } else {
                                assert(self.reqs@[j - 1] == f);
                            }
                        }
                    }
                }
                assert(!self.has_id(k)) by {
                    if self.has_id(k) {
                        let j = choose|j: int| 0 <= j < self.reqs@.len() && #[trigger] self.reqs@[j].request.id@ == k;
                        if j < i {
                            assert(s0[j].request.id@ == s0[i as int].request.id@);
                        } else {
                            assert(s0[j + 1].request.id@ == s0[i as int].request.id@);
                        }
                    }
                }
            },
            None => {},
        }
        let ghost s1 = self.reqs@;
        self.reqs.push(in_flight);
        assert forall|f: InFlight<W>| f.request.id@ != k implies (self.reqs@.contains(f)
            <==> s1.contains(f)) by {
            if s1.contains(f) {
                let j = choose|j: int| 0 <= j < s1.len() && s1[j] == f;
                assert(self.reqs@[j] == f);
            }
            if self.reqs@.contains(f) {
                let j = choose|j: int| 0 <= j < self.reqs@.len() && self.reqs@[j] == f;
                assert(s1[j] == f);
            }
        }
    }
    /// Takes the pending request that a response answers and routes the
    /// response; a response that answers nothing pending is discarded.
    pub fn handle_response(&mut self, resp: Response) -> (r: ResponseRoute<W>)
        requires
            old(self).wf(),
        ensures
            final(self).wf(),
            !final(self).has_id(resp.id@),
            r == if old(self).has_id(resp.id@) {
                classify_spec(old(self).entry(resp.id@), resp)
            } else {
                ResponseRoute::Discard
            },
            !old(self).has_id(resp.id@) ==> final(self).reqs@ == old(self).reqs@,
            old(self).has_id(resp.id@) ==> final(self).reqs@.len() == old(self).reqs@.len() - 1,
            forall|f: InFlight<W>|
                f.request.id@ != resp.id@ ==> (final(self).reqs@.contains(f)
                    <==> old(self).reqs@.contains(f)),
    {
        let ghost k = resp.id@;
        let ghost s0 = self.reqs@;
        match self.find(&resp.id) {
            Some(i) => {
                proof {
                    self.lemma_entry_at(i as int);
                }
                let f = self.reqs.remove(i);
                assert(forall|f: InFlight<W>|
                    f.request.id@ != k ==> (self.reqs@.contains(f) <==> s0.contains(f))) by {
                    assert forall|f: InFlight<W>| f.request.id@ != k implies (self.reqs@.contains(
                        f,
                    ) <==> s0.contains(f)) by {
                        if s0.contains(f) {
                            let j = choose|j: int| 0 <= j < s0.len() && s0[j] == f;
                            if j < i {
                                assert(self.reqs@[j] == f);
                            } else {
                                assert(self.reqs@[j - 1] == f);
                            }
                        }
                    }
                }
                assert(!self.has_id(k)) by {
                    if self.has_id(k) {
                        let j = choose|j: int| 0 <= j < self.reqs@.len() && #[trigger] self.reqs@[j].request.id@ == k;
                        if j < i {
                            assert(s0[j].request.id@ == s0[i as int].request.id@);
                        } else {
                            assert(s0[j + 1].request.id@ == s0[i as int].request.id@);
                        }
                    }
                }
                classify(f, resp)
            },
            None => ResponseRoute::Discard,
        }
    }

    /// The frames of all pending requests, oldest first.
    pub fn frames(&self) -> (r: Vec<String>)
        ensures
            r@.len() == self.reqs@.len(),
            forall|i: int| 0 <= i < r@.len() ==> #[trigger] r@[i] == self.reqs@[i].request.frame,
    {
        let mut r: Vec<String> = Vec::new();
        let mut i: usize = 0;
        while i < self.reqs.len()
            invariant
                i <= self.reqs@.len(),
                r@.len() == i,
                forall|k: int| 0 <= k < i ==> #[trigger] r@[k] == self.reqs@[k].request.frame,
            decreases self.reqs@.len() - i,
        {
            r.push(self.reqs[i].request.frame.clone());
            i = i + 1;
        }
        r
    }
}

} // verus!
