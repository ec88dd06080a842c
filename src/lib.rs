//! The coordinating core of a publish/subscribe JSON-RPC transport: which
//! requests are in flight, which subscriptions are open, how responses and
//! notifications are routed, and what is replayed after a reconnect.
//!
//! Everything here is synchronous and single-owner. The caller runs the event
//! loop, performs the effects that these functions return, and feeds back what
//! the backend and the frontend produce.

mod ids;
mod wire;
mod requests;
mod subs;
mod service;
mod laws;

pub use ids::{RequestId, IdView, SubId};
pub use requests::{SerializedRequest, InFlight, Payload, ErrorObject, Response, Notification, PubSubItem, ResponseRoute, RequestManager, classify, route_decoded};
pub use subs::{ActiveSub, SubscriptionManager};
pub use service::{PubSubCore, Effect, ServiceError, announce};
pub use laws::{
    law_local_id_survives_reconnect, law_pending_answered_once, law_stale_server_ids_dropped,
    law_unsubscribed_gets_nothing, law_get_sub_then_notify, law_pending_request_survives_reconnect,
    law_subscription_replayed_after_reconnect,
};
