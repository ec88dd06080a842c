use vstd::prelude::*;
use crate::ids::{IdView, RequestId, SubId};

verus! {

/// The 256-bit unsigned integer that a JSON text holds, if it holds one.
pub uninterp spec fn json_u256(text: Seq<char>) -> Option<SubId>;

/// The hash by which a subscription request is known locally, computed from
/// the JSON text of its parameters.
pub uninterp spec fn params_hash_of(params: Seq<char>) -> SubId;

/// The JSON text of a 256-bit identifier written as 32 bytes.
pub uninterp spec fn id_json_of(id: SubId) -> Seq<char>;

/// The serialized JSON-RPC request with the given identifier and method and
/// one 32-byte parameter.
pub uninterp spec fn call_frame_of(id: IdView, method: Seq<char>, param: SubId) -> Seq<char>;

/// Relies on serde_json::from_str for alloy_primitives::U256: reads a JSON
/// payload as a 256-bit unsigned integer; the result depends on the text alone.
#[verifier::external_body]
pub(crate) fn decode_u256(raw: &String) -> (r: Option<SubId>)
    ensures
        r == json_u256(raw@),
{
    match serde_json::from_str::<alloy_primitives::U256>(raw) {
        Ok(v) => {
            let l = v.into_limbs();
            Some(SubId { l0: l[0], l1: l[1], l2: l[2], l3: l[3] })
        },
        Err(_) => None,
    }
}

/// Relies on alloy_primitives::keccak256 over the parameters' JSON text, as
/// alloy_json_rpc's SerializedRequest::params_hash computes it, read as a
/// big-endian integer; the result depends on the text alone.
#[verifier::external_body]
pub(crate) fn params_hash(params: &String) -> (r: SubId)
    ensures
        r == params_hash_of(params@),
{
    let h = alloy_primitives::keccak256(params.as_bytes());
    let l = alloy_primitives::U256::from_be_bytes(h.0).into_limbs();
    SubId { l0: l[0], l1: l[1], l2: l[2], l3: l[3] }
}

/// Relies on alloy_transport::utils::to_json_raw_value on an
/// alloy_primitives::B256: its JSON text. `FixedBytes` serializes as a hex
/// string, which serde_json always writes, so the `None` arm is never taken.
#[verifier::external_body]
pub(crate) fn id_json(id: SubId) -> (r: Option<String>)
    ensures
        r is Some,
        r matches Some(s) ==> s@ == id_json_of(id),
{
    let w = alloy_primitives::B256::from(alloy_primitives::U256::from_limbs([id.l0, id.l1, id.l2, id.l3]));
    match alloy_transport::utils::to_json_raw_value(&w) {
        Ok(v) => Some(v.get().to_owned()),
        Err(_) => None,
    }
}

/// Relies on alloy_json_rpc::Request::serialize: the frame of a request with
/// one alloy_primitives::B256 parameter. The request serializes as a map of
/// its method string, a one-item hex-string array, its `Id` and a constant,
/// none of which can fail, so the `None` arm is never taken.
#[verifier::external_body]
pub(crate) fn call_frame(id: &RequestId, method: &String, param: SubId) -> (r: Option<String>)
    ensures
        r is Some,
        r matches Some(s) ==> s@ == call_frame_of(id@, method@, param),
{
    let id = match id {
        RequestId::Number(n) => alloy_json_rpc::Id::Number(*n),
        RequestId::Str(s) => alloy_json_rpc::Id::String(s.clone()),
        RequestId::Null => alloy_json_rpc::Id::None,
    };
    let p = alloy_primitives::B256::from(alloy_primitives::U256::from_limbs([param.l0, param.l1, param.l2, param.l3]));
    match alloy_json_rpc::Request::new(method.clone(), id, [p]).serialize() {
        Ok(s) => Some(s.take_request().get().to_owned()),
        Err(_) => None,
    }
}

} // verus!
