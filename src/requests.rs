//! The values that the session manager hands to and takes from its
//! collaborators: claim requests, claim outcomes and to-device requests.
use vstd::prelude::*;

verus! {

/// How long the server may spend on the key lookups of a claim request,
/// in milliseconds.
pub const KEY_CLAIM_TIMEOUT_MS: u64 = 10000;

/// The key algorithms that a claim request can ask for.
#[derive(Clone, Copy, Debug, PartialEq, Eq, Structural)]
pub enum DeviceKeyAlgorithm {
    Ed25519,
    Curve25519,
    SignedCurve25519,
}

/// One entry of a claim request: a one-time key of `algorithm` is wanted
/// for the device.
#[derive(Clone, Debug)]
pub struct MissingSession {
    pub user_id: String,
    pub device_id: String,
    pub algorithm: DeviceKeyAlgorithm,
}

/// A key claim request: the devices for which a one-time key is wanted,
/// each listed once, ordered by user id and then device id.
#[derive(Clone, Debug)]
pub struct KeysClaimRequest {
    pub timeout_ms: u64,
    pub one_time_keys: Vec<MissingSession>,
}

/// The (user, device) pairs of a list of claim entries, in order.
pub open spec fn missing_pairs(v: Seq<MissingSession>) -> Seq<(Seq<char>, Seq<char>)> {
    v.map_values(|m: MissingSession| (m.user_id@, m.device_id@))
}

/// Where a to-device message goes within one user's devices.
#[derive(Clone, Debug)]
pub enum DeviceIdOrAllDevices {
    DeviceId(String),
    AllDevices,
}

/// The type of the events that a to-device request carries.
#[derive(Clone, Copy, Debug, PartialEq, Eq, Structural)]
pub enum EventType {
    RoomEncrypted,
}

/// One message of a to-device request: a serialized event for one user's
/// device, or for all of that user's devices.
#[derive(Clone, Debug)]
pub struct ToDeviceMessage {
    pub user_id: String,
    pub target: DeviceIdOrAllDevices,
    pub content: String,
}

/// A to-device request waiting in the outgoing queue.
#[derive(Clone, Debug)]
pub struct OutgoingRequest {
    pub request_id: u128,
    pub event_type: EventType,
    pub messages: Vec<ToDeviceMessage>,
}

} // verus!
