//! The session manager: finds the devices that lack a session, follows up on
//! the sessions created from a claim response, and recovers wedged devices.
//!
//! Lookups in the device store, session creation and encryption happen
//! outside this module; the manager takes what they found as plain values
//! and decides what to do next.
use dashmap::DashSet;
use vstd::prelude::*;

use crate::collections::{
    new_request_id, pair_set_contains, pair_set_contents, pair_set_insert, pair_set_items,
    pair_set_new, pair_set_remove, pair_view, pair_views, queued_requests, request_queue_get,
    request_queue_insert, request_queue_len, request_queue_new, request_queue_remove, DevicePair,
    RequestQueue,
};
use crate::order::{lemma_pair_lt_order, pair_less, pair_lt, strictly_sorted};
use crate::requests::{
    missing_pairs, DeviceIdOrAllDevices, DeviceKeyAlgorithm, EventType, KeysClaimRequest,
    MissingSession, OutgoingRequest, ToDeviceMessage, KEY_CLAIM_TIMEOUT_MS,
};

verus! {

broadcast use vstd::seq_lib::group_seq_properties;

/// A device's oldest session must be older than this, in milliseconds, for
/// the device to be considered wedged.
pub const UNWEDGING_INTERVAL_MS: u64 = 3600000;

/// What the store knows of one device's sessions.
#[derive(Clone, Copy, Debug, PartialEq, Eq, Structural)]
pub enum KnownSessions {
    /// The device has no identity key, so no session can be claimed for it.
    NoIdentityKey,
    /// The store holds no session list for the device's identity key.
    NoSessionList,
    /// The store holds a session list of this length.
    Sessions(usize),
}

/// One device of a user, with what the store knows of its sessions.
#[derive(Clone, Debug)]
pub struct DeviceSessions {
    pub device_id: String,
    pub sessions: KnownSessions,
}

/// The devices that the store knows for one user.
#[derive(Clone, Debug)]
pub struct UserDevices {
    pub user_id: String,
    pub devices: Vec<DeviceSessions>,
}

/// How the work on one entry of a claim response ended.
#[derive(Clone, Copy, Debug, PartialEq, Eq, Structural)]
pub enum ClaimOutcomeKind {
    /// A new session was created and stored.
    SessionSaved,
    /// The device is not in the store.
    UnknownDevice,
    /// The store failed to look up the device or to save the session.
    StorageError,
    /// The claimed key did not pass validation.
    CryptographicValidationError,
}

/// The outcome of one entry of a claim response.
#[derive(Clone, Debug)]
pub struct ClaimOutcome {
    pub user_id: String,
    pub device_id: String,
    pub kind: ClaimOutcomeKind,
}

/// What remains to be done after a claim response was handled.
#[derive(Clone, Debug)]
pub struct ClaimFollowUp {
    /// The devices that now have a session, in response order: pending room
    /// key shares for them can be retried.
    pub retry_key_shares: Vec<(String, String)>,
    /// The devices that were wedged and now have a new session: each gets
    /// one dummy message through `enqueue_dummy_message`.
    pub unwedged: Vec<(String, String)>,
}

/// A device lacks a session when it has an identity key and either no
/// session list or an empty one.
pub open spec fn lacks_session(s: KnownSessions) -> bool {
    match s {
        KnownSessions::NoIdentityKey => false,
        KnownSessions::NoSessionList => true,
        KnownSessions::Sessions(n) => n == 0,
    }
}

/// The devices of one user that lack a session.
pub open spec fn missing_of_devices(user_id: Seq<char>, devices: Seq<DeviceSessions>) -> Set<DevicePair>
    decreases devices.len(),
{
    if devices.len() == 0 {
        Set::empty()
    } else {
        let rest = missing_of_devices(user_id, devices.drop_last());
        if lacks_session(devices.last().sessions) {
            rest.insert((user_id, devices.last().device_id@))
        } else {
            rest
        }
    }
}

/// The devices of the given users that lack a session.
pub open spec fn missing_of_users(users: Seq<UserDevices>) -> Set<DevicePair>
    decreases users.len(),
{
    if users.len() == 0 {
        Set::empty()
    } else {
        missing_of_users(users.drop_last()).union(
            missing_of_devices(users.last().user_id@, users.last().devices@),
        )
    }
}

/// The devices that a scan asks keys for: those that lack a session, and
/// those waiting for a key claim.
pub open spec fn requested_pairs(users: Seq<UserDevices>, pending: Set<DevicePair>) -> Set<DevicePair> {
    missing_of_users(users).union(pending)
}

/// Each entry asks for a signed one-time key, and the devices are listed in
/// strictly increasing order of (user id, device id), so none twice.
pub open spec fn entries_well_formed(v: Seq<MissingSession>) -> bool {
    &&& strictly_sorted(missing_pairs(v))
    &&& forall|i: int|
        0 <= i < v.len() ==> #[trigger] v[i].algorithm == DeviceKeyAlgorithm::SignedCurve25519
}

/// `req` is the claim request for exactly the devices of `wanted`.
pub open spec fn claim_request_for(req: KeysClaimRequest, wanted: Set<DevicePair>) -> bool {
    &&& req.timeout_ms == KEY_CLAIM_TIMEOUT_MS
    &&& entries_well_formed(req.one_time_keys@)
    &&& missing_pairs(req.one_time_keys@).to_set() == wanted
}

/// The earliest of a non-empty list of creation times.
pub open spec fn oldest(times: Seq<u64>) -> u64
    decreases times.len(),
{
    if times.len() <= 1 {
        times[0]
    } else {
        let m = oldest(times.drop_last());
        if times.last() < m {
            times.last()
        } else {
            m
        }
    }
}

/// How long ago a session was created; a creation time in the future
/// counts as no time at all.
pub open spec fn age(created_ms: u64, now_ms: u64) -> int {
    if now_ms >= created_ms {
        now_ms - created_ms
    } else {
        0
    }
}

/// A device looks wedged when its oldest session is older than the
/// unwedging interval.
pub open spec fn looks_wedged(times: Seq<u64>, now_ms: u64) -> bool {
    times.len() > 0 && age(oldest(times), now_ms) > UNWEDGING_INTERVAL_MS
}

/// The wedged set after a device with these session creation times was
/// checked.
pub open spec fn wedged_after_check(
    wedged: Set<DevicePair>,
    device: DevicePair,
    times: Seq<u64>,
    now_ms: u64,
) -> Set<DevicePair> {
    if looks_wedged(times, now_ms) {
        wedged.insert(device)
    } else {
        wedged
    }
}

pub open spec fn outcome_pair(o: ClaimOutcome) -> DevicePair {
    (o.user_id@, o.device_id@)
}

pub open spec fn is_saved(o: ClaimOutcome) -> bool {
    o.kind == ClaimOutcomeKind::SessionSaved
}

/// The devices that got a session, in response order.
pub open spec fn saved_pairs(outcomes: Seq<ClaimOutcome>) -> Seq<DevicePair>
    decreases outcomes.len(),
{
    if outcomes.len() == 0 {
        Seq::empty()
    } else {
        let rest = saved_pairs(outcomes.drop_last());
        if is_saved(outcomes.last()) {
            rest.push(outcome_pair(outcomes.last()))
        } else {
            rest
        }
    }
}

/// The wedged set after the outcomes were followed up: a device leaves it
/// when a new session for it was saved.
pub open spec fn wedged_after_claims(wedged: Set<DevicePair>, outcomes: Seq<ClaimOutcome>) -> Set<DevicePair>
    decreases outcomes.len(),
{
    if outcomes.len() == 0 {
        wedged
    } else {
        let w = wedged_after_claims(wedged, outcomes.drop_last());
        if is_saved(outcomes.last()) {
            w.remove(outcome_pair(outcomes.last()))
        } else {
            w
        }
    }
}

/// The devices that a new session took out of the wedged set, in response
/// order.
pub open spec fn unwedged_by_claims(wedged: Set<DevicePair>, outcomes: Seq<ClaimOutcome>) -> Seq<DevicePair>
    decreases outcomes.len(),
{
    if outcomes.len() == 0 {
        Seq::empty()
    } else {
        let rest = unwedged_by_claims(wedged, outcomes.drop_last());
        let w = wedged_after_claims(wedged, outcomes.drop_last());
        if is_saved(outcomes.last()) && w.contains(outcome_pair(outcomes.last())) {
            rest.push(outcome_pair(outcomes.last()))
        } else {
            rest
        }
    }
}

/// `req` carries one encrypted dummy event to one device, under `id`.
pub open spec fn is_dummy_request(
    req: OutgoingRequest,
    id: u128,
    user_id: Seq<char>,
    device_id: Seq<char>,
    content: Seq<char>,
) -> bool {
    &&& req.request_id == id
    &&& req.event_type == EventType::RoomEncrypted
    &&& req.messages@.len() == 1
    &&& req.messages@[0].user_id@ == user_id
    &&& req.messages@[0].target matches DeviceIdOrAllDevices::DeviceId(d) && d@ == device_id
    &&& req.messages@[0].content@ == content
}

/// Adds one entry for the device, in order, unless it is listed already.
fn add_missing(missing: &mut Vec<MissingSession>, user_id: &String, device_id: &String)
    requires
        entries_well_formed(old(missing)@),
    ensures
        entries_well_formed(final(missing)@),
        missing_pairs(final(missing)@).to_set() == missing_pairs(old(missing)@).to_set().insert(
            (user_id@, device_id@),
        ),
{
    let ghost pair = (user_id@, device_id@);
    let ghost before = missing_pairs(missing@);
    let mut i: usize = 0;
    while i < missing.len()
        invariant
            0 <= i <= missing@.len(),
            missing@ == old(missing)@,
            before == missing_pairs(missing@),
            entries_well_formed(missing@),
            pair == (user_id@, device_id@),
            forall|k: int| 0 <= k < i ==> pair_lt(#[trigger] before[k], pair),
        ensures
            0 <= i <= missing@.len(),
            i < missing@.len() ==> !pair_lt(before[i as int], pair),
            forall|k: int| 0 <= k < i ==> pair_lt(#[trigger] before[k], pair),
        decreases missing@.len() - i,
    {
        if !pair_less(&missing[i].user_id, &missing[i].device_id, user_id, device_id) {
            break;
        }
        i += 1;
    }
    if i < missing.len() && missing[i].user_id == *user_id && missing[i].device_id == *device_id {
        proof {
            assert(before[i as int] == pair);
            assert(before.to_set().contains(pair));
            assert(before.to_set().insert(pair) =~= before.to_set());
        }
        return;
    }
    proof {
        if i < before.len() {
            lemma_pair_lt_order(pair, before[i as int], pair);
            assert forall|j: int| i <= j < before.len() implies pair_lt(pair, #[trigger] before[j]) by {
                if j > i {
                    lemma_pair_lt_order(pair, before[i as int], before[j]);
                }
            }
        }
    }
    let entry = MissingSession {
        user_id: user_id.clone(),
        device_id: device_id.clone(),
        algorithm: DeviceKeyAlgorithm::SignedCurve25519,
    };
    let ghost old_entries = missing@;
    missing.insert(i, entry);
    proof {
        let after = missing_pairs(missing@);
        assert(missing@ =~= old_entries.insert(i as int, entry));
        assert(after =~= before.insert(i as int, pair));
        assert forall|a: int, b: int| 0 <= a < b < after.len() implies pair_lt(
            #[trigger] after[a],
            #[trigger] after[b],
        ) by {
            if b < i {
                assert(after[a] == before[a] && after[b] == before[b]);
            } else if b == i {
                assert(after[a] == before[a]);
            } else if a == i {
                assert(after[b] == before[b - 1]);
            } else if a < i {
                assert(after[a] == before[a] && after[b] == before[b - 1]);
                lemma_pair_lt_order(before[a], pair, before[b - 1]);
            } else {
                assert(after[a] == before[a - 1] && after[b] == before[b - 1]);
            }
        }
        assert forall|k: int| 0 <= k < missing@.len() implies #[trigger] missing@[k].algorithm
            == DeviceKeyAlgorithm::SignedCurve25519 by {
            if k < i {
                assert(missing@[k] == old_entries[k]);
            } else if k > i {
                assert(missing@[k] == old_entries[k - 1]);
            }
        }
        assert forall|q: DevicePair| after.to_set().contains(q) == before.to_set().insert(pair).contains(q) by {
            if after.contains(q) {
                let k = choose|k: int| 0 <= k < after.len() && after[k] == q;
                if k < i {
                    assert(before[k] == q);
                } else if k > i {
                    assert(before[k - 1] == q);
                }
            }
            if before.contains(q) {
                let k = choose|k: int| 0 <= k < before.len() && before[k] == q;
                if k < i {
                    assert(after[k] == q);
                } else {
                    assert(after[k + 1] == q);
                }
            }
            if q == pair {
                assert(after[i as int] == q);
            }
        }
        assert(after.to_set() =~= before.to_set().insert(pair));
    }
}

/// Keeps the sets of devices waiting for a key claim and of wedged devices,
/// and the queue of to-device requests waiting to be sent.
pub struct SessionManager {
    users_for_key_claim: DashSet<(String, String)>,
    wedged_devices: DashSet<(String, String)>,
    outgoing_to_device_requests: RequestQueue,
}

impl SessionManager {
    /// The devices for which a session should be claimed whether or not
    /// they have one.
    pub closed spec fn pending(&self) -> Set<DevicePair> {
        pair_set_contents(self.users_for_key_claim)
    }

    /// The devices believed to have a desynchronized session.
    pub closed spec fn wedged(&self) -> Set<DevicePair> {
        pair_set_contents(self.wedged_devices)
    }

    /// The to-device requests waiting to be sent, by request id.
    pub closed spec fn outgoing(&self) -> Map<u128, OutgoingRequest> {
        queued_requests(self.outgoing_to_device_requests)
    }

    /// A manager that claims keys for the devices of `users_for_key_claim`
    /// on every scan, with no wedged device and nothing queued.
    pub fn new(users_for_key_claim: DashSet<(String, String)>) -> (r: Self)
        ensures
            r.pending() == pair_set_contents(users_for_key_claim),
            r.wedged() == Set::<DevicePair>::empty(),
            r.outgoing().dom() == Set::<u128>::empty(),
    {
        SessionManager {
            users_for_key_claim,
            wedged_devices: pair_set_new(),
            outgoing_to_device_requests: request_queue_new(),
        }
    }

    /// Builds the key claim request for the devices of `users` that lack a
    /// session and for the devices waiting for a key claim, each once and
    /// in order of user id, then device id, so that equal inputs give equal
    /// requests.
    /// `users` holds what the store knows of each user's devices. Returns
    /// `None` when there is no such device.
    pub fn get_missing_sessions(&self, users: &Vec<UserDevices>) -> (r: Option<(u128, KeysClaimRequest)>)
        ensures
            r is None <==> requested_pairs(users@, self.pending()) == Set::<DevicePair>::empty(),
            r is Some ==> claim_request_for((r->0).1, requested_pairs(users@, self.pending())),
    {
        let mut missing: Vec<MissingSession> = Vec::new();
        proof {
            assert(missing_pairs(missing@).to_set() =~= Set::<DevicePair>::empty());
            assert(users@.take(0) =~= Seq::<UserDevices>::empty());
        }
        let mut i: usize = 0;
        while i < users.len()
            invariant
                0 <= i <= users@.len(),
                entries_well_formed(missing@),
                missing_pairs(missing@).to_set() == missing_of_users(users@.take(i as int)),
            decreases users@.len() - i,
        {
            let user = &users[i];
            let mut j: usize = 0;
            proof {
                assert(user.devices@.take(0) =~= Seq::<DeviceSessions>::empty());
            }
            while j < user.devices.len()
                invariant
                    0 <= i < users@.len(),
                    *user == users@[i as int],
                    0 <= j <= user.devices@.len(),
                    entries_well_formed(missing@),
                    missing_pairs(missing@).to_set() == missing_of_users(users@.take(i as int)).union(
                        missing_of_devices(user.user_id@, user.devices@.take(j as int)),
                    ),
                decreases user.devices@.len() - j,
            {
                let device = &user.devices[j];
                let lacks = match device.sessions {
                    KnownSessions::NoIdentityKey => false,
                    KnownSessions::NoSessionList => true,
                    KnownSessions::Sessions(n) => n == 0,
                };
                if lacks {
                    add_missing(&mut missing, &user.user_id, &device.device_id);
                }
                proof {
                    let ds = user.devices@;
                    assert(ds.take(j + 1).drop_last() =~= ds.take(j as int));
                    assert(ds.take(j + 1).last() == ds[j as int]);
                    assert(missing_pairs(missing@).to_set() =~= missing_of_users(users@.take(i as int)).union(
                        missing_of_devices(user.user_id@, ds.take(j + 1)),
                    ));
                }
                j += 1;
            }
            proof {
                assert(user.devices@.take(j as int) =~= user.devices@);
                assert(users@.take(i + 1).drop_last() =~= users@.take(i as int));
                assert(users@.take(i + 1).last() == users@[i as int]);
            }
            i += 1;
        }
        proof {
            assert(users@.take(i as int) =~= users@);
        }
        let pending = pair_set_items(&self.users_for_key_claim);
        let ghost scanned = missing_of_users(users@);
        proof {
            assert(pair_views(pending@.take(0)).to_set() =~= Set::<DevicePair>::empty());
            assert(scanned.union(Set::<DevicePair>::empty()) =~= scanned);
        }
        let mut k: usize = 0;
        while k < pending.len()
            invariant
                0 <= k <= pending@.len(),
                scanned == missing_of_users(users@),
                entries_well_formed(missing@),
                missing_pairs(missing@).to_set() == scanned.union(pair_views(pending@.take(k as int)).to_set()),
            decreases pending@.len() - k,
        {
            let entry = &pending[k];
            add_missing(&mut missing, &entry.0, &entry.1);
            proof {
                let f = |p: (String, String)| pair_view(p);
                assert(pending@.take(k + 1) =~= pending@.take(k as int).push(pending@[k as int]));
                pending@.take(k as int).lemma_push_map_commute(f, pending@[k as int]);
                pair_views(pending@.take(k as int)).lemma_push_to_set_commute(pair_view(pending@[k as int]));
                assert(missing_pairs(missing@).to_set() =~= scanned.union(pair_views(pending@.take(k + 1)).to_set()));
            }
            k += 1;
        }
        proof {
            assert(pending@.take(k as int) =~= pending@);
            assert(pair_views(pending@).to_set() == self.pending());
        }
        if missing.len() == 0 {
            proof {
                assert(missing_pairs(missing@).to_set() =~= Set::<DevicePair>::empty());
            }
            None
        } else {
            proof {
                assert(missing_pairs(missing@).to_set().contains(missing_pairs(missing@)[0]));
            }
            let request = KeysClaimRequest { timeout_ms: KEY_CLAIM_TIMEOUT_MS, one_time_keys: missing };
            Some((new_request_id(), request))
        }
    }

    /// Checks a device whose session may have desynchronized. The device is
    /// marked wedged when its oldest session, by creation time, is older
    /// than the unwedging interval at `now_ms`; a device without sessions
    /// is left alone.
    pub fn mark_device_as_wedged(
        &mut self,
        user_id: &String,
        device_id: &String,
        session_creation_times: &Vec<u64>,
        now_ms: u64,
    )
        ensures
            final(self).wedged() == wedged_after_check(
                old(self).wedged(),
                (user_id@, device_id@),
                session_creation_times@,
                now_ms,
            ),
            final(self).pending() == old(self).pending(),
            final(self).outgoing() == old(self).outgoing(),
    {
        let times = session_creation_times;
        if times.len() == 0 {
            return;
        }
        let mut oldest_ms = times[0];
        let mut i: usize = 1;
        proof {
            assert(times@.take(1).len() == 1);
        }
        while i < times.len()
            invariant
                1 <= i <= times@.len(),
                oldest_ms == oldest(times@.take(i as int)),
            decreases times@.len() - i,
        {
            if times[i] < oldest_ms {
                oldest_ms = times[i];
            }
            proof {
                assert(times@.take(i + 1).drop_last() =~= times@.take(i as int));
                assert(times@.take(i + 1).last() == times@[i as int]);
            }
            i += 1;
        }
        proof {
            assert(times@.take(i as int) =~= times@);
        }
        let elapsed_ms = if now_ms >= oldest_ms {
            now_ms - oldest_ms
        } else {
            0
        };
        if elapsed_ms > UNWEDGING_INTERVAL_MS {
            pair_set_insert(&mut self.wedged_devices, user_id.clone(), device_id.clone());
        }
    }

    /// Whether the device is marked wedged.
    pub fn is_device_wedged(&self, user_id: &String, device_id: &String) -> (r: bool)
        ensures
            r == self.wedged().contains((user_id@, device_id@)),
    {
        pair_set_contains(&self.wedged_devices, user_id, device_id)
    }

    /// To be called when a new session with the device was stored: the
    /// device is no longer wedged. Returns whether it was, in which case
    /// one dummy message should be sent to it.
    pub fn check_if_unwedged(&mut self, user_id: &String, device_id: &String) -> (r: bool)
        ensures
            r == old(self).wedged().contains((user_id@, device_id@)),
            final(self).wedged() == old(self).wedged().remove((user_id@, device_id@)),
            final(self).pending() == old(self).pending(),
            final(self).outgoing() == old(self).outgoing(),
    {
        pair_set_remove(&mut self.wedged_devices, user_id, device_id)
    }

    /// Follows up on the entries of a claim response, in order. Each
    /// device that got a new session is handed back for a retry of its
    /// pending key shares and leaves the wedged set; those that were
    /// wedged are handed back to receive a dummy message. A failed entry
    /// changes nothing.
    pub fn receive_keys_claim_response(&mut self, outcomes: &Vec<ClaimOutcome>) -> (r: ClaimFollowUp)
        ensures
            pair_views(r.retry_key_shares@) == saved_pairs(outcomes@),
            pair_views(r.unwedged@) == unwedged_by_claims(old(self).wedged(), outcomes@),
            final(self).wedged() == wedged_after_claims(old(self).wedged(), outcomes@),
            final(self).pending() == old(self).pending(),
            final(self).outgoing() == old(self).outgoing(),
    {
        let ghost wedged0 = self.wedged();
        let mut retry_key_shares: Vec<(String, String)> = Vec::new();
        let mut unwedged: Vec<(String, String)> = Vec::new();
        let mut i: usize = 0;
        proof {
            assert(outcomes@.take(0) =~= Seq::<ClaimOutcome>::empty());
            assert(pair_views(retry_key_shares@) =~= Seq::<DevicePair>::empty());
            assert(pair_views(unwedged@) =~= Seq::<DevicePair>::empty());
        }
        while i < outcomes.len()
            invariant
                0 <= i <= outcomes@.len(),
                wedged0 == old(self).wedged(),
                self.pending() == old(self).pending(),
                self.outgoing() == old(self).outgoing(),
                self.wedged() == wedged_after_claims(wedged0, outcomes@.take(i as int)),
                pair_views(retry_key_shares@) == saved_pairs(outcomes@.take(i as int)),
                pair_views(unwedged@) == unwedged_by_claims(wedged0, outcomes@.take(i as int)),
            decreases outcomes@.len() - i,
        {
            let outcome = &outcomes[i];
            let ghost prefix = outcomes@.take(i + 1);
            proof {
                assert(prefix.drop_last() =~= outcomes@.take(i as int));
                assert(prefix.last() == outcomes@[i as int]);
            }
            let ghost f = |p: (String, String)| pair_view(p);
            match outcome.kind {
                ClaimOutcomeKind::SessionSaved => {
                    let ghost shares = retry_key_shares@;
                    let entry = (outcome.user_id.clone(), outcome.device_id.clone());
                    retry_key_shares.push(entry);
                    proof {
                        shares.lemma_push_map_commute(f, entry);
                    }
                    let was_wedged = self.check_if_unwedged(&outcome.user_id, &outcome.device_id);
                    if was_wedged {
                        let ghost done = unwedged@;
                        let entry = (outcome.user_id.clone(), outcome.device_id.clone());
                        unwedged.push(entry);
                        proof {
                            done.lemma_push_map_commute(f, entry);
                        }
                    }
                },
                _ => {},
            }
            i += 1;
        }
        proof {
            assert(outcomes@.take(i as int) =~= outcomes@);
        }
        ClaimFollowUp { retry_key_shares, unwedged }
    }

    /// Queues a to-device request that carries `content`, an encrypted
    /// dummy event, to the device, under a new random request id, which is
    /// returned. Other queued requests stay as they were.
    pub fn enqueue_dummy_message(&mut self, user_id: &String, device_id: &String, content: String) -> (id: u128)
        ensures
            final(self).outgoing().contains_key(id),
            is_dummy_request(final(self).outgoing()[id], id, user_id@, device_id@, content@),
            final(self).outgoing().remove(id) == old(self).outgoing().remove(id),
            final(self).pending() == old(self).pending(),
            final(self).wedged() == old(self).wedged(),
    {
        let id = new_request_id();
        let message = ToDeviceMessage {
            user_id: user_id.clone(),
            target: DeviceIdOrAllDevices::DeviceId(device_id.clone()),
            content,
        };
        let request = OutgoingRequest { request_id: id, event_type: EventType::RoomEncrypted, messages: vec![message] };
        proof {
            assert(request.messages@ == seq![message]);
        }
        request_queue_insert(&mut self.outgoing_to_device_requests, id, request);
        proof {
            assert(self.outgoing().remove(id) =~= old(self).outgoing().remove(id));
        }
        id
    }

    /// The number of requests waiting to be sent.
    pub fn outgoing_request_count(&self) -> (r: usize)
        ensures
            r as int == self.outgoing().len(),
    {
        request_queue_len(&self.outgoing_to_device_requests)
    }

    /// The request queued under `id`, if any.
    pub fn outgoing_request(&self, id: u128) -> (r: Option<OutgoingRequest>)
        ensures
            r is Some <==> self.outgoing().contains_key(id),
            r is Some ==> r->0 == self.outgoing()[id],
    {
        request_queue_get(&self.outgoing_to_device_requests, id)
    }

    /// Asks for a session with the device on the next scans.
    pub fn add_user_for_key_claim(&mut self, user_id: String, device_id: String)
        ensures
            final(self).pending() == old(self).pending().insert((user_id@, device_id@)),
            final(self).wedged() == old(self).wedged(),
            final(self).outgoing() == old(self).outgoing(),
    {
        pair_set_insert(&mut self.users_for_key_claim, user_id, device_id);
    }

    /// Removes the request from the outgoing queue; an unknown id changes
    /// nothing.
    pub fn mark_outgoing_request_as_sent(&mut self, id: u128)
        ensures
            final(self).outgoing() == old(self).outgoing().remove(id),
            !final(self).outgoing().contains_key(id),
            !old(self).outgoing().contains_key(id) ==> final(self).outgoing() == old(self).outgoing(),
            final(self).pending() == old(self).pending(),
            final(self).wedged() == old(self).wedged(),
    {
        request_queue_remove(&mut self.outgoing_to_device_requests, id);
        proof {
            if !old(self).outgoing().contains_key(id) {
                assert(self.outgoing() =~= old(self).outgoing());
            }
        }
    }
}

} // verus!
