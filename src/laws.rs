//! Properties that relate several operations of the session manager,
//! stated over the spec functions that the operations' contracts use.
use vstd::prelude::*;

use crate::collections::DevicePair;
use crate::order::{lemma_pair_lt_order, pair_lt, strictly_sorted};
use crate::requests::{missing_pairs, DeviceKeyAlgorithm, KeysClaimRequest};
use crate::session_manager::{
    age, claim_request_for, is_saved, lacks_session, missing_of_devices, missing_of_users, oldest,
    outcome_pair, requested_pairs, unwedged_by_claims, wedged_after_check, wedged_after_claims,
    ClaimOutcome, DeviceSessions, UserDevices, UNWEDGING_INTERVAL_MS,
};

verus! {

/// Two strictly sorted lists of the same pairs are the same list.
pub proof fn lemma_sorted_unique(s1: Seq<DevicePair>, s2: Seq<DevicePair>)
    requires
        strictly_sorted(s1),
        strictly_sorted(s2),
        s1.to_set() == s2.to_set(),
    ensures
        s1 == s2,
    decreases s1.len(),
{
    if s1.len() == 0 {
        if s2.len() > 0 {
            assert(s2.to_set().contains(s2[0]));
        }
        assert(s1 =~= s2);
    } else {
        assert(s1.to_set().contains(s1[0]));
        let j = choose|j: int| 0 <= j < s2.len() && s2[j] == s1[0];
        assert(s2.to_set().contains(s2[0]));
        let k = choose|k: int| 0 <= k < s1.len() && s1[k] == s2[0];
        lemma_pair_lt_order(s1[0], s2[0], s1[0]);
        if j > 0 {
            assert(pair_lt(s2[0], s2[j]));
            if k > 0 {
                assert(pair_lt(s1[0], s1[k]));
            }
        }
        assert(s1[0] == s2[0]);
        let t1 = s1.drop_first();
        let t2 = s2.drop_first();
        assert forall|a: int, b: int| 0 <= a < b < t1.len() implies pair_lt(#[trigger] t1[a], #[trigger] t1[b]) by {
            assert(t1[a] == s1[a + 1] && t1[b] == s1[b + 1]);
        }
        assert forall|a: int, b: int| 0 <= a < b < t2.len() implies pair_lt(#[trigger] t2[a], #[trigger] t2[b]) by {
            assert(t2[a] == s2[a + 1] && t2[b] == s2[b + 1]);
        }
        assert forall|q: DevicePair| t1.to_set().contains(q) == t2.to_set().contains(q) by {
            if t1.contains(q) {
                let m = choose|m: int| 0 <= m < t1.len() && t1[m] == q;
                assert(s1[m + 1] == q);
                assert(pair_lt(s1[0], s1[m + 1]));
                assert(s1.to_set().contains(q));
                let n = choose|n: int| 0 <= n < s2.len() && s2[n] == q;
                assert(n != 0);
                assert(t2[n - 1] == q);
            }
            if t2.contains(q) {
                let m = choose|m: int| 0 <= m < t2.len() && t2[m] == q;
                assert(s2[m + 1] == q);
                assert(pair_lt(s2[0], s2[m + 1]));
                assert(s2.to_set().contains(q));
                let n = choose|n: int| 0 <= n < s1.len() && s1[n] == q;
                assert(n != 0);
                assert(t1[n - 1] == q);
            }
        }
        assert(t1.to_set() =~= t2.to_set());
        lemma_sorted_unique(t1, t2);
        assert(s1 =~= s2) by {
            assert forall|a: int| 0 <= a < s1.len() implies s1[a] == s2[a] by {
                if a > 0 {
                    assert(s1[a] == t1[a - 1] && s2[a] == t2[a - 1]);
                }
            }
        }
    }
}

/// Scanning twice over the same store contents and the same waiting
/// devices gives requests that list the same devices in the same order,
/// with the same algorithms and timeout; only the request ids may differ.
pub proof fn lemma_scan_idempotent(
    users: Seq<UserDevices>,
    pending: Set<DevicePair>,
    first: KeysClaimRequest,
    second: KeysClaimRequest,
)
    requires
        claim_request_for(first, requested_pairs(users, pending)),
        claim_request_for(second, requested_pairs(users, pending)),
    ensures
        missing_pairs(first.one_time_keys@) == missing_pairs(second.one_time_keys@),
        first.one_time_keys@.len() == second.one_time_keys@.len(),
        forall|i: int|
            0 <= i < first.one_time_keys@.len() ==> (#[trigger] first.one_time_keys@[i]).algorithm
                == second.one_time_keys@[i].algorithm,
        first.timeout_ms == second.timeout_ms,
{
    lemma_sorted_unique(missing_pairs(first.one_time_keys@), missing_pairs(second.one_time_keys@));
    assert(missing_pairs(first.one_time_keys@).len() == first.one_time_keys@.len());
    assert(missing_pairs(second.one_time_keys@).len() == second.one_time_keys@.len());
    assert forall|i: int| 0 <= i < first.one_time_keys@.len() implies (#[trigger] first.one_time_keys@[i]).algorithm
        == second.one_time_keys@[i].algorithm by {
        assert(first.one_time_keys@[i].algorithm == DeviceKeyAlgorithm::SignedCurve25519);
        assert(second.one_time_keys@[i].algorithm == DeviceKeyAlgorithm::SignedCurve25519);
    }
}

/// A device waiting for a key claim is asked for on every scan, whatever
/// sessions it has.
pub proof fn lemma_pending_device_requested(users: Seq<UserDevices>, pending: Set<DevicePair>, device: DevicePair)
    requires
        pending.contains(device),
    ensures
        requested_pairs(users, pending).contains(device),
{
}

proof fn lemma_devices_with_sessions(user_id: Seq<char>, devices: Seq<DeviceSessions>)
    requires
        forall|j: int| 0 <= j < devices.len() ==> !lacks_session(#[trigger] devices[j].sessions),
    ensures
        missing_of_devices(user_id, devices) == Set::<DevicePair>::empty(),
    decreases devices.len(),
{
    if devices.len() > 0 {
        lemma_devices_with_sessions(user_id, devices.drop_last());
        assert(!lacks_session(devices[devices.len() - 1].sessions));
    }
}

/// Once every device of the scanned users that has an identity key holds
/// a session, and no device waits for a key claim, a scan asks for
/// nothing.
pub proof fn lemma_scan_converges(users: Seq<UserDevices>, pending: Set<DevicePair>)
    requires
        pending == Set::<DevicePair>::empty(),
        forall|i: int, j: int|
            0 <= i < users.len() && 0 <= j < users[i].devices@.len() ==> !lacks_session(
                #[trigger] users[i].devices@[j].sessions,
            ),
    ensures
        requested_pairs(users, pending) == Set::<DevicePair>::empty(),
    decreases users.len(),
{
    if users.len() > 0 {
        let rest = users.drop_last();
        assert forall|i: int, j: int|
            0 <= i < rest.len() && 0 <= j < rest[i].devices@.len() implies !lacks_session(
                #[trigger] rest[i].devices@[j].sessions,
            ) by {
            assert(rest[i] == users[i]);
        }
        lemma_scan_converges(rest, pending);
        let last = users[users.len() - 1];
        assert forall|j: int| 0 <= j < last.devices@.len() implies !lacks_session(
            #[trigger] last.devices@[j].sessions,
        ) by {
            assert(users[users.len() - 1].devices@[j] == last.devices@[j]);
        }
        lemma_devices_with_sessions(last.user_id@, last.devices@);
        assert(requested_pairs(users, pending) =~= Set::<DevicePair>::empty());
    }
}

/// Following up on claim outcomes only removes devices from the wedged
/// set; a device is handed back as unwedged at most once, and only if it
/// was wedged.
pub proof fn lemma_unwedged_at_most_once(wedged: Set<DevicePair>, outcomes: Seq<ClaimOutcome>)
    ensures
        wedged_after_claims(wedged, outcomes).subset_of(wedged),
        unwedged_by_claims(wedged, outcomes).no_duplicates(),
        forall|k: int|
            0 <= k < unwedged_by_claims(wedged, outcomes).len() ==> {
                let p = #[trigger] unwedged_by_claims(wedged, outcomes)[k];
                wedged.contains(p) && !wedged_after_claims(wedged, outcomes).contains(p)
            },
    decreases outcomes.len(),
{
    if outcomes.len() > 0 {
        let rest = outcomes.drop_last();
        lemma_unwedged_at_most_once(wedged, rest);
        let prev = unwedged_by_claims(wedged, rest);
        let w = wedged_after_claims(wedged, rest);
        let o = outcomes.last();
        if is_saved(o) && w.contains(outcome_pair(o)) {
            let p = outcome_pair(o);
            assert(!prev.contains(p)) by {
                if prev.contains(p) {
                    let k = choose|k: int| 0 <= k < prev.len() && prev[k] == p;
                    assert(!w.contains(prev[k]));
                }
            }
            let now = prev.push(p);
            assert forall|k: int| 0 <= k < now.len() implies {
                let q = #[trigger] now[k];
                wedged.contains(q) && !w.remove(p).contains(q)
            } by {
                if k < prev.len() {
                    assert(now[k] == prev[k]);
                }
            }
        }
    }
}

/// A device that was never marked wedged gets no dummy message when new
/// sessions are created, for it or for any other device.
pub proof fn lemma_no_spurious_unwedge(wedged: Set<DevicePair>, outcomes: Seq<ClaimOutcome>, device: DevicePair)
    requires
        !wedged.contains(device),
    ensures
        !unwedged_by_claims(wedged, outcomes).contains(device),
{
    lemma_unwedged_at_most_once(wedged, outcomes);
}

/// A device whose only session is older than the unwedging interval is
/// marked wedged when checked; a new session for it then hands it back
/// exactly once for a dummy message, and takes it out of the wedged set.
pub proof fn lemma_stale_device_unwedged_once(
    wedged: Set<DevicePair>,
    device: DevicePair,
    created_ms: u64,
    now_ms: u64,
    outcome: ClaimOutcome,
)
    requires
        age(created_ms, now_ms) > UNWEDGING_INTERVAL_MS,
        is_saved(outcome),
        outcome_pair(outcome) == device,
    ensures
        wedged_after_check(wedged, device, seq![created_ms], now_ms).contains(device),
        unwedged_by_claims(wedged_after_check(wedged, device, seq![created_ms], now_ms), seq![outcome])
            == seq![device],
        !wedged_after_claims(wedged_after_check(wedged, device, seq![created_ms], now_ms), seq![outcome]).contains(
            device,
        ),
{
    let times = seq![created_ms];
    assert(oldest(times) == created_ms);
    let outs = seq![outcome];
    assert(outs.drop_last() =~= Seq::<ClaimOutcome>::empty());
    let marked = wedged_after_check(wedged, device, times, now_ms);
    assert(unwedged_by_claims(marked, outs.drop_last()) == Seq::<DevicePair>::empty());
    assert(wedged_after_claims(marked, outs.drop_last()) == marked);
    assert(unwedged_by_claims(marked, outs) =~= seq![device]);
}

/// Checking a device whose oldest session is not older than the unwedging
/// interval leaves the wedged set as it was.
pub proof fn lemma_young_session_not_wedged(
    wedged: Set<DevicePair>,
    device: DevicePair,
    times: Seq<u64>,
    now_ms: u64,
)
    requires
        times.len() > 0,
        age(oldest(times), now_ms) <= UNWEDGING_INTERVAL_MS,
    ensures
        wedged_after_check(wedged, device, times, now_ms) == wedged,
{
}

} // verus!
