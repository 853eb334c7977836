use dashmap::DashSet;
use matrix_session_manager::order::{chars_less, pair_less};
use matrix_session_manager::requests::{
    DeviceIdOrAllDevices, DeviceKeyAlgorithm, EventType, KeysClaimRequest, KEY_CLAIM_TIMEOUT_MS,
};
use matrix_session_manager::session_manager::{
    ClaimOutcome, ClaimOutcomeKind, DeviceSessions, KnownSessions, SessionManager, UserDevices,
    UNWEDGING_INTERVAL_MS,
};

const MINUTE_MS: u64 = 60 * 1000;

fn manager() -> SessionManager {
    SessionManager::new(DashSet::new())
}

fn user(user_id: &str, devices: &[(&str, KnownSessions)]) -> UserDevices {
    UserDevices {
        user_id: user_id.to_string(),
        devices: devices
            .iter()
            .map(|(d, s)| DeviceSessions { device_id: d.to_string(), sessions: *s })
            .collect(),
    }
}

fn outcome(user_id: &str, device_id: &str, kind: ClaimOutcomeKind) -> ClaimOutcome {
    ClaimOutcome { user_id: user_id.to_string(), device_id: device_id.to_string(), kind }
}

fn requested(request: &KeysClaimRequest) -> Vec<(String, String, DeviceKeyAlgorithm)> {
    request
        .one_time_keys
        .iter()
        .map(|m| (m.user_id.clone(), m.device_id.clone(), m.algorithm))
        .collect()
}

fn entry(u: &str, d: &str) -> (String, String, DeviceKeyAlgorithm) {
    (u.to_string(), d.to_string(), DeviceKeyAlgorithm::SignedCurve25519)
}

fn pair(u: &str, d: &str) -> (String, String) {
    (u.to_string(), d.to_string())
}

#[test]
fn scan_of_nothing_needs_no_request() {
    let m = manager();
    assert!(m.get_missing_sessions(&vec![]).is_none());
}

#[test]
fn scan_requests_device_without_sessions() {
    let m = manager();
    let users = vec![user("@bob:localhost", &[("BOBDEVICE", KnownSessions::NoSessionList)])];
    let (_, request) = m.get_missing_sessions(&users).unwrap();
    assert_eq!(request.timeout_ms, KEY_CLAIM_TIMEOUT_MS);
    assert_eq!(request.timeout_ms, 10_000);
    assert_eq!(requested(&request), vec![entry("@bob:localhost", "BOBDEVICE")]);
}

#[test]
fn scan_treats_empty_session_list_as_missing() {
    let m = manager();
    let users = vec![user(
        "@bob:localhost",
        &[
            ("EMPTY", KnownSessions::Sessions(0)),
            ("HAS", KnownSessions::Sessions(2)),
            ("NOKEY", KnownSessions::NoIdentityKey),
        ],
    )];
    let (_, request) = m.get_missing_sessions(&users).unwrap();
    assert_eq!(requested(&request), vec![entry("@bob:localhost", "EMPTY")]);
}

#[test]
fn scan_skips_devices_with_sessions_or_without_identity_key() {
    let m = manager();
    let users = vec![user(
        "@bob:localhost",
        &[("HAS", KnownSessions::Sessions(1)), ("NOKEY", KnownSessions::NoIdentityKey)],
    )];
    assert!(m.get_missing_sessions(&users).is_none());
}

#[test]
fn scan_includes_pending_device_with_sessions() {
    let mut m = manager();
    m.add_user_for_key_claim("@bob:localhost".to_string(), "BOBDEVICE".to_string());
    let users = vec![user("@bob:localhost", &[("BOBDEVICE", KnownSessions::Sessions(3))])];
    let (_, request) = m.get_missing_sessions(&users).unwrap();
    assert_eq!(requested(&request), vec![entry("@bob:localhost", "BOBDEVICE")]);
}

#[test]
fn scan_lists_device_once_when_missing_and_pending() {
    let pending = DashSet::new();
    pending.insert(pair("@bob:localhost", "BOBDEVICE"));
    pending.insert(pair("@carol:localhost", "CAROLDEVICE"));
    let m = SessionManager::new(pending);
    let users = vec![
        user("@bob:localhost", &[("BOBDEVICE", KnownSessions::NoSessionList)]),
        user("@bob:localhost", &[("BOBDEVICE", KnownSessions::Sessions(0))]),
    ];
    let (_, request) = m.get_missing_sessions(&users).unwrap();
    assert_eq!(request.one_time_keys.len(), 2);
    assert_eq!(
        requested(&request),
        vec![entry("@bob:localhost", "BOBDEVICE"), entry("@carol:localhost", "CAROLDEVICE")]
    );
}

#[test]
fn scan_twice_gives_same_request_but_new_id() {
    let mut m = manager();
    m.add_user_for_key_claim("@carol:localhost".to_string(), "C1".to_string());
    m.add_user_for_key_claim("@alice:localhost".to_string(), "A1".to_string());
    let users = vec![user(
        "@bob:localhost",
        &[("B1", KnownSessions::NoSessionList), ("B2", KnownSessions::Sessions(0))],
    )];
    let (id1, first) = m.get_missing_sessions(&users).unwrap();
    let (id2, second) = m.get_missing_sessions(&users).unwrap();
    assert_eq!(requested(&first), requested(&second));
    assert_eq!(requested(&first).len(), 4);
    assert_eq!(first.timeout_ms, second.timeout_ms);
    assert_ne!(id1, id2);
}

#[test]
fn end_to_end_session_creation() {
    let mut m = manager();
    let before = vec![user("@bob:localhost", &[("BOBDEVICE", KnownSessions::NoSessionList)])];
    let (_, request) = m.get_missing_sessions(&before).unwrap();
    assert_eq!(requested(&request), vec![entry("@bob:localhost", "BOBDEVICE")]);

    let follow_up = m.receive_keys_claim_response(&vec![outcome(
        "@bob:localhost",
        "BOBDEVICE",
        ClaimOutcomeKind::SessionSaved,
    )]);
    assert_eq!(follow_up.retry_key_shares, vec![pair("@bob:localhost", "BOBDEVICE")]);
    assert!(follow_up.unwedged.is_empty());
    assert_eq!(m.outgoing_request_count(), 0);

    let after = vec![user("@bob:localhost", &[("BOBDEVICE", KnownSessions::Sessions(1))])];
    assert!(m.get_missing_sessions(&after).is_none());
}

#[test]
fn failed_claim_entries_change_nothing() {
    let mut m = manager();
    m.mark_device_as_wedged(
        &"@bob:localhost".to_string(),
        &"B1".to_string(),
        &vec![0],
        61 * MINUTE_MS,
    );
    let follow_up = m.receive_keys_claim_response(&vec![
        outcome("@bob:localhost", "B1", ClaimOutcomeKind::UnknownDevice),
        outcome("@bob:localhost", "B1", ClaimOutcomeKind::StorageError),
        outcome("@bob:localhost", "B1", ClaimOutcomeKind::CryptographicValidationError),
        outcome("@bob:localhost", "B2", ClaimOutcomeKind::SessionSaved),
    ]);
    assert_eq!(follow_up.retry_key_shares, vec![pair("@bob:localhost", "B2")]);
    assert!(follow_up.unwedged.is_empty());
    assert!(m.is_device_wedged(&"@bob:localhost".to_string(), &"B1".to_string()));
}

#[test]
fn wedged_recovery_sends_one_dummy_message() {
    let mut m = manager();
    let u = "@bob:localhost".to_string();
    let d = "BOBDEVICE".to_string();
    m.mark_device_as_wedged(&u, &d, &vec![1_000], 1_000 + 61 * MINUTE_MS);
    assert!(m.is_device_wedged(&u, &d));

    let follow_up =
        m.receive_keys_claim_response(&vec![outcome(&u, &d, ClaimOutcomeKind::SessionSaved)]);
    assert!(!m.is_device_wedged(&u, &d));
    assert_eq!(follow_up.unwedged, vec![pair(&u, &d)]);

    let id = m.enqueue_dummy_message(&u, &d, "ciphertext".to_string());
    assert_eq!(m.outgoing_request_count(), 1);
    let request = m.outgoing_request(id).unwrap();
    assert_eq!(request.request_id, id);
    assert_eq!(request.event_type, EventType::RoomEncrypted);
    assert_eq!(request.messages.len(), 1);
    assert_eq!(request.messages[0].user_id, u);
    assert_eq!(request.messages[0].content, "ciphertext");
    match &request.messages[0].target {
        DeviceIdOrAllDevices::DeviceId(target) => assert_eq!(target, &d),
        DeviceIdOrAllDevices::AllDevices => panic!("dummy message sent to all devices"),
    }
}

#[test]
fn unwedging_happens_once() {
    let mut m = manager();
    let u = "@bob:localhost".to_string();
    let d = "BOBDEVICE".to_string();
    m.mark_device_as_wedged(&u, &d, &vec![0], 2 * 60 * MINUTE_MS);
    let saved = vec![outcome(&u, &d, ClaimOutcomeKind::SessionSaved)];
    assert_eq!(m.receive_keys_claim_response(&saved).unwedged.len(), 1);
    assert!(m.receive_keys_claim_response(&saved).unwedged.is_empty());
}

#[test]
fn duplicate_outcomes_unwedge_once() {
    let mut m = manager();
    let u = "@bob:localhost".to_string();
    let d = "BOBDEVICE".to_string();
    m.mark_device_as_wedged(&u, &d, &vec![0], 2 * 60 * MINUTE_MS);
    let follow_up = m.receive_keys_claim_response(&vec![
        outcome(&u, &d, ClaimOutcomeKind::SessionSaved),
        outcome(&u, &d, ClaimOutcomeKind::SessionSaved),
    ]);
    assert_eq!(follow_up.retry_key_shares.len(), 2);
    assert_eq!(follow_up.unwedged, vec![pair(&u, &d)]);
}

#[test]
fn young_session_is_not_wedged() {
    let mut m = manager();
    let u = "@bob:localhost".to_string();
    let d = "BOBDEVICE".to_string();
    m.mark_device_as_wedged(&u, &d, &vec![0], 59 * MINUTE_MS);
    assert!(!m.is_device_wedged(&u, &d));
    m.mark_device_as_wedged(&u, &d, &vec![0], UNWEDGING_INTERVAL_MS);
    assert!(!m.is_device_wedged(&u, &d));
    let follow_up =
        m.receive_keys_claim_response(&vec![outcome(&u, &d, ClaimOutcomeKind::SessionSaved)]);
    assert!(follow_up.unwedged.is_empty());
    assert_eq!(m.outgoing_request_count(), 0);
}

#[test]
fn session_just_past_interval_is_wedged() {
    let mut m = manager();
    let u = "@bob:localhost".to_string();
    let d = "BOBDEVICE".to_string();
    m.mark_device_as_wedged(&u, &d, &vec![0], UNWEDGING_INTERVAL_MS + 1);
    assert!(m.is_device_wedged(&u, &d));
    assert_eq!(UNWEDGING_INTERVAL_MS, 3_600_000);
}

#[test]
fn only_oldest_session_decides_wedging() {
    let mut m = manager();
    let u = "@bob:localhost".to_string();
    let now = 10 * 60 * MINUTE_MS;
    m.mark_device_as_wedged(&u, &"OLD".to_string(), &vec![now - MINUTE_MS, now - 61 * MINUTE_MS], now);
    assert!(m.is_device_wedged(&u, &"OLD".to_string()));
    m.mark_device_as_wedged(&u, &"NEW".to_string(), &vec![now - MINUTE_MS, now - 2 * MINUTE_MS], now);
    assert!(!m.is_device_wedged(&u, &"NEW".to_string()));
}

#[test]
fn device_without_sessions_is_not_wedged() {
    let mut m = manager();
    let u = "@bob:localhost".to_string();
    let d = "BOBDEVICE".to_string();
    m.mark_device_as_wedged(&u, &d, &vec![], 100 * 60 * MINUTE_MS);
    assert!(!m.is_device_wedged(&u, &d));
}

#[test]
fn future_creation_time_counts_as_new() {
    let mut m = manager();
    let u = "@bob:localhost".to_string();
    let d = "BOBDEVICE".to_string();
    m.mark_device_as_wedged(&u, &d, &vec![u64::MAX], 0);
    assert!(!m.is_device_wedged(&u, &d));
}

#[test]
fn new_session_for_unwedged_device_queues_nothing() {
    let mut m = manager();
    let follow_up = m.receive_keys_claim_response(&vec![outcome(
        "@bob:localhost",
        "BOBDEVICE",
        ClaimOutcomeKind::SessionSaved,
    )]);
    assert!(follow_up.unwedged.is_empty());
    assert!(!m.check_if_unwedged(&"@bob:localhost".to_string(), &"BOBDEVICE".to_string()));
    assert_eq!(m.outgoing_request_count(), 0);
}

#[test]
fn mark_sent_removes_request() {
    let mut m = manager();
    let u = "@bob:localhost".to_string();
    let first = m.enqueue_dummy_message(&u, &"B1".to_string(), "one".to_string());
    let second = m.enqueue_dummy_message(&u, &"B2".to_string(), "two".to_string());
    assert_eq!(m.outgoing_request_count(), 2);
    m.mark_outgoing_request_as_sent(first);
    assert!(m.outgoing_request(first).is_none());
    assert_eq!(m.outgoing_request(second).unwrap().messages[0].content, "two");
    assert_eq!(m.outgoing_request_count(), 1);
}

#[test]
fn mark_sent_of_unknown_id_is_noop() {
    let mut m = manager();
    let id = m.enqueue_dummy_message(&"@bob:localhost".to_string(), &"B1".to_string(), "x".to_string());
    m.mark_outgoing_request_as_sent(id.wrapping_add(1));
    assert_eq!(m.outgoing_request_count(), 1);
    m.mark_outgoing_request_as_sent(id);
    m.mark_outgoing_request_as_sent(id);
    assert_eq!(m.outgoing_request_count(), 0);
}

#[test]
fn scan_orders_entries_by_user_then_device() {
    let mut m = manager();
    m.add_user_for_key_claim("@zed:localhost".to_string(), "A".to_string());
    m.add_user_for_key_claim("@bob:localhost".to_string(), "B".to_string());
    m.add_user_for_key_claim("@bob:localhost".to_string(), "AA".to_string());
    let users = vec![
        user("@carol:localhost", &[("X", KnownSessions::NoSessionList)]),
        user("@bob:localhost", &[("C", KnownSessions::Sessions(0)), ("A", KnownSessions::NoSessionList)]),
    ];
    let (_, request) = m.get_missing_sessions(&users).unwrap();
    assert_eq!(
        requested(&request),
        vec![
            entry("@bob:localhost", "A"),
            entry("@bob:localhost", "AA"),
            entry("@bob:localhost", "B"),
            entry("@bob:localhost", "C"),
            entry("@carol:localhost", "X"),
            entry("@zed:localhost", "A"),
        ]
    );
}

#[test]
fn character_order() {
    let s = |x: &str| x.to_string();
    assert!(chars_less(&s(""), &s("a")));
    assert!(!chars_less(&s("a"), &s("")));
    assert!(!chars_less(&s("abc"), &s("abc")));
    assert!(chars_less(&s("ab"), &s("abc")));
    assert!(chars_less(&s("abc"), &s("abd")));
    assert!(chars_less(&s("B"), &s("a")));
    assert!(chars_less(&s("z"), &s("\u{e9}")));
    assert!(!chars_less(&s("b"), &s("abc")));
}

#[test]
fn pair_order() {
    let s = |x: &str| x.to_string();
    assert!(pair_less(&s("@a"), &s("Z"), &s("@b"), &s("A")));
    assert!(pair_less(&s("@a"), &s("A"), &s("@a"), &s("B")));
    assert!(!pair_less(&s("@a"), &s("B"), &s("@a"), &s("B")));
    assert!(!pair_less(&s("@b"), &s("A"), &s("@a"), &s("Z")));
}
