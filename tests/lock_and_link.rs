use panopticon::cookie::{clear_session_cookie, encode, extract_session_id_from_cookies, set_session_cookie};
use panopticon::events::{DomainEvent, EventBus, Received, EVENT_BACKLOG};
use panopticon::link::{
    authz_line, is_allowed, log_line, reconnect_due, scan_line, ScanCooldown, ScanSend, SendStep,
};
use panopticon::lock::{
    handle_lock_response, resolve_deferred, text_eq_ignore_ascii_case, DeviceState,
    DeviceWithStates, LockResponse, StateValue, MAX_DEFERRED_WAIT_SECS,
};

fn state(capability: &str, name: &str, value: StateValue) -> DeviceState {
    DeviceState { capability: capability.to_string(), name: name.to_string(), value }
}

fn device(id: &str, states: Vec<DeviceState>) -> DeviceWithStates {
    DeviceWithStates { id: id.to_string(), states }
}

#[test]
fn device_state_getters() {
    let d = device(
        "lock-1",
        vec![
            state("st.healthCheck", "status", StateValue::Text("ONLINE".to_string())),
            state("st.lock", "lockState", StateValue::Text("Locked".to_string())),
            state("st.batteryLevel", "level", StateValue::Number(87)),
            state("st.lock", "lockState", StateValue::Text("Unlocked".to_string())),
        ],
    );
    assert!(d.is_online());
    assert_eq!(d.lock_state(), Some("locked".to_string()));
    assert_eq!(d.battery_level(), Some(87));
    assert_eq!(d.deferred_seconds(), None);
    assert!(d.get_state("st.lock", "other").is_none());
    let offline = device("x", vec![state("st.healthCheck", "status", StateValue::Text("offline".to_string()))]);
    assert!(!offline.is_online());
    assert_eq!(offline.lock_state(), None);
    let odd = device("y", vec![state("st.batteryLevel", "level", StateValue::Other)]);
    assert_eq!(odd.battery_level(), None);
}

#[test]
fn ascii_case_insensitive_compare() {
    assert!(text_eq_ignore_ascii_case("OnLiNe", "online"));
    assert!(!text_eq_ignore_ascii_case("online!", "online"));
    assert!(!text_eq_ignore_ascii_case("\u{c9}", "\u{e9}"));
}

#[test]
fn immediate_lock_state_is_reported() {
    let mut bus = EventBus::new(EVENT_BACKLOG);
    let mut sub = bus.subscribe();
    let results = vec![
        device("other", vec![state("st.lock", "lockState", StateValue::Text("Locked".to_string()))]),
        device("lock-1", vec![state("st.lock", "lockState", StateValue::Text("UNLOCKED".to_string()))]),
    ];
    let r = handle_lock_response("lock-1", &results, &mut bus);
    assert_eq!(r, LockResponse { lock_state: Some("unlocked".to_string()), deferred_wait: None });
    match bus.recv(&mut sub) {
        Received::Event(e) => assert_eq!(
            *e,
            DomainEvent::LockState { device_id: "lock-1".to_string(), lock_state: "unlocked".to_string() }
        ),
        _ => panic!("no event"),
    }
}

#[test]
fn deferred_wait_is_capped() {
    let mut bus = EventBus::new(EVENT_BACKLOG);
    for (reported, expected) in [(5, 5), (60, 60), (61, MAX_DEFERRED_WAIT_SECS), (u64::MAX, MAX_DEFERRED_WAIT_SECS)] {
        let results = vec![device(
            "lock-1",
            vec![state("st.deferredResponse", "seconds", StateValue::Number(reported))],
        )];
        let r = handle_lock_response("lock-1", &results, &mut bus);
        assert_eq!(r, LockResponse { lock_state: None, deferred_wait: Some(expected) });
    }
    assert!(bus.retained.is_empty());
}

#[test]
fn response_without_state_or_deferral_does_nothing() {
    let mut bus = EventBus::new(EVENT_BACKLOG);
    let results = vec![device("lock-1", vec![state("st.deferredResponse", "seconds", StateValue::Other)])];
    assert_eq!(
        handle_lock_response("lock-1", &results, &mut bus),
        LockResponse { lock_state: None, deferred_wait: None }
    );
    assert_eq!(
        handle_lock_response("missing", &results, &mut bus),
        LockResponse { lock_state: None, deferred_wait: None }
    );
    assert!(bus.retained.is_empty());
}

#[test]
fn deferred_poll_resolves_once() {
    let mut bus = EventBus::new(EVENT_BACKLOG);
    let polled = device("lock-1", vec![state("st.lock", "lockState", StateValue::Text("Locked".to_string()))]);
    assert_eq!(resolve_deferred("lock-1", &polled, &mut bus), Some("locked".to_string()));
    assert_eq!(bus.retained.len(), 1);
    let empty = device("lock-1", vec![]);
    assert_eq!(resolve_deferred("lock-1", &empty, &mut bus), None);
    assert_eq!(bus.retained.len(), 1);
}

#[test]
fn link_lines() {
    assert_eq!(authz_line("s3cret"), "AUTHZ: s3cret\n");
    assert_eq!(scan_line("80:00:48:23:4C"), "SCAN: 80:00:48:23:4C\n");
    assert_eq!(log_line("INFO", "sentinel", "hello"), "LOG: [INFO sentinel] hello\n");
    assert_eq!(
        log_line("WARN", "net", "a\r\nSCAN: FF:FF:FF:FF:FF"),
        "LOG: [WARN net] a\\r\\nSCAN: FF:FF:FF:FF:FF\n"
    );
}

#[test]
fn cooldown_blocks_only_the_same_tag() {
    let a = [1, 2, 3, 4, 5];
    let b = [1, 2, 3, 4, 6];
    let mut c = ScanCooldown::new();
    assert!(c.should_report(&a, 0));
    c.record(a, 1000);
    assert!(!c.should_report(&a, 5999));
    assert!(c.should_report(&a, 6000));
    assert!(c.should_report(&b, 1001));
    assert!(!c.should_report(&a, 10));
}

#[test]
fn allowlist_lookup() {
    let allowed = [[128, 0, 72, 35, 76], [128, 0, 12, 99, 200]];
    assert!(is_allowed(&[128, 0, 12, 99, 200], &allowed));
    assert!(!is_allowed(&[128, 0, 12, 99, 201], &allowed));
    assert!(!is_allowed(&[1, 1, 1, 1, 1], &[]));
}

#[test]
fn reconnect_check_interval() {
    assert!(!reconnect_due(1000, 30_999));
    assert!(reconnect_due(1000, 31_000));
    assert!(!reconnect_due(5000, 10));
}

#[test]
fn send_retries_once_after_reconnect() {
    let (mut s, step) = ScanSend::start(true);
    assert_eq!(step, SendStep::Write);
    assert_eq!(s.after_write(false), SendStep::ClearAndReconnect);
    assert_eq!(s.after_connect(true), SendStep::Write);
    assert_eq!(s.after_write(false), SendStep::ClearAndDrop);

    let (mut s, step) = ScanSend::start(false);
    assert_eq!(step, SendStep::Connect);
    assert_eq!(s.after_connect(false), SendStep::Dropped);
    assert_eq!(s.after_write(true), SendStep::Sent);
}

#[test]
fn session_cookie_values() {
    assert_eq!(
        set_session_cookie("abc", false),
        "panopticon_session=abc; HttpOnly; SameSite=Lax; Path=/; Max-Age=2592000"
    );
    assert_eq!(
        set_session_cookie("abc", true),
        "panopticon_session=abc; HttpOnly; SameSite=Lax; Path=/; Max-Age=2592000; Secure"
    );
    assert_eq!(
        clear_session_cookie(true),
        "panopticon_session=; HttpOnly; SameSite=Lax; Path=/; Max-Age=0; Secure"
    );
    assert_eq!(clear_session_cookie(false), "panopticon_session=; HttpOnly; SameSite=Lax; Path=/; Max-Age=0");
}

#[test]
fn session_id_from_cookie_header() {
    assert_eq!(extract_session_id_from_cookies("panopticon_session=abc"), Some("abc"));
    assert_eq!(extract_session_id_from_cookies("a=1;  panopticon_session=xyz ; b=2"), Some("xyz"));
    assert_eq!(extract_session_id_from_cookies("a=1; other_session=xyz"), None);
    assert_eq!(extract_session_id_from_cookies(""), None);
    assert_eq!(extract_session_id_from_cookies("panopticon_session="), Some(""));
}

#[test]
fn hex_encoding_of_bytes() {
    assert_eq!(encode(&[]), "");
    assert_eq!(encode(&[0x00, 0x0f, 0xa5, 0xff]), "000fa5ff");
}

fn discovered(id: &str, category: Option<&str>) -> panopticon::lock::Device {
    panopticon::lock::Device {
        id: id.to_string(),
        name: id.to_string(),
        category: category.map(|c| c.to_string()),
        handle_type: None,
        device_info: None,
        custom_data: Some(serde_json::Value::Bool(true)),
        attributes: None,
    }
}

#[test]
fn first_lock_among_discovered_devices() {
    let devices = vec![
        discovered("bulb", Some("LIGHT")),
        discovered("none", None),
        discovered("door", Some("SmartLock")),
        discovered("gate", Some("LOCK")),
    ];
    assert!(!devices[0].is_lock());
    assert!(devices[2].is_lock());
    assert!(devices[3].is_lock());
    assert!(!discovered("x", Some("lock")).is_lock());
    assert_eq!(panopticon::lock::first_lock(&devices), Some(2));
    assert_eq!(panopticon::lock::first_lock(&devices[..2]), None);
}

#[test]
fn set_cookie_reads_back_as_session_id() {
    let header = set_session_cookie("0a1b2c", true);
    assert_eq!(extract_session_id_from_cookies(&header), Some("0a1b2c"));
    let header = set_session_cookie("", false);
    assert_eq!(extract_session_id_from_cookies(&header), Some(""));
}
