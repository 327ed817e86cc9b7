use panopticon::access::{AccessStore, ScanOutcome, UnlockPlan};
use panopticon::events::{DomainEvent, EventBus, Received, ScanAction, SystemMode, EVENT_BACKLOG};
use panopticon::sentinels::SentinelRegistry;

fn drain(bus: &EventBus, sub: &mut panopticon::events::Subscription) -> Vec<String> {
    let mut out = Vec::new();
    loop {
        match bus.recv(sub) {
            Received::Event(e) => out.push(format!("{e:?}")),
            Received::Lagged(n) => out.push(format!("lagged {n}")),
            Received::Empty => return out,
        }
    }
}

#[test]
fn enrolling_twice_keeps_one_card() {
    let mut bus = EventBus::new(EVENT_BACKLOG);
    let mut store = AccessStore::new(SystemMode::Enroll);
    let a = store.process_scan("80:00:48:23:4C", 1000, true, &mut bus);
    let b = store.process_scan("80:00:48:23:4C", 2000, true, &mut bus);
    let enrolled = ScanOutcome { action: ScanAction::Enrolled, unlock: UnlockPlan::NotRequested };
    assert_eq!(a, enrolled);
    assert_eq!(b, enrolled);
    assert_eq!(store.cards.len(), 1);
    assert_eq!(store.cards[0].tag_id, "80:00:48:23:4C");
    assert_eq!(store.cards[0].created_at, 1000);
    assert_eq!(store.cards[0].label, None);
    assert_eq!(store.scan_log.len(), 2);
    assert_eq!(store.scan_log[1].action, ScanAction::Enrolled);
    assert_eq!(store.scan_log[1].created_at, 2000);
}

#[test]
fn guard_mode_denies_unknown_tag_without_unlock() {
    let mut bus = EventBus::new(EVENT_BACKLOG);
    let mut sub = bus.subscribe();
    let mut store = AccessStore::new(SystemMode::Guard);
    let r = store.process_scan("FF:FF:FF:FF:FF", 5, true, &mut bus);
    assert_eq!(r, ScanOutcome { action: ScanAction::Denied, unlock: UnlockPlan::NotRequested });
    assert!(store.cards.is_empty());
    assert_eq!(
        drain(&bus, &mut sub),
        vec![format!(
            "{:?}",
            DomainEvent::Scan { tag_id: "FF:FF:FF:FF:FF".to_string(), action: ScanAction::Denied, created_at: 5 }
        )]
    );
}

#[test]
fn guard_mode_grants_known_tag_and_plans_unlock() {
    let mut bus = EventBus::new(EVENT_BACKLOG);
    let mut store = AccessStore::new(SystemMode::Enroll);
    store.process_scan("01:02:03:04:05", 1, false, &mut bus);
    store.set_mode(SystemMode::Guard, &mut bus);
    let r = store.process_scan("01:02:03:04:05", 2, true, &mut bus);
    assert_eq!(r, ScanOutcome { action: ScanAction::Granted, unlock: UnlockPlan::Attempt });
    let r = store.process_scan("01:02:03:04:05", 3, false, &mut bus);
    assert_eq!(r, ScanOutcome { action: ScanAction::Granted, unlock: UnlockPlan::SkipNoVendor });
}

#[test]
fn removing_a_card_revokes_access() {
    let mut bus = EventBus::new(EVENT_BACKLOG);
    let mut store = AccessStore::new(SystemMode::Enroll);
    store.process_scan("01:02:03:04:05", 1, false, &mut bus);
    store.process_scan("0A:0B:0C:0D:0E", 1, false, &mut bus);
    assert!(store.remove_card("01:02:03:04:05", &mut bus));
    assert!(!store.remove_card("01:02:03:04:05", &mut bus));
    assert_eq!(store.cards.len(), 1);
    store.set_mode(SystemMode::Guard, &mut bus);
    assert_eq!(store.process_scan("01:02:03:04:05", 2, true, &mut bus).action, ScanAction::Denied);
    assert_eq!(store.process_scan("0A:0B:0C:0D:0E", 2, true, &mut bus).action, ScanAction::Granted);
}

#[test]
fn action_and_mode_names() {
    assert_eq!(ScanAction::Enrolled.as_str(), "enrolled");
    assert_eq!(ScanAction::Granted.as_str(), "granted");
    assert_eq!(ScanAction::Denied.as_str(), "denied");
    assert_eq!(SystemMode::Guard.as_str(), "guard");
    assert_eq!(SystemMode::Enroll.as_str(), "enroll");
}

#[test]
fn bus_drops_oldest_and_reports_lag() {
    let mut bus = EventBus::new(2);
    let mut slow = bus.subscribe();
    for i in 0..5u64 {
        assert!(bus.send(DomainEvent::SentinelDisconnected { id: i }));
    }
    assert_eq!(bus.retained.len(), 2);
    assert_eq!(bus.first_seq, 3);
    assert!(matches!(bus.recv(&mut slow), Received::Lagged(3)));
    assert!(matches!(bus.recv(&mut slow), Received::Event(DomainEvent::SentinelDisconnected { id: 3 })));
    assert!(matches!(bus.recv(&mut slow), Received::Event(DomainEvent::SentinelDisconnected { id: 4 })));
    assert!(matches!(bus.recv(&mut slow), Received::Empty));
    let mut late = bus.subscribe();
    assert!(matches!(bus.recv(&mut late), Received::Empty));
}

#[test]
fn concurrent_sessions_keep_device_connected() {
    let mut bus = EventBus::new(EVENT_BACKLOG);
    let mut reg = SentinelRegistry::new();
    let a = reg.connect("s3cret", 10, &mut bus).unwrap();
    let b = reg.connect("s3cret", 20, &mut bus).unwrap();
    assert_eq!(a, b);
    assert_eq!(reg.sentinels.len(), 1);
    assert_eq!(reg.sentinels[a].active_connections, 2);
    assert_eq!(reg.sentinels[a].last_connected_at, Some(20));
    reg.disconnect(a, &mut bus);
    assert!(reg.sentinels[a].connected);
    assert_eq!(reg.sentinels[a].active_connections, 1);
    reg.disconnect(a, &mut bus);
    assert!(!reg.sentinels[a].connected);
    assert_eq!(reg.sentinels[a].active_connections, 0);
    reg.disconnect(a, &mut bus);
    assert_eq!(reg.sentinels[a].active_connections, 0);
    assert!(!reg.sentinels[a].connected);
}

#[test]
fn connect_refused_only_at_count_limit() {
    let mut bus = EventBus::new(EVENT_BACKLOG);
    let mut reg = SentinelRegistry::new();
    let a = reg.connect("k", 1, &mut bus).unwrap();
    reg.sentinels[a].active_connections = u64::MAX - 1;
    assert_eq!(reg.connect("k", 2, &mut bus), Some(a));
    assert_eq!(reg.connect("k", 3, &mut bus), None);
    assert_eq!(reg.sentinels[a].active_connections, u64::MAX);
    assert_eq!(reg.sentinels[a].last_connected_at, Some(2));
}

#[test]
fn new_secret_registers_new_device() {
    let mut bus = EventBus::new(EVENT_BACKLOG);
    let mut sub = bus.subscribe();
    let mut reg = SentinelRegistry::new();
    let a = reg.connect("one", 1, &mut bus).unwrap();
    let b = reg.connect("two", 1, &mut bus).unwrap();
    assert_eq!((a, b), (0, 1));
    assert_eq!(reg.sentinels[1].name, "sentinel-1");
    assert_eq!(reg.find("two"), Some(1));
    assert_eq!(reg.find("three"), None);
    assert_eq!(
        drain(&bus, &mut sub),
        vec![
            format!("{:?}", DomainEvent::SentinelConnected { id: 0, name: "sentinel-0".to_string() }),
            format!("{:?}", DomainEvent::SentinelConnected { id: 1, name: "sentinel-1".to_string() }),
        ]
    );
}

#[test]
fn device_log_lines_are_recorded_and_reported() {
    let mut bus = EventBus::new(EVENT_BACKLOG);
    let mut reg = SentinelRegistry::new();
    let id = reg.connect("k", 1, &mut bus).unwrap();
    let mut sub = bus.subscribe();
    reg.record_log(id, "[INFO main] up".to_string(), 7, &mut bus);
    reg.record_log(id, "second".to_string(), 8, &mut bus);
    assert_eq!(reg.logs.len(), 2);
    assert_eq!(reg.logs[1].id, 1);
    assert_eq!(reg.logs[0].message, "[INFO main] up");
    assert_eq!(
        drain(&bus, &mut sub)[0],
        format!(
            "{:?}",
            DomainEvent::SentinelLog { sentinel_id: 0, message: "[INFO main] up".to_string(), created_at: 7 }
        )
    );
}
