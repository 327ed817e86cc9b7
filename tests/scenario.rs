use panopticon::access::{AccessStore, UnlockPlan};
use panopticon::events::{DomainEvent, EventBus, Received, ScanAction, Subscription, SystemMode, EVENT_BACKLOG};
use panopticon::framing::{Framed, LineFramer, MAX_LINE_LENGTH};
use panopticon::protocol::{ReadEvent, Session, SessionAction};
use panopticon::sentinels::SentinelRegistry;

fn events(bus: &EventBus, sub: &mut Subscription) -> Vec<String> {
    let mut out = Vec::new();
    while let Received::Event(e) = bus.recv(sub) {
        out.push(format!("{e:?}"));
    }
    out
}

/// Runs a connection's bytes through framing, the session and the engine;
/// returns the unlock plans of the scans.
fn run_connection(
    data: &[u8],
    registry: &mut SentinelRegistry,
    store: &mut AccessStore,
    bus: &mut EventBus,
    now: u64,
) -> Vec<UnlockPlan> {
    let mut framer = LineFramer::new(MAX_LINE_LENGTH);
    let mut session = Session::new(b"s3cret".to_vec());
    let mut device = None;
    let mut plans = Vec::new();
    let mut pos = 0;
    loop {
        let (n, ev) = framer.feed(&data[pos..]);
        pos += n;
        let Some(ev) = ev else { continue };
        let end = ev == Framed::End;
        match session.on_read(ReadEvent::Framed(ev)) {
            SessionAction::Authenticated => device = registry.connect("s3cret", now, bus),
            SessionAction::ProcessScan(tag) => plans.push(store.process_scan(&tag, now, true, bus).unlock),
            SessionAction::Disconnected => {
                registry.disconnect(device.unwrap(), bus);
                return plans;
            }
            SessionAction::Rejected(_) => return plans,
            _ => {}
        }
        assert!(!end);
    }
}

#[test]
fn end_to_end_enroll_then_guard() {
    let mut bus = EventBus::new(EVENT_BACKLOG);
    let mut sub = bus.subscribe();
    let mut registry = SentinelRegistry::new();
    let mut store = AccessStore::new(SystemMode::Enroll);

    let plans = run_connection(
        b"AUTHZ: s3cret\nSCAN: 80:00:48:23:4C\n",
        &mut registry,
        &mut store,
        &mut bus,
        100,
    );
    assert_eq!(plans, vec![UnlockPlan::NotRequested]);
    assert_eq!(store.scan_log.len(), 1);
    assert_eq!(store.scan_log[0].action, ScanAction::Enrolled);
    let tag = "80:00:48:23:4C".to_string();
    assert_eq!(
        events(&bus, &mut sub),
        vec![
            format!("{:?}", DomainEvent::SentinelConnected { id: 0, name: "sentinel-0".to_string() }),
            format!("{:?}", DomainEvent::Scan { tag_id: tag.clone(), action: ScanAction::Enrolled, created_at: 100 }),
            format!("{:?}", DomainEvent::CardAdded { tag_id: tag.clone(), label: None, created_at: 100 }),
            format!("{:?}", DomainEvent::SentinelDisconnected { id: 0 }),
        ]
    );

    store.set_mode(SystemMode::Guard, &mut bus);
    let plans = run_connection(
        b"AUTHZ: s3cret\nSCAN: 80:00:48:23:4C\nSCAN: FF:FF:FF:FF:FF\n",
        &mut registry,
        &mut store,
        &mut bus,
        200,
    );
    assert_eq!(plans, vec![UnlockPlan::Attempt, UnlockPlan::NotRequested]);
    assert_eq!(store.cards.len(), 1);
    assert_eq!(store.scan_log.len(), 3);
    assert_eq!(
        events(&bus, &mut sub),
        vec![
            format!("{:?}", DomainEvent::ModeChanged { mode: SystemMode::Guard }),
            format!("{:?}", DomainEvent::SentinelConnected { id: 0, name: "sentinel-0".to_string() }),
            format!("{:?}", DomainEvent::Scan { tag_id: tag.clone(), action: ScanAction::Granted, created_at: 200 }),
            format!(
                "{:?}",
                DomainEvent::Scan { tag_id: "FF:FF:FF:FF:FF".to_string(), action: ScanAction::Denied, created_at: 200 }
            ),
            format!("{:?}", DomainEvent::SentinelDisconnected { id: 0 }),
        ]
    );
    assert!(!registry.sentinels[0].connected);
}

#[test]
fn wrong_secret_never_registers_a_device() {
    let mut bus = EventBus::new(EVENT_BACKLOG);
    let mut registry = SentinelRegistry::new();
    let mut store = AccessStore::new(SystemMode::Enroll);
    let plans = run_connection(b"AUTHZ: guess\nSCAN: 80:00:48:23:4C\n", &mut registry, &mut store, &mut bus, 1);
    assert!(plans.is_empty());
    assert!(registry.sentinels.is_empty());
    assert!(store.scan_log.is_empty());
}
