//! Registered sentinel devices and their live connection counts. A device
//! may hold several sessions at once; it is connected while any is open.
use vstd::prelude::*;
use crate::events::{emitted, DomainEvent, EventBus};
use crate::text::{copy_text, push_decimal, push_str, text_eq};

verus! {

/// A registered device. Its secret is the lookup key and is never reported.
#[derive(Debug)]
pub struct Sentinel {
    pub id: u64,
    pub secret: String,
    pub name: String,
    pub active_connections: u64,
    pub connected: bool,
    pub last_connected_at: Option<u64>,
}

/// The connection count after a session opens.
pub open spec fn count_after_connect(c: nat) -> nat {
    c + 1
}

/// The connection count after a session closes; it never goes below zero.
pub open spec fn count_after_disconnect(c: nat) -> nat {
    if c > 0 {
        (c - 1) as nat
    } else {
        0
    }
}

/// The connection count after a run of session openings (`true`) and
/// closings (`false`) from zero.
pub open spec fn count_after(events: Seq<bool>) -> nat
    decreases events.len(),
{
    if events.len() == 0 {
        0
    } else if events.last() {
        count_after_connect(count_after(events.drop_last()))
    } else {
        count_after_disconnect(count_after(events.drop_last()))
    }
}

pub open spec fn opened(events: Seq<bool>) -> int
    decreases events.len(),
{
    if events.len() == 0 {
        0
    } else {
        opened(events.drop_last()) + if events.last() {
            1int
        } else {
            0int
        }
    }
}

pub open spec fn closed(events: Seq<bool>) -> int
    decreases events.len(),
{
    if events.len() == 0 {
        0
    } else {
        closed(events.drop_last()) + if events.last() {
            0int
        } else {
            1int
        }
    }
}

/// Every session closes after it opened: no prefix closes more sessions
/// than it opened.
pub open spec fn well_nested(events: Seq<bool>) -> bool {
    forall|k: int| 0 <= k <= events.len() ==> opened(#[trigger] events.take(k)) >= closed(
        events.take(k),
    )
}

/// Over any run of sessions of one device that each close after they open,
/// the count is the number of open sessions, so the device stays connected
/// until the last session closes and is disconnected once all have closed.
pub proof fn lemma_connected_until_last_close(events: Seq<bool>)
    requires
        well_nested(events),
    ensures
        count_after(events) == opened(events) - closed(events),
        (count_after(events) > 0) == (opened(events) > closed(events)),
    decreases events.len(),
{
    if events.len() > 0 {
        let prev = events.drop_last();
        assert forall|k: int| 0 <= k <= prev.len() implies opened(#[trigger] prev.take(k))
            >= closed(prev.take(k)) by {
            assert(prev.take(k) =~= events.take(k));
        }
        lemma_connected_until_last_close(prev);
        assert(events.take(events.len() as int) =~= events);
    }
}

/// An immutable record of a device-originated diagnostic line.
#[derive(Debug)]
pub struct SentinelLogEntry {
    pub id: u64,
    pub sentinel_id: u64,
    pub message: String,
    pub created_at: u64,
}

pub struct SentinelRegistry {
    pub sentinels: Vec<Sentinel>,
    pub logs: Vec<SentinelLogEntry>,
}

impl SentinelRegistry {
    pub open spec fn wf(&self) -> bool {
        &&& forall|i: int|
            0 <= i < self.sentinels@.len() ==> (#[trigger] self.sentinels@[i]).id == i && (
            self.sentinels@[i].connected == (self.sentinels@[i].active_connections > 0))
        &&& forall|i: int, j: int|
            0 <= i < j < self.sentinels@.len() ==> (#[trigger] self.sentinels@[i]).secret@ != (
            #[trigger] self.sentinels@[j]).secret@
    }

    pub open spec fn has_secret(&self, secret: Seq<char>) -> bool {
        exists|i: int| 0 <= i < self.sentinels@.len() && (#[trigger] self.sentinels@[i]).secret@ == secret
    }

    pub fn new() -> (r: SentinelRegistry)
        ensures
            r.wf(),
            r.sentinels@.len() == 0,
            r.logs@.len() == 0,
    {
        SentinelRegistry { sentinels: Vec::new(), logs: Vec::new() }
    }

    /// The index of the device with this secret.
    pub fn find(&self, secret: &str) -> (r: Option<usize>)
        ensures
            match r {
                Some(i) => i < self.sentinels@.len() && self.sentinels@[i as int].secret@ == secret@,
                None => !self.has_secret(secret@),
            },
    {
        let mut i: usize = 0;
        while i < self.sentinels.len()
            invariant
                i <= self.sentinels@.len(),
                forall|k: int| 0 <= k < i ==> (#[trigger] self.sentinels@[k]).secret@ != secret@,
            decreases self.sentinels@.len() - i,
        {
            if text_eq(self.sentinels[i].secret.as_str(), secret) {
                return Some(i);
            }
            i = i + 1;
        }
        None
    }

    /// Opens an authenticated session for the device with this secret,
    /// registering it first when the secret is new: the device's count goes
    /// up by one, it is marked connected, and `SentinelConnected` is sent.
    /// Returns the device's index; `None`, with nothing changed, only when
    /// the device is known and its count is already `u64::MAX`.
    pub fn connect(&mut self, secret: &str, now: u64, bus: &mut EventBus) -> (r: Option<usize>)
        requires
            old(self).wf(),
            old(bus).wf(),
        ensures
            final(self).wf(),
            final(self).logs@ == old(self).logs@,
            match r {
                Some(i) => {
                    &&& i < final(self).sentinels@.len()
                    &&& final(self).sentinels@[i as int].secret@ == secret@
                    &&& final(self).sentinels@[i as int].connected
                    &&& final(self).sentinels@[i as int].last_connected_at == Some(now)
                    &&& if old(self).has_secret(secret@) {
                        &&& final(self).sentinels@.len() == old(self).sentinels@.len()
                        &&& final(self).sentinels@[i as int].active_connections
                            == old(self).sentinels@[i as int].active_connections + 1
                        &&& final(self).sentinels@[i as int].name
                            == old(self).sentinels@[i as int].name
                    } else {
                        &&& final(self).sentinels@.len() == old(self).sentinels@.len() + 1
                        &&& i == old(self).sentinels@.len()
                        &&& final(self).sentinels@[i as int].active_connections == 1
                    }
                    &&& forall|k: int|
                        0 <= k < old(self).sentinels@.len() && k != i ==> final(self).sentinels@[k]
                            == old(self).sentinels@[k]
                    &&& emitted(
                        *old(bus),
                        *final(bus),
                        DomainEvent::SentinelConnected {
                            id: i as u64,
                            name: final(self).sentinels@[i as int].name,
                        },
                    )
                },
                None => {
                    &&& exists|i: int|
                        0 <= i < old(self).sentinels@.len() && (#[trigger] old(self).sentinels@[i]).secret@
                            == secret@ && old(self).sentinels@[i].active_connections == u64::MAX
                    &&& final(self).sentinels@ == old(self).sentinels@
                    &&& *final(bus) == *old(bus)
                },
            },
    {
        let i = match self.find(secret) {
            Some(i) => i,
            None => {
                let id = self.sentinels.len();
                let mut name = String::new();
                push_str(&mut name, "sentinel-");
                push_decimal(&mut name, id as u64);
                let key = copy_text(secret);
                self.sentinels.push(
                    Sentinel {
                        id: id as u64,
                        secret: key,
                        name,
                        active_connections: 0,
                        connected: false,
                        last_connected_at: None,
                    },
                );
                id
            },
        };
        if self.sentinels[i].active_connections == u64::MAX {
            return None;
        }
        let ghost before = self.sentinels@;
        let mut s = self.sentinels.remove(i);
        s.active_connections = s.active_connections + 1;
        s.connected = true;
        s.last_connected_at = Some(now);
        let name = s.name.clone();
        self.sentinels.insert(i, s);
        assert(forall|k: int| 0 <= k < before.len() && k != i ==> self.sentinels@[k] == before[k]);
        bus.send(DomainEvent::SentinelConnected { id: i as u64, name });
        Some(i)
    }

    /// Closes a session of the device at index `id`: its count goes down by
    /// one (never below zero), it stays connected only while the count is
    /// positive, and `SentinelDisconnected` is sent.
    pub fn disconnect(&mut self, id: usize, bus: &mut EventBus)
        requires
            old(self).wf(),
            old(bus).wf(),
            id < old(self).sentinels@.len(),
        ensures
            final(self).wf(),
            final(self).logs@ == old(self).logs@,
            final(self).sentinels@.len() == old(self).sentinels@.len(),
            final(self).sentinels@[id as int].active_connections == count_after_disconnect(
                old(self).sentinels@[id as int].active_connections as nat,
            ),
            final(self).sentinels@[id as int].connected == (final(self).sentinels@[id as int].active_connections > 0),
            final(self).sentinels@[id as int].secret == old(self).sentinels@[id as int].secret,
            final(self).sentinels@[id as int].name == old(self).sentinels@[id as int].name,
            forall|k: int|
                0 <= k < old(self).sentinels@.len() && k != id ==> final(self).sentinels@[k]
                    == old(self).sentinels@[k],
            emitted(*old(bus), *final(bus), DomainEvent::SentinelDisconnected { id: id as u64 }),
    {
        let ghost before = self.sentinels@;
        let mut s = self.sentinels.remove(id);
        if s.active_connections > 0 {
            s.active_connections = s.active_connections - 1;
        }
        s.connected = s.active_connections > 0;
        self.sentinels.insert(id, s);
        assert(forall|k: int| 0 <= k < before.len() && k != id ==> self.sentinels@[k] == before[k]);
        bus.send(DomainEvent::SentinelDisconnected { id: id as u64 });
    }

    /// Records a log line from the device at index `id` and sends
    /// `SentinelLog`. Entries are numbered in order of arrival.
    pub fn record_log(&mut self, id: usize, message: String, now: u64, bus: &mut EventBus)
        requires
            old(self).wf(),
            old(bus).wf(),
            id < old(self).sentinels@.len(),
        ensures
            final(self).wf(),
            final(self).sentinels@ == old(self).sentinels@,
            final(self).logs@.len() == old(self).logs@.len() + 1,
            forall|k: int| 0 <= k < old(self).logs@.len() ==> final(self).logs@[k] == old(self).logs@[k],
            ({
                let e = final(self).logs@.last();
                &&& e.id == old(self).logs@.len()
                &&& e.sentinel_id == id
                &&& e.message@ == message@
                &&& e.created_at == now
                &&& emitted(
                    *old(bus),
                    *final(bus),
                    DomainEvent::SentinelLog { sentinel_id: id as u64, message: e.message, created_at: now },
                )
            }),
    {
        let text = message.clone();
        self.logs.push(
            SentinelLogEntry {
                id: self.logs.len() as u64,
                sentinel_id: id as u64,
                message,
                created_at: now,
            },
        );
        bus.send(DomainEvent::SentinelLog { sentinel_id: id as u64, message: text, created_at: now });
    }
}

} // verus!
