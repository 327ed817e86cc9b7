//! Domain events and the bounded broadcast bus that carries them. The bus
//! never blocks a producer: when it is full the oldest event is dropped, and
//! a subscriber that had not read it learns how many it missed.
use vstd::prelude::*;

verus! {

/// Events retained for slow subscribers by default.
pub const EVENT_BACKLOG: usize = 64;

/// The server-wide operating state.
#[derive(Clone, Copy, Debug, PartialEq, Eq, Structural)]
pub enum SystemMode {
    Guard,
    Enroll,
}

/// The outcome of one scan.
#[derive(Clone, Copy, Debug, PartialEq, Eq, Structural)]
pub enum ScanAction {
    Enrolled,
    Granted,
    Denied,
}

impl ScanAction {
    /// The wire name: `enrolled`, `granted` or `denied`.
    pub fn as_str(&self) -> (r: &'static str)
        ensures
            r@ == scan_action_name(*self),
    {
        match self {
            ScanAction::Enrolled => {
                proof {
                    reveal_strlit("enrolled");
                }
                let r = "enrolled";
                assert(r@ =~= seq!['e', 'n', 'r', 'o', 'l', 'l', 'e', 'd']);
                r
            },
            ScanAction::Granted => {
                proof {
                    reveal_strlit("granted");
                }
                let r = "granted";
                assert(r@ =~= seq!['g', 'r', 'a', 'n', 't', 'e', 'd']);
                r
            },
            ScanAction::Denied => {
                proof {
                    reveal_strlit("denied");
                }
                let r = "denied";
                assert(r@ =~= seq!['d', 'e', 'n', 'i', 'e', 'd']);
                r
            },
        }
    }
}

pub open spec fn scan_action_name(a: ScanAction) -> Seq<char> {
    match a {
        ScanAction::Enrolled => seq!['e', 'n', 'r', 'o', 'l', 'l', 'e', 'd'],
        ScanAction::Granted => seq!['g', 'r', 'a', 'n', 't', 'e', 'd'],
        ScanAction::Denied => seq!['d', 'e', 'n', 'i', 'e', 'd'],
    }
}

impl SystemMode {
    /// The stored name: `guard` or `enroll`.
    pub fn as_str(&self) -> (r: &'static str)
        ensures
            r@ == mode_name(*self),
    {
        match self {
            SystemMode::Guard => {
                proof {
                    reveal_strlit("guard");
                }
                let r = "guard";
                assert(r@ =~= seq!['g', 'u', 'a', 'r', 'd']);
                r
            },
            SystemMode::Enroll => {
                proof {
                    reveal_strlit("enroll");
                }
                let r = "enroll";
                assert(r@ =~= seq!['e', 'n', 'r', 'o', 'l', 'l']);
                r
            },
        }
    }
}

pub open spec fn mode_name(m: SystemMode) -> Seq<char> {
    match m {
        SystemMode::Guard => seq!['g', 'u', 'a', 'r', 'd'],
        SystemMode::Enroll => seq!['e', 'n', 'r', 'o', 'l', 'l'],
    }
}

/// What the core reports to its listeners. Timestamps are milliseconds
/// since the Unix epoch.
#[derive(Debug, PartialEq, Eq)]
pub enum DomainEvent {
    Scan { tag_id: String, action: ScanAction, created_at: u64 },
    ModeChanged { mode: SystemMode },
    CardAdded { tag_id: String, label: Option<String>, created_at: u64 },
    CardRemoved { tag_id: String },
    LockState { device_id: String, lock_state: String },
    SentinelConnected { id: u64, name: String },
    SentinelDisconnected { id: u64 },
    SentinelLog { sentinel_id: u64, message: String, created_at: u64 },
}

/// A bounded broadcast log: the last `capacity` events, the first of which
/// has sequence number `first_seq`.
pub struct EventBus {
    pub capacity: usize,
    pub retained: Vec<DomainEvent>,
    pub first_seq: u64,
}

/// A subscriber's position: the sequence number of the next event it reads.
#[derive(Clone, Copy, Debug, PartialEq, Eq, Structural)]
pub struct Subscription {
    pub next_seq: u64,
}

/// What a subscriber gets from one read.
#[derive(Debug)]
pub enum Received<'a> {
    Event(&'a DomainEvent),
    /// The subscriber fell behind; this many events were dropped before it
    /// read them. Its position moves to the oldest retained event.
    Lagged(u64),
    /// Nothing new.
    Empty,
}

/// `after` is `before` with `e` sent: appended as the newest event, unless
/// the sequence numbers were exhausted.
pub open spec fn emitted(before: EventBus, after: EventBus, e: DomainEvent) -> bool {
    &&& after.wf()
    &&& after.capacity == before.capacity
    &&& if before.end_seq() < u64::MAX {
        &&& after.end_seq() == before.end_seq() + 1
        &&& after.retained@.len() > 0
        &&& after.retained@.last() == e
    } else {
        after.retained@ == before.retained@ && after.first_seq == before.first_seq
    }
}

impl EventBus {
    pub open spec fn wf(&self) -> bool {
        &&& self.capacity > 0
        &&& self.retained@.len() <= self.capacity
        &&& self.first_seq + self.retained@.len() <= u64::MAX
    }

    /// Sequence number of the next event sent.
    pub open spec fn end_seq(&self) -> int {
        self.first_seq + self.retained@.len()
    }

    /// An empty bus that retains up to `capacity` events.
    pub fn new(capacity: usize) -> (r: EventBus)
        requires
            capacity > 0,
        ensures
            r.wf(),
            r.capacity == capacity,
            r.retained@.len() == 0,
            r.first_seq == 0,
    {
        EventBus { capacity, retained: Vec::new(), first_seq: 0 }
    }

    /// Sends an event to every subscriber. When the bus is full the oldest
    /// event is dropped. Returns `false` only when the sequence numbers are
    /// exhausted, and then the event is dropped.
    pub fn send(&mut self, e: DomainEvent) -> (sent: bool)
        requires
            old(self).wf(),
        ensures
            final(self).wf(),
            final(self).capacity == old(self).capacity,
            sent == (old(self).end_seq() < u64::MAX),
            emitted(*old(self), *final(self), e),
            !sent ==> final(self).retained@ == old(self).retained@ && final(self).first_seq == old(
                self,
            ).first_seq,
            sent ==> final(self).end_seq() == old(self).end_seq() + 1,
            sent && old(self).retained@.len() < old(self).capacity ==> final(self).retained@ == old(
                self,
            ).retained@.push(e) && final(self).first_seq == old(self).first_seq,
            sent && old(self).retained@.len() == old(self).capacity ==> final(self).retained@ == old(
                self,
            ).retained@.push(e).drop_first() && final(self).first_seq == old(self).first_seq + 1,
    {
        if self.first_seq as u128 + self.retained.len() as u128 >= u64::MAX as u128 {
            return false;
        }
        self.retained.push(e);
        if self.retained.len() > self.capacity {
            self.retained.remove(0);
            self.first_seq = self.first_seq + 1;
        }
        true
    }

    /// A subscription that sees every event sent from now on.
    pub fn subscribe(&self) -> (s: Subscription)
        requires
            self.wf(),
        ensures
            s.next_seq == self.end_seq(),
    {
        Subscription { next_seq: self.first_seq + self.retained.len() as u64 }
    }

    /// Reads the next event for a subscriber.
    pub fn recv<'a>(&'a self, sub: &mut Subscription) -> (r: Received<'a>)
        requires
            self.wf(),
        ensures
            old(sub).next_seq < self.first_seq ==> r == Received::Lagged(
                (self.first_seq - old(sub).next_seq) as u64,
            ) && final(sub).next_seq == self.first_seq,
            self.first_seq <= old(sub).next_seq < self.end_seq() ==> r == Received::Event(
                &self.retained@[old(sub).next_seq - self.first_seq],
            ) && final(sub).next_seq == old(sub).next_seq + 1,
            old(sub).next_seq >= self.end_seq() ==> r == Received::<'a>::Empty && *final(sub)
                == *old(sub),
    {
        if sub.next_seq < self.first_seq {
            let missed = self.first_seq - sub.next_seq;
            sub.next_seq = self.first_seq;
            Received::Lagged(missed)
        } else if sub.next_seq - self.first_seq < self.retained.len() as u64 {
            let i = (sub.next_seq - self.first_seq) as usize;
            sub.next_seq = sub.next_seq + 1;
            Received::Event(&self.retained[i])
        } else {
            Received::Empty
        }
    }
}

} // verus!
