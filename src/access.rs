//! The access decision engine and the card store it decides against. In
//! `enroll` mode a scan enrolls its tag (set insertion: enrolling a known tag
//! changes nothing); in `guard` mode a known tag is granted and an unlock is
//! attempted, an unknown one is denied. Every scan is logged and reported.
use vstd::prelude::*;
use crate::events::{emitted, DomainEvent, EventBus, ScanAction, SystemMode};
use crate::text::{copy_text, text_eq};

verus! {

/// An enrolled access credential.
#[derive(Debug)]
pub struct Card {
    pub tag_id: String,
    pub label: Option<String>,
    pub created_at: u64,
}

/// An immutable audit record of one processed scan.
#[derive(Debug)]
pub struct ScanLogEntry {
    pub tag_id: String,
    pub action: ScanAction,
    pub created_at: u64,
}

/// What the caller does about the lock after a scan.
#[derive(Clone, Copy, Debug, PartialEq, Eq, Structural)]
pub enum UnlockPlan {
    /// No unlock: the scan was an enrollment or a denial.
    NotRequested,
    /// Unlock the first lock discovered on the vendor account. A failure
    /// there does not change the decision.
    Attempt,
    /// Access was granted but no vendor client is linked; warn and skip.
    SkipNoVendor,
}

/// The decision for one scan.
#[derive(Clone, Copy, Debug, PartialEq, Eq, Structural)]
pub struct ScanOutcome {
    pub action: ScanAction,
    pub unlock: UnlockPlan,
}

/// The decision for a scan of `tag` in `mode`, given the enrolled tags and
/// whether a vendor client is linked.
pub open spec fn scan_decision(
    mode: SystemMode,
    enrolled: Seq<Seq<char>>,
    tag: Seq<char>,
    vendor_linked: bool,
) -> ScanOutcome {
    match mode {
        SystemMode::Enroll => ScanOutcome { action: ScanAction::Enrolled, unlock: UnlockPlan::NotRequested },
        SystemMode::Guard => if enrolled.contains(tag) {
            ScanOutcome {
                action: ScanAction::Granted,
                unlock: if vendor_linked {
                    UnlockPlan::Attempt
                } else {
                    UnlockPlan::SkipNoVendor
                },
            }
        } else {
            ScanOutcome { action: ScanAction::Denied, unlock: UnlockPlan::NotRequested }
        },
    }
}

/// Enrollment as set insertion over the enrolled tags, in enrollment order.
pub open spec fn enroll_tags(enrolled: Seq<Seq<char>>, tag: Seq<char>) -> Seq<Seq<char>> {
    if enrolled.contains(tag) {
        enrolled
    } else {
        enrolled.push(tag)
    }
}

/// The enrolled tags after a scan.
pub open spec fn tags_after_scan(mode: SystemMode, enrolled: Seq<Seq<char>>, tag: Seq<char>) -> Seq<
    Seq<char>,
> {
    match mode {
        SystemMode::Enroll => enroll_tags(enrolled, tag),
        SystemMode::Guard => enrolled,
    }
}

/// Number of entries equal to `tag`.
pub open spec fn rows_for(enrolled: Seq<Seq<char>>, tag: Seq<char>) -> nat
    decreases enrolled.len(),
{
    if enrolled.len() == 0 {
        0
    } else {
        rows_for(enrolled.drop_last(), tag) + if enrolled.last() == tag {
            1nat
        } else {
            0nat
        }
    }
}

/// Enrolling the same tag twice gives the same cards as enrolling it once,
/// with exactly one row for the tag, and both scans are `enrolled`.
pub proof fn lemma_enroll_twice(enrolled: Seq<Seq<char>>, tag: Seq<char>, linked: bool)
    requires
        enrolled.no_duplicates(),
    ensures
        ({
            let once = tags_after_scan(SystemMode::Enroll, enrolled, tag);
            let twice = tags_after_scan(SystemMode::Enroll, once, tag);
            &&& twice == once
            &&& twice.no_duplicates()
            &&& rows_for(twice, tag) == 1
            &&& scan_decision(SystemMode::Enroll, enrolled, tag, linked).action
                == ScanAction::Enrolled
            &&& scan_decision(SystemMode::Enroll, once, tag, linked).action == ScanAction::Enrolled
        }),
{
    let once = enroll_tags(enrolled, tag);
    assert(once.contains(tag)) by {
        if !enrolled.contains(tag) {
            assert(once[once.len() - 1] == tag);
        }
    }
    lemma_rows_for_unique(once, tag);
}

proof fn lemma_rows_for_unique(s: Seq<Seq<char>>, tag: Seq<char>)
    requires
        s.no_duplicates(),
        s.contains(tag),
    ensures
        rows_for(s, tag) == 1,
    decreases s.len(),
{
    let last = s.last();
    let prev = s.drop_last();
    if last == tag {
        assert(!prev.contains(tag)) by {
            if prev.contains(tag) {
                let j = choose|j: int| 0 <= j < prev.len() && prev[j] == tag;
                assert(s[j] == s[s.len() - 1]);
            }
        }
        lemma_rows_for_absent(prev, tag);
    } else {
        let j = choose|j: int| 0 <= j < s.len() && s[j] == tag;
        assert(prev[j] == tag);
        assert(prev.no_duplicates()) by {
            assert forall|a: int, b: int| 0 <= a < prev.len() && 0 <= b < prev.len() && a != b
                implies prev[a] != prev[b] by {
                assert(s[a] != s[b]);
            }
        }
        lemma_rows_for_unique(prev, tag);
    }
}

proof fn lemma_rows_for_absent(s: Seq<Seq<char>>, tag: Seq<char>)
    requires
        !s.contains(tag),
    ensures
        rows_for(s, tag) == 0,
    decreases s.len(),
{
    if s.len() > 0 {
        let prev = s.drop_last();
        assert(!prev.contains(tag)) by {
            if prev.contains(tag) {
                let j = choose|j: int| 0 <= j < prev.len() && prev[j] == tag;
                assert(s[j] == tag);
            }
        }
        lemma_rows_for_absent(prev, tag);
    }
}

/// In `guard` mode an unenrolled tag is denied and no unlock is attempted.
pub proof fn lemma_unenrolled_denied(enrolled: Seq<Seq<char>>, tag: Seq<char>, linked: bool)
    requires
        !enrolled.contains(tag),
    ensures
        scan_decision(SystemMode::Guard, enrolled, tag, linked) == (ScanOutcome {
            action: ScanAction::Denied,
            unlock: UnlockPlan::NotRequested,
        }),
        tags_after_scan(SystemMode::Guard, enrolled, tag) == enrolled,
{
}

/// The system mode, the enrolled cards and the scan log.
pub struct AccessStore {
    pub mode: SystemMode,
    pub cards: Vec<Card>,
    pub scan_log: Vec<ScanLogEntry>,
}

impl AccessStore {
    /// The enrolled tags, in enrollment order.
    pub open spec fn tags(&self) -> Seq<Seq<char>> {
        self.cards@.map_values(|c: Card| c.tag_id@)
    }

    /// A tag identifies at most one card.
    pub open spec fn wf(&self) -> bool {
        self.tags().no_duplicates()
    }

    /// An empty store in the given mode.
    pub fn new(mode: SystemMode) -> (r: AccessStore)
        ensures
            r.wf(),
            r.mode == mode,
            r.cards@.len() == 0,
            r.scan_log@.len() == 0,
    {
        let r = AccessStore { mode, cards: Vec::new(), scan_log: Vec::new() };
        assert(r.tags() =~= Seq::<Seq<char>>::empty());
        r
    }

    /// The index of the card for this tag.
    pub fn find_card(&self, tag_id: &str) -> (r: Option<usize>)
        ensures
            match r {
                Some(i) => i < self.cards@.len() && self.cards@[i as int].tag_id@ == tag_id@,
                None => !self.tags().contains(tag_id@),
            },
    {
        let mut i: usize = 0;
        while i < self.cards.len()
            invariant
                i <= self.cards@.len(),
                forall|k: int| 0 <= k < i ==> (#[trigger] self.cards@[k]).tag_id@ != tag_id@,
            decreases self.cards@.len() - i,
        {
            if text_eq(self.cards[i].tag_id.as_str(), tag_id) {
                return Some(i);
            }
            i = i + 1;
        }
        proof {
            if self.tags().contains(tag_id@) {
                let j = choose|j: int| 0 <= j < self.tags().len() && self.tags()[j] == tag_id@;
                assert(self.cards@[j].tag_id@ == tag_id@);
            }
        }
        None
    }

    /// Processes one scan of a well-formed tag at time `now`: decides, enrolls
    /// in `enroll` mode, appends a scan-log entry, and sends `Scan`, then
    /// `CardAdded` for the tag's card after an enrollment.
    pub fn process_scan(
        &mut self,
        tag_id: &str,
        now: u64,
        vendor_linked: bool,
        bus: &mut EventBus,
    ) -> (r: ScanOutcome)
        requires
            old(self).wf(),
            old(bus).wf(),
        ensures
            final(self).wf(),
            final(self).mode == old(self).mode,
            r == scan_decision(old(self).mode, old(self).tags(), tag_id@, vendor_linked),
            final(self).tags() == tags_after_scan(old(self).mode, old(self).tags(), tag_id@),
            forall|k: int|
                0 <= k < old(self).cards@.len() ==> final(self).cards@[k] == old(self).cards@[k],
            final(self).cards@.len() > old(self).cards@.len() ==> ({
                let c = final(self).cards@.last();
                c.label.is_none() && c.created_at == now
            }),
            final(self).scan_log@.len() == old(self).scan_log@.len() + 1,
            forall|k: int|
                0 <= k < old(self).scan_log@.len() ==> final(self).scan_log@[k]
                    == old(self).scan_log@[k],
            ({
                let e = final(self).scan_log@.last();
                e.tag_id@ == tag_id@ && e.action == r.action && e.created_at == now
            }),
            r.action != ScanAction::Enrolled ==> emitted(
                *old(bus),
                *final(bus),
                DomainEvent::Scan {
                    tag_id: final(self).scan_log@.last().tag_id,
                    action: r.action,
                    created_at: now,
                },
            ),
            r.action == ScanAction::Enrolled ==> exists|mid: EventBus|
                {
                    &&& emitted(
                        *old(bus),
                        mid,
                        DomainEvent::Scan {
                            tag_id: final(self).scan_log@.last().tag_id,
                            action: r.action,
                            created_at: now,
                        },
                    )
                    &&& exists|i: int|
                        0 <= i < final(self).cards@.len() && (#[trigger] final(self).cards@[i]).tag_id@
                            == tag_id@ && emitted(
                            mid,
                            *final(bus),
                            DomainEvent::CardAdded {
                                tag_id: final(self).cards@[i].tag_id,
                                label: final(self).cards@[i].label,
                                created_at: final(self).cards@[i].created_at,
                            },
                        )
                },
    {
        let ghost old_tags = self.tags();
        let found = self.find_card(tag_id);
        let outcome = match self.mode {
            SystemMode::Enroll => {
                if found.is_none() {
                    self.cards.push(Card { tag_id: copy_text(tag_id), label: None, created_at: now });
                    proof {
                        assert(self.tags() =~= old_tags.push(tag_id@));
                        assert forall|a: int, b: int|
                            0 <= a < self.tags().len() && 0 <= b < self.tags().len() && a != b
                            implies self.tags()[a] != self.tags()[b] by {
                            if a < old_tags.len() && b < old_tags.len() {
                                assert(old_tags[a] != old_tags[b]);
                            } else if a < old_tags.len() {
                                assert(old_tags.contains(old_tags[a]));
                            } else {
                                assert(old_tags.contains(old_tags[b]));
                            }
                        }
                    }
                }
                ScanOutcome { action: ScanAction::Enrolled, unlock: UnlockPlan::NotRequested }
            },
            SystemMode::Guard => {
                if found.is_some() {
                    proof {
                        let i = found.unwrap() as int;
                        assert(old_tags[i] == tag_id@);
                    }
                    ScanOutcome {
                        action: ScanAction::Granted,
                        unlock: if vendor_linked {
                            UnlockPlan::Attempt
                        } else {
                            UnlockPlan::SkipNoVendor
                        },
                    }
                } else {
                    ScanOutcome { action: ScanAction::Denied, unlock: UnlockPlan::NotRequested }
                }
            },
        };
        proof {
            if self.mode == SystemMode::Enroll && found.is_some() {
                let i = found.unwrap() as int;
                assert(old_tags[i] == tag_id@);
            }
        }
        self.scan_log.push(
            ScanLogEntry { tag_id: copy_text(tag_id), action: outcome.action, created_at: now },
        );
        let last = self.scan_log.len() - 1;
        let event_tag = self.scan_log[last].tag_id.clone();
        bus.send(DomainEvent::Scan { tag_id: event_tag, action: outcome.action, created_at: now });
        if let ScanAction::Enrolled = outcome.action {
            let ghost mid = *bus;
            proof {
                if found.is_some() {
                    let i = found.unwrap() as int;
                    assert(self.tags()[i] == tag_id@);
                } else {
                    assert(self.tags()[self.tags().len() - 1] == tag_id@);
                }
            }
            let i = match self.find_card(tag_id) {
                Some(i) => i,
                None => {
                    return outcome;
                },
            };
            let c = &self.cards[i];
            let label = match &c.label {
                Some(l) => Some(l.clone()),
                None => None,
            };
            bus.send(
                DomainEvent::CardAdded {
                    tag_id: c.tag_id.clone(),
                    label,
                    created_at: c.created_at,
                },
            );
            assert(emitted(
                mid,
                *bus,
                DomainEvent::CardAdded {
                    tag_id: self.cards@[i as int].tag_id,
                    label: self.cards@[i as int].label,
                    created_at: self.cards@[i as int].created_at,
                },
            ));
        }
        outcome
    }

    /// Changes the system mode and sends `ModeChanged`.
    pub fn set_mode(&mut self, mode: SystemMode, bus: &mut EventBus)
        requires
            old(self).wf(),
            old(bus).wf(),
        ensures
            final(self).wf(),
            final(self).mode == mode,
            final(self).cards@ == old(self).cards@,
            final(self).scan_log@ == old(self).scan_log@,
            emitted(*old(bus), *final(bus), DomainEvent::ModeChanged { mode }),
    {
        self.mode = mode;
        bus.send(DomainEvent::ModeChanged { mode });
    }

    /// Deletes the card for a tag and sends `CardRemoved`. Returns `false`,
    /// with nothing changed, when no card has that tag.
    pub fn remove_card(&mut self, tag_id: &str, bus: &mut EventBus) -> (r: bool)
        requires
            old(self).wf(),
            old(bus).wf(),
        ensures
            final(self).wf(),
            final(self).mode == old(self).mode,
            final(self).scan_log@ == old(self).scan_log@,
            r == old(self).tags().contains(tag_id@),
            !r ==> final(self).cards@ == old(self).cards@ && *final(bus) == *old(bus),
            r ==> exists|i: int|
                0 <= i < old(self).cards@.len() && (#[trigger] old(self).cards@[i]).tag_id@
                    == tag_id@ && final(self).cards@ == old(self).cards@.remove(i) && emitted(
                    *old(bus),
                    *final(bus),
                    DomainEvent::CardRemoved { tag_id: old(self).cards@[i].tag_id },
                ),
    {
        match self.find_card(tag_id) {
            None => false,
            Some(i) => {
                let ghost old_tags = self.tags();
                let ghost old_cards = self.cards@;
                let card = self.cards.remove(i);
                proof {
                    assert(old_tags[i as int] == tag_id@);
                    assert(self.tags() =~= old_tags.remove(i as int));
                    assert forall|a: int, b: int|
                        0 <= a < self.tags().len() && 0 <= b < self.tags().len() && a != b
                        implies self.tags()[a] != self.tags()[b] by {
                        let a2 = if a < i { a } else { a + 1 };
                        let b2 = if b < i { b } else { b + 1 };
                        assert(old_tags[a2] != old_tags[b2]);
                    }
                }
                bus.send(DomainEvent::CardRemoved { tag_id: card.tag_id });
                true
            },
        }
    }
}

} // verus!
