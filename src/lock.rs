//! Lock-vendor data as the core reads it, and the handling of a lock or
//! unlock command response: an immediate lock state is reported at once; a
//! deferred completion yields a capped wait, after which one poll resolves
//! the final state.
use vstd::prelude::*;
use crate::events::{emitted, DomainEvent, EventBus};
use crate::text::{copy_text, text_eq};

verus! {

/// Longest wait, in seconds, for a deferred command completion.
pub const MAX_DEFERRED_WAIT_SECS: u64 = 60;

/// A vendor account user.
#[derive(Debug)]
pub struct User {
    pub id: String,
    pub last_name: String,
    pub first_name: String,
}

/// Basic device information from discovery.
#[derive(Debug)]
pub struct DeviceInfo {
    pub manufacturer: Option<String>,
    pub model: Option<String>,
    pub hw_version: Option<String>,
}

/// Vendor JSON, carried through unread.
#[verifier::external_type_specification]
#[verifier::external_body]
pub struct ExJsonValue(serde_json::Value);

/// A device from discovery. `custom_data` is echoed back to the vendor in
/// queries and commands; the core does not read it.
#[derive(Debug)]
pub struct Device {
    pub id: String,
    pub name: String,
    /// `LOCK`, `SmartLock`, `LIGHT`, ...
    pub category: Option<String>,
    pub handle_type: Option<String>,
    pub device_info: Option<DeviceInfo>,
    pub custom_data: Option<serde_json::Value>,
    pub attributes: Option<serde_json::Value>,
}

/// The categories that denote a lock.
pub open spec fn is_lock_category(c: Option<String>) -> bool {
    match c {
        Some(t) => t@ == seq!['L', 'O', 'C', 'K'] || t@ == seq!['S', 'm', 'a', 'r', 't', 'L', 'o', 'c', 'k'],
        None => false,
    }
}

impl Device {
    /// Whether the device is a lock (category `LOCK` or `SmartLock`).
    pub fn is_lock(&self) -> (r: bool)
        ensures
            r == is_lock_category(self.category),
    {
        match &self.category {
            Some(c) => {
                let lock = "LOCK";
                proof {
                    reveal_strlit("LOCK");
                    assert(lock@ =~= seq!['L', 'O', 'C', 'K']);
                }
                let smart = "SmartLock";
                proof {
                    reveal_strlit("SmartLock");
                    assert(smart@ =~= seq!['S', 'm', 'a', 'r', 't', 'L', 'o', 'c', 'k']);
                }
                text_eq(c.as_str(), lock) || text_eq(c.as_str(), smart)
            },
            None => false,
        }
    }
}

/// The lock a granted scan opens: the first lock among the discovered
/// devices. Accounts with several locks are not routed further.
pub fn first_lock(devices: &[Device]) -> (r: Option<usize>)
    ensures
        match r {
            Some(i) => i < devices@.len() && is_lock_category(devices@[i as int].category) && forall|k: int|
                0 <= k < i ==> !is_lock_category(#[trigger] devices@[k].category),
            None => forall|k: int|
                0 <= k < devices@.len() ==> !is_lock_category(#[trigger] devices@[k].category),
        },
{
    let mut i: usize = 0;
    while i < devices.len()
        invariant
            i <= devices@.len(),
            forall|k: int| 0 <= k < i ==> !is_lock_category(#[trigger] devices@[k].category),
        decreases devices@.len() - i,
    {
        if devices[i].is_lock() {
            return Some(i);
        }
        i = i + 1;
    }
    None
}

/// The value of a device state, as far as the core reads it.
#[derive(Debug)]
pub enum StateValue {
    Text(String),
    /// A non-negative integer.
    Number(u64),
    /// Anything else (a negative or fractional number, a list, an object).
    Other,
}

/// One capability state of a device.
#[derive(Debug)]
pub struct DeviceState {
    pub capability: String,
    pub name: String,
    pub value: StateValue,
}

/// A device with its states, from a query or command response.
#[derive(Debug)]
pub struct DeviceWithStates {
    pub id: String,
    pub states: Vec<DeviceState>,
}

/// A name for what `str::to_lowercase` returns on some text.
pub uninterp spec fn lowercase_of(s: Seq<char>) -> Seq<char>;

/// Relies on `str::to_lowercase`: the lowercase mapping of the text, which
/// depends on its characters alone.
#[verifier::external_body]
fn to_lowercase(s: &str) -> (r: String)
    ensures
        r@ == lowercase_of(s@),
{
    s.to_lowercase()
}

pub open spec fn ascii_lower(c: char) -> char {
    if 'A' <= c && c <= 'Z' {
        ((c as u32 + 32) as u8) as char
    } else {
        c
    }
}

/// Equality up to ASCII case.
pub open spec fn eq_ignore_ascii_case(a: Seq<char>, b: Seq<char>) -> bool {
    a.len() == b.len() && forall|i: int| 0 <= i < a.len() ==> ascii_lower(a[i]) == ascii_lower(#[trigger] b[i])
}

fn lower_ascii_char(c: char) -> (r: char)
    ensures
        r == ascii_lower(c),
{
    if 'A' <= c && c <= 'Z' {
        ((c as u32 + 32) as u8) as char
    } else {
        c
    }
}

/// Compares two strings up to ASCII case.
pub fn text_eq_ignore_ascii_case(a: &str, b: &str) -> (r: bool)
    ensures
        r == eq_ignore_ascii_case(a@, b@),
{
    let n = a.unicode_len();
    if n != b.unicode_len() {
        return false;
    }
    let mut i: usize = 0;
    while i < n
        invariant
            n == a@.len(),
            n == b@.len(),
            i <= n,
            forall|k: int| 0 <= k < i ==> ascii_lower(a@[k]) == ascii_lower(#[trigger] b@[k]),
        decreases n - i,
    {
        if lower_ascii_char(a.get_char(i)) != lower_ascii_char(b.get_char(i)) {
            return false;
        }
        i = i + 1;
    }
    true
}

/// The first state with this capability and name.
pub open spec fn first_state(states: Seq<DeviceState>, capability: Seq<char>, name: Seq<char>) -> Option<
    DeviceState,
>
    decreases states.len(),
{
    if states.len() == 0 {
        None
    } else if states[0].capability@ == capability && states[0].name@ == name {
        Some(states[0])
    } else {
        first_state(states.drop_first(), capability, name)
    }
}

pub open spec fn health_capability() -> Seq<char> {
    seq!['s', 't', '.', 'h', 'e', 'a', 'l', 't', 'h', 'C', 'h', 'e', 'c', 'k']
}

pub open spec fn status_name() -> Seq<char> {
    seq!['s', 't', 'a', 't', 'u', 's']
}

pub open spec fn online_text() -> Seq<char> {
    seq!['o', 'n', 'l', 'i', 'n', 'e']
}

pub open spec fn lock_capability() -> Seq<char> {
    seq!['s', 't', '.', 'l', 'o', 'c', 'k']
}

pub open spec fn lock_state_name() -> Seq<char> {
    seq!['l', 'o', 'c', 'k', 'S', 't', 'a', 't', 'e']
}

pub open spec fn battery_capability() -> Seq<char> {
    seq!['s', 't', '.', 'b', 'a', 't', 't', 'e', 'r', 'y', 'L', 'e', 'v', 'e', 'l']
}

pub open spec fn level_name() -> Seq<char> {
    seq!['l', 'e', 'v', 'e', 'l']
}

pub open spec fn deferred_capability() -> Seq<char> {
    seq!['s', 't', '.', 'd', 'e', 'f', 'e', 'r', 'r', 'e', 'd', 'R', 'e', 's', 'p', 'o', 'n', 's', 'e']
}

pub open spec fn seconds_name() -> Seq<char> {
    seq!['s', 'e', 'c', 'o', 'n', 'd', 's']
}

/// The lock state a device reports, lowercased.
pub open spec fn lock_state_of(d: DeviceWithStates) -> Option<Seq<char>> {
    match first_state(d.states@, lock_capability(), lock_state_name()) {
        Some(s) => match s.value {
            StateValue::Text(t) => Some(lowercase_of(t@)),
            _ => None,
        },
        None => None,
    }
}

/// The wait a device reports for a deferred completion, in seconds.
pub open spec fn deferred_seconds_of(d: DeviceWithStates) -> Option<u64> {
    match first_state(d.states@, deferred_capability(), seconds_name()) {
        Some(s) => match s.value {
            StateValue::Number(n) => Some(n),
            _ => None,
        },
        None => None,
    }
}

/// The wait actually used for a reported one: never above the cap.
pub open spec fn capped_wait(reported: u64) -> u64 {
    if reported > MAX_DEFERRED_WAIT_SECS {
        MAX_DEFERRED_WAIT_SECS
    } else {
        reported
    }
}

/// Whatever wait the vendor reports, the resolver waits no longer than the
/// cap, and exactly the reported time when that is within it.
pub proof fn lemma_wait_capped(reported: u64)
    ensures
        capped_wait(reported) <= MAX_DEFERRED_WAIT_SECS,
        reported <= MAX_DEFERRED_WAIT_SECS ==> capped_wait(reported) == reported,
        reported > MAX_DEFERRED_WAIT_SECS ==> capped_wait(reported) == MAX_DEFERRED_WAIT_SECS,
{
}

impl DeviceWithStates {
    /// Finds a state by capability and name.
    pub fn get_state(&self, capability: &str, name: &str) -> (r: Option<&DeviceState>)
        ensures
            match r {
                Some(s) => first_state(self.states@, capability@, name@) == Some(*s),
                None => first_state(self.states@, capability@, name@).is_none(),
            },
    {
        let n = self.states.len();
        let mut i: usize = 0;
        assert(self.states@.subrange(0, n as int) =~= self.states@);
        while i < n
            invariant
                n == self.states@.len(),
                i <= n,
                first_state(self.states@, capability@, name@) == first_state(
                    self.states@.subrange(i as int, n as int),
                    capability@,
                    name@,
                ),
            decreases n - i,
        {
            let s = &self.states[i];
            let ghost rest = self.states@.subrange(i as int, n as int);
            assert(rest[0] == self.states@[i as int]);
            if text_eq(s.capability.as_str(), capability) && text_eq(s.name.as_str(), name) {
                return Some(s);
            }
            assert(rest.drop_first() =~= self.states@.subrange(i + 1, n as int));
            i = i + 1;
        }
        None
    }

    /// Whether the device reports `st.healthCheck/status` as online, in any
    /// ASCII case.
    pub fn is_online(&self) -> (r: bool)
        ensures
            r == match first_state(self.states@, health_capability(), status_name()) {
                Some(s) => match s.value {
                    StateValue::Text(t) => eq_ignore_ascii_case(t@, online_text()),
                    _ => false,
                },
                None => false,
            },
    {
        let cap = "st.healthCheck";
        proof {
            reveal_strlit("st.healthCheck");
            assert(cap@ =~= seq!['s', 't', '.', 'h', 'e', 'a', 'l', 't', 'h', 'C', 'h', 'e', 'c', 'k']);
        }
        let name = "status";
        proof {
            reveal_strlit("status");
            assert(name@ =~= seq!['s', 't', 'a', 't', 'u', 's']);
        }
        let online = "online";
        proof {
            reveal_strlit("online");
            assert(online@ =~= seq!['o', 'n', 'l', 'i', 'n', 'e']);
        }
        match self.get_state(cap, name) {
            Some(s) => match &s.value {
                StateValue::Text(t) => text_eq_ignore_ascii_case(t.as_str(), online),
                _ => false,
            },
            None => false,
        }
    }

    /// The lock state (`st.lock/lockState`), lowercased.
    pub fn lock_state(&self) -> (r: Option<String>)
        ensures
            match r {
                Some(t) => lock_state_of(*self) == Some(t@),
                None => lock_state_of(*self).is_none(),
            },
    {
        let cap = "st.lock";
        proof {
            reveal_strlit("st.lock");
            assert(cap@ =~= seq!['s', 't', '.', 'l', 'o', 'c', 'k']);
        }
        let name = "lockState";
        proof {
            reveal_strlit("lockState");
            assert(name@ =~= seq!['l', 'o', 'c', 'k', 'S', 't', 'a', 't', 'e']);
        }
        match self.get_state(cap, name) {
            Some(s) => match &s.value {
                StateValue::Text(t) => Some(to_lowercase(t.as_str())),
                _ => None,
            },
            None => None,
        }
    }

    /// The battery level (`st.batteryLevel/level`).
    pub fn battery_level(&self) -> (r: Option<u64>)
        ensures
            r == match first_state(self.states@, battery_capability(), level_name()) {
                Some(s) => match s.value {
                    StateValue::Number(n) => Some(n),
                    _ => None,
                },
                None => None,
            },
    {
        let cap = "st.batteryLevel";
        proof {
            reveal_strlit("st.batteryLevel");
            assert(cap@ =~= seq!['s', 't', '.', 'b', 'a', 't', 't', 'e', 'r', 'y', 'L', 'e', 'v', 'e', 'l']);
        }
        let name = "level";
        proof {
            reveal_strlit("level");
            assert(name@ =~= seq!['l', 'e', 'v', 'e', 'l']);
        }
        match self.get_state(cap, name) {
            Some(s) => match &s.value {
                StateValue::Number(n) => Some(*n),
                _ => None,
            },
            None => None,
        }
    }

    /// The wait reported for a deferred completion
    /// (`st.deferredResponse/seconds`).
    pub fn deferred_seconds(&self) -> (r: Option<u64>)
        ensures
            r == deferred_seconds_of(*self),
    {
        let cap = "st.deferredResponse";
        proof {
            reveal_strlit("st.deferredResponse");
            assert(cap@ =~= seq!['s', 't', '.', 'd', 'e', 'f', 'e', 'r', 'r', 'e', 'd', 'R', 'e', 's', 'p', 'o', 'n', 's', 'e']);
        }
        let name = "seconds";
        proof {
            reveal_strlit("seconds");
            assert(name@ =~= seq!['s', 'e', 'c', 'o', 'n', 'd', 's']);
        }
        match self.get_state(cap, name) {
            Some(s) => match &s.value {
                StateValue::Number(n) => Some(*n),
                _ => None,
            },
            None => None,
        }
    }
}

/// The first result for a device.
pub open spec fn result_for(results: Seq<DeviceWithStates>, device_id: Seq<char>) -> Option<
    DeviceWithStates,
>
    decreases results.len(),
{
    if results.len() == 0 {
        None
    } else if results[0].id@ == device_id {
        Some(results[0])
    } else {
        result_for(results.drop_first(), device_id)
    }
}

fn find_result<'a>(results: &'a [DeviceWithStates], device_id: &str) -> (r: Option<
    &'a DeviceWithStates,
>)
    ensures
        match r {
            Some(d) => result_for(results@, device_id@) == Some(*d),
            None => result_for(results@, device_id@).is_none(),
        },
{
    let n = results.len();
    let mut i: usize = 0;
    assert(results@.subrange(0, n as int) =~= results@);
    while i < n
        invariant
            n == results@.len(),
            i <= n,
            result_for(results@, device_id@) == result_for(
                results@.subrange(i as int, n as int),
                device_id@,
            ),
        decreases n - i,
    {
        let d = &results[i];
        let ghost rest = results@.subrange(i as int, n as int);
        assert(rest[0] == results@[i as int]);
        if text_eq(d.id.as_str(), device_id) {
            return Some(d);
        }
        assert(rest.drop_first() =~= results@.subrange(i + 1, n as int));
        i = i + 1;
    }
    None
}

/// What a lock or unlock command response calls for.
#[derive(Debug, PartialEq, Eq)]
pub struct LockResponse {
    /// The lock state reported at once, lowercased.
    pub lock_state: Option<String>,
    /// The capped wait before the one poll that resolves a deferred
    /// completion.
    pub deferred_wait: Option<u64>,
}

/// Handles a command response for `device_id`: an immediate lock state is
/// sent as `LockState` and returned; otherwise a reported deferred wait is
/// capped and returned for the caller to schedule one poll; otherwise
/// nothing is sent.
pub fn handle_lock_response(
    device_id: &str,
    results: &[DeviceWithStates],
    bus: &mut EventBus,
) -> (r: LockResponse)
    requires
        old(bus).wf(),
    ensures
        final(bus).wf(),
        ({
            let found = result_for(results@, device_id@);
            let state = match found {
                Some(d) => lock_state_of(d),
                None => None,
            };
            let wait = match found {
                Some(d) => match deferred_seconds_of(d) {
                    Some(s) => Some(capped_wait(s)),
                    None => None,
                },
                None => None,
            };
            &&& match r.lock_state {
                Some(t) => state == Some(t@),
                None => state.is_none(),
            }
            &&& r.deferred_wait == if state is Some {
                None
            } else {
                wait
            }
            &&& match r.lock_state {
                Some(t) => exists|d: String|
                    d@ == device_id@ && emitted(
                        *old(bus),
                        *final(bus),
                        DomainEvent::LockState { device_id: d, lock_state: t },
                    ),
                None => *final(bus) == *old(bus),
            }
        }),
{
    let found = find_result(results, device_id);
    let lock_state = match found {
        Some(d) => d.lock_state(),
        None => None,
    };
    match lock_state {
        Some(ls) => {
            let d = copy_text(device_id);
            let event_state = ls.clone();
            bus.send(DomainEvent::LockState { device_id: d, lock_state: event_state });
            LockResponse { lock_state: Some(ls), deferred_wait: None }
        },
        None => {
            let wait = match found {
                Some(d) => match d.deferred_seconds() {
                    Some(s) => Some(if s > MAX_DEFERRED_WAIT_SECS {
                        MAX_DEFERRED_WAIT_SECS
                    } else {
                        s
                    }),
                    None => None,
                },
                None => None,
            };
            LockResponse { lock_state: None, deferred_wait: wait }
        },
    }
}

/// Resolves a deferred completion from the one poll made after the wait:
/// sends `LockState` when the device now reports one. A failed poll sends
/// nothing, and the caller does not call this.
pub fn resolve_deferred(device_id: &str, polled: &DeviceWithStates, bus: &mut EventBus) -> (r:
    Option<String>)
    requires
        old(bus).wf(),
    ensures
        final(bus).wf(),
        match r {
            Some(t) => lock_state_of(*polled) == Some(t@) && exists|d: String|
                d@ == device_id@ && emitted(
                    *old(bus),
                    *final(bus),
                    DomainEvent::LockState { device_id: d, lock_state: t },
                ),
            None => lock_state_of(*polled).is_none() && *final(bus) == *old(bus),
        },
{
    match polled.lock_state() {
        Some(ls) => {
            let d = copy_text(device_id);
            let event_state = ls.clone();
            bus.send(DomainEvent::LockState { device_id: d, lock_state: event_state });
            Some(ls)
        },
        None => None,
    }
}

} // verus!
