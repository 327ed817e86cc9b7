//! The sentinel line protocol: message classification and the per-connection
//! session state machine (`Authenticating -> Active -> Closed`). The caller
//! performs the reads and the effects; the session decides.
use vstd::prelude::*;
use vstd::utf8::{decode_utf8, valid_utf8};
use crate::framing::{Framed, FramedView};
use crate::tag::{is_valid_tag_id, valid_tag_text};
use crate::text::text_of;

verus! {

/// Seconds allowed between accepting a connection and its `AUTHZ` line.
pub const AUTH_TIMEOUT_SECS: u64 = 10;

/// ASCII whitespace, as trimmed from both ends of a line.
pub open spec fn is_space(b: u8) -> bool {
    b == 32 || (9 <= b && b <= 13)
}

pub open spec fn trim_front(s: Seq<u8>) -> Seq<u8>
    decreases s.len(),
{
    if s.len() > 0 && is_space(s[0]) {
        trim_front(s.drop_first())
    } else {
        s
    }
}

pub open spec fn trim_back(s: Seq<u8>) -> Seq<u8>
    decreases s.len(),
{
    if s.len() > 0 && is_space(s.last()) {
        trim_back(s.drop_last())
    } else {
        s
    }
}

/// A line without its leading and trailing whitespace.
pub open spec fn trimmed(s: Seq<u8>) -> Seq<u8> {
    trim_back(trim_front(s))
}

pub open spec fn has_prefix(s: Seq<u8>, p: Seq<u8>) -> bool {
    s.len() >= p.len() && s.subrange(0, p.len() as int) == p
}

/// `LOG: `
pub open spec fn log_prefix() -> Seq<u8> {
    seq![76u8, 79u8, 71u8, 58u8, 32u8]
}

/// `SCAN: `
pub open spec fn scan_prefix() -> Seq<u8> {
    seq![83u8, 67u8, 65u8, 78u8, 58u8, 32u8]
}

/// `AUTHZ: `
pub open spec fn authz_prefix() -> Seq<u8> {
    seq![65u8, 85u8, 84u8, 72u8, 90u8, 58u8, 32u8]
}

/// A message line, parsed once by a strict prefix match.
#[derive(Debug, PartialEq, Eq)]
pub enum Message {
    /// `LOG: <text>`, with its text.
    Log(String),
    /// `SCAN: <tag>` with a well-formed tag identifier.
    Scan(String),
    /// `SCAN: ` followed by anything but a well-formed tag identifier.
    InvalidScan,
    /// A payload that is not valid UTF-8.
    NotText,
    /// Whitespace only.
    Empty,
    /// Anything else.
    Unknown,
}

pub ghost enum MessageView {
    Log(Seq<char>),
    Scan(Seq<char>),
    InvalidScan,
    NotText,
    Empty,
    Unknown,
}

impl Message {
    pub open spec fn view(&self) -> MessageView {
        match self {
            Message::Log(t) => MessageView::Log(t@),
            Message::Scan(t) => MessageView::Scan(t@),
            Message::InvalidScan => MessageView::InvalidScan,
            Message::NotText => MessageView::NotText,
            Message::Empty => MessageView::Empty,
            Message::Unknown => MessageView::Unknown,
        }
    }
}

/// What a line means.
pub open spec fn line_message(line: Seq<u8>) -> MessageView {
    let t = trimmed(line);
    if t.len() == 0 {
        MessageView::Empty
    } else if has_prefix(t, log_prefix()) {
        let payload = t.subrange(5, t.len() as int);
        if valid_utf8(payload) {
            MessageView::Log(decode_utf8(payload))
        } else {
            MessageView::NotText
        }
    } else if has_prefix(t, scan_prefix()) {
        let payload = t.subrange(6, t.len() as int);
        if !valid_utf8(payload) {
            MessageView::NotText
        } else if valid_tag_text(decode_utf8(payload)) {
            MessageView::Scan(decode_utf8(payload))
        } else {
            MessageView::InvalidScan
        }
    } else {
        MessageView::Unknown
    }
}

/// Whether a line is `AUTHZ: <secret>` for the expected secret.
pub open spec fn authz_ok(line: Seq<u8>, secret: Seq<u8>) -> bool {
    let t = trimmed(line);
    has_prefix(t, authz_prefix()) && t.subrange(7, t.len() as int) == secret
}

fn is_space_byte(b: u8) -> (r: bool)
    ensures
        r == is_space(b),
{
    b == 32 || (9 <= b && b <= 13)
}

/// The bounds `[start, end)` of a line without its surrounding whitespace.
pub fn trim_bounds(line: &[u8]) -> (r: (usize, usize))
    ensures
        r.0 <= r.1 <= line@.len(),
        line@.subrange(r.0 as int, r.1 as int) == trimmed(line@),
{
    let n = line.len();
    let mut a: usize = 0;
    assert(line@.subrange(0, n as int) =~= line@);
    while a < n && is_space_byte(line[a])
        invariant
            n == line@.len(),
            a <= n,
            trim_front(line@) == trim_front(line@.subrange(a as int, n as int)),
        decreases n - a,
    {
        let ghost s = line@.subrange(a as int, n as int);
        assert(s.drop_first() =~= line@.subrange(a + 1, n as int));
        a = a + 1;
    }
    let ghost front = line@.subrange(a as int, n as int);
    assert(a < n ==> front[0] == line@[a as int]);
    assert(trim_front(line@) == front);
    let mut b: usize = n;
    while b > a && is_space_byte(line[b - 1])
        invariant
            n == line@.len(),
            a <= b <= n,
            front == line@.subrange(a as int, n as int),
            trim_back(front) == trim_back(line@.subrange(a as int, b as int)),
        decreases b - a,
    {
        let ghost s = line@.subrange(a as int, b as int);
        assert(s.drop_last() =~= line@.subrange(a as int, b - 1));
        b = b - 1;
    }
    let ghost back = line@.subrange(a as int, b as int);
    assert(b > a ==> back.last() == line@[b - 1]);
    assert(trim_back(back) == back);
    (a, b)
}

fn starts_with(s: &[u8], p: &[u8]) -> (r: bool)
    ensures
        r == has_prefix(s@, p@),
{
    if s.len() < p.len() {
        return false;
    }
    let mut i: usize = 0;
    while i < p.len()
        invariant
            p@.len() <= s@.len(),
            i <= p@.len(),
            forall|k: int| 0 <= k < i ==> s@[k] == p@[k],
        decreases p@.len() - i,
    {
        if s[i] != p[i] {
            assert(s@.subrange(0, p@.len() as int)[i as int] != p@[i as int]);
            return false;
        }
        i = i + 1;
    }
    assert(s@.subrange(0, p@.len() as int) =~= p@);
    true
}

fn bytes_eq(s: &[u8], p: &[u8]) -> (r: bool)
    ensures
        r == (s@ == p@),
{
    if s.len() != p.len() {
        return false;
    }
    let r = starts_with(s, p);
    proof {
        if r {
            assert(s@.subrange(0, p@.len() as int) =~= s@);
        } else {
            assert(s@.subrange(0, p@.len() as int) =~= s@);
        }
    }
    r
}

/// Copies `s[from..to]`.
fn copy_range(s: &[u8], from: usize, to: usize) -> (r: Vec<u8>)
    requires
        from <= to <= s@.len(),
    ensures
        r@ == s@.subrange(from as int, to as int),
{
    let mut v: Vec<u8> = Vec::new();
    let mut i = from;
    while i < to
        invariant
            from <= i <= to,
            to <= s@.len(),
            v@ == s@.subrange(from as int, i as int),
        decreases to - i,
    {
        v.push(s[i]);
        i = i + 1;
        assert(s@.subrange(from as int, i as int) =~= s@.subrange(from as int, i - 1).push(
            s@[i - 1],
        ));
    }
    v
}

/// Parses one line of an authenticated session.
pub fn classify_line(line: &[u8]) -> (r: Message)
    ensures
        r@ == line_message(line@),
{
    let (a, b) = trim_bounds(line);
    let t = copy_range(line, a, b);
    let log_p: [u8; 5] = [76, 79, 71, 58, 32];
    let scan_p: [u8; 6] = [83, 67, 65, 78, 58, 32];
    assert(log_p@ =~= log_prefix());
    assert(scan_p@ =~= scan_prefix());
    if t.len() == 0 {
        Message::Empty
    } else if starts_with(t.as_slice(), log_p.as_slice()) {
        let payload = copy_range(t.as_slice(), 5, t.len());
        match text_of(payload.as_slice()) {
            Some(s) => Message::Log(s.to_owned()),
            None => Message::NotText,
        }
    } else if starts_with(t.as_slice(), scan_p.as_slice()) {
        let payload = copy_range(t.as_slice(), 6, t.len());
        match text_of(payload.as_slice()) {
            Some(s) => {
                if is_valid_tag_id(s) {
                    Message::Scan(s.to_owned())
                } else {
                    Message::InvalidScan
                }
            },
            None => Message::NotText,
        }
    } else {
        Message::Unknown
    }
}

/// Checks an `AUTHZ: <secret>` line against the expected secret.
pub fn check_authz(line: &[u8], secret: &[u8]) -> (r: bool)
    ensures
        r == authz_ok(line@, secret@),
{
    let (a, b) = trim_bounds(line);
    let t = copy_range(line, a, b);
    let authz_p: [u8; 7] = [65, 85, 84, 72, 90, 58, 32];
    assert(authz_p@ =~= authz_prefix());
    if !starts_with(t.as_slice(), authz_p.as_slice()) {
        return false;
    }
    let given = copy_range(t.as_slice(), 7, t.len());
    bytes_eq(given.as_slice(), secret)
}


/// Where a connection stands.
#[derive(Clone, Copy, Debug, PartialEq, Eq, Structural)]
pub enum SessionPhase {
    Authenticating,
    Active,
    Closed,
}

/// Why a connection was dropped before it authenticated.
#[derive(Clone, Copy, Debug, PartialEq, Eq, Structural)]
pub enum RejectReason {
    /// The stream ended before the `AUTHZ` line.
    ClosedBeforeAuthz,
    /// The first line was not `AUTHZ: <secret>` for the expected secret.
    BadAuthz,
    /// No `AUTHZ` line within the authentication timeout.
    TimedOut,
    /// The first read failed.
    ReadFailed,
}

/// Why a line of an authenticated session was skipped.
#[derive(Clone, Copy, Debug, PartialEq, Eq, Structural)]
pub enum IgnoreReason {
    TooLong,
    NotUtf8,
    MalformedTag,
    Unknown,
    Empty,
}

/// The outcome of one read, as the session sees it.
#[derive(Debug, PartialEq, Eq)]
pub enum ReadEvent {
    Framed(Framed),
    /// The socket reported an error.
    Failed,
    /// No data within the allowed time.
    TimedOut,
}

pub ghost enum ReadEventView {
    Framed(FramedView),
    Failed,
    TimedOut,
}

impl ReadEvent {
    pub open spec fn view(&self) -> ReadEventView {
        match self {
            ReadEvent::Framed(f) => ReadEventView::Framed(f@),
            ReadEvent::Failed => ReadEventView::Failed,
            ReadEvent::TimedOut => ReadEventView::TimedOut,
        }
    }
}

/// What the caller must do after a read.
#[derive(Debug, PartialEq, Eq)]
pub enum SessionAction {
    /// Authentication succeeded: count the connection, mark the device
    /// connected and report it.
    Authenticated,
    /// Close the connection; no device identity was established.
    Rejected(RejectReason),
    /// Record a device log line and report it.
    StoreLog(String),
    /// Hand a well-formed tag to the access decision engine.
    ProcessScan(String),
    /// Skip the line and keep reading.
    Ignored(IgnoreReason),
    /// The session is over: run the disconnect cleanup.
    Disconnected,
    /// The session was already closed; nothing to do.
    Finished,
}

pub ghost enum ActionView {
    Authenticated,
    Rejected(RejectReason),
    StoreLog(Seq<char>),
    ProcessScan(Seq<char>),
    Ignored(IgnoreReason),
    Disconnected,
    Finished,
}

impl SessionAction {
    pub open spec fn view(&self) -> ActionView {
        match self {
            SessionAction::Authenticated => ActionView::Authenticated,
            SessionAction::Rejected(r) => ActionView::Rejected(*r),
            SessionAction::StoreLog(t) => ActionView::StoreLog(t@),
            SessionAction::ProcessScan(t) => ActionView::ProcessScan(t@),
            SessionAction::Ignored(r) => ActionView::Ignored(*r),
            SessionAction::Disconnected => ActionView::Disconnected,
            SessionAction::Finished => ActionView::Finished,
        }
    }
}

/// What an authenticated session does with a parsed line.
pub open spec fn message_action(m: MessageView) -> ActionView {
    match m {
        MessageView::Log(t) => ActionView::StoreLog(t),
        MessageView::Scan(t) => ActionView::ProcessScan(t),
        MessageView::InvalidScan => ActionView::Ignored(IgnoreReason::MalformedTag),
        MessageView::NotText => ActionView::Ignored(IgnoreReason::NotUtf8),
        MessageView::Empty => ActionView::Ignored(IgnoreReason::Empty),
        MessageView::Unknown => ActionView::Ignored(IgnoreReason::Unknown),
    }
}

/// One step of the session: the next phase and the action for a read.
pub open spec fn session_step(phase: SessionPhase, secret: Seq<u8>, ev: ReadEventView) -> (
    SessionPhase,
    ActionView,
) {
    match phase {
        SessionPhase::Closed => (SessionPhase::Closed, ActionView::Finished),
        SessionPhase::Authenticating => match ev {
            ReadEventView::Framed(FramedView::Line(l)) => if authz_ok(l, secret) {
                (SessionPhase::Active, ActionView::Authenticated)
            } else {
                (SessionPhase::Closed, ActionView::Rejected(RejectReason::BadAuthz))
            },
            ReadEventView::Framed(FramedView::End) => (
                SessionPhase::Closed,
                ActionView::Rejected(RejectReason::ClosedBeforeAuthz),
            ),
            ReadEventView::Framed(_) => (
                SessionPhase::Closed,
                ActionView::Rejected(RejectReason::BadAuthz),
            ),
            ReadEventView::Failed => (
                SessionPhase::Closed,
                ActionView::Rejected(RejectReason::ReadFailed),
            ),
            ReadEventView::TimedOut => (
                SessionPhase::Closed,
                ActionView::Rejected(RejectReason::TimedOut),
            ),
        },
        SessionPhase::Active => match ev {
            ReadEventView::Framed(FramedView::Line(l)) => (
                SessionPhase::Active,
                message_action(line_message(l)),
            ),
            ReadEventView::Framed(FramedView::TooLong) => (
                SessionPhase::Active,
                ActionView::Ignored(IgnoreReason::TooLong),
            ),
            ReadEventView::Framed(FramedView::NotUtf8) => (
                SessionPhase::Active,
                ActionView::Ignored(IgnoreReason::NotUtf8),
            ),
            _ => (SessionPhase::Closed, ActionView::Disconnected),
        },
    }
}

/// The protocol state of one sentinel connection.
pub struct Session {
    pub phase: SessionPhase,
    pub secret: Vec<u8>,
}

impl Session {
    /// A connection that has just been accepted and awaits `AUTHZ`.
    pub fn new(secret: Vec<u8>) -> (r: Session)
        ensures
            r.phase == SessionPhase::Authenticating,
            r.secret@ == secret@,
    {
        Session { phase: SessionPhase::Authenticating, secret }
    }

    /// Takes the outcome of one read and says what to do.
    pub fn on_read(&mut self, ev: ReadEvent) -> (r: SessionAction)
        ensures
            final(self).secret@ == old(self).secret@,
            (final(self).phase, r@) == session_step(old(self).phase, old(self).secret@, ev@),
    {
        match self.phase {
            SessionPhase::Closed => SessionAction::Finished,
            SessionPhase::Authenticating => {
                let (phase, action) = match ev {
                    ReadEvent::Framed(Framed::Line(l)) => {
                        if check_authz(l.as_slice(), self.secret.as_slice()) {
                            (SessionPhase::Active, SessionAction::Authenticated)
                        } else {
                            (SessionPhase::Closed, SessionAction::Rejected(RejectReason::BadAuthz))
                        }
                    },
                    ReadEvent::Framed(Framed::End) => (
                        SessionPhase::Closed,
                        SessionAction::Rejected(RejectReason::ClosedBeforeAuthz),
                    ),
                    ReadEvent::Framed(_) => (
                        SessionPhase::Closed,
                        SessionAction::Rejected(RejectReason::BadAuthz),
                    ),
                    ReadEvent::Failed => (
                        SessionPhase::Closed,
                        SessionAction::Rejected(RejectReason::ReadFailed),
                    ),
                    ReadEvent::TimedOut => (
                        SessionPhase::Closed,
                        SessionAction::Rejected(RejectReason::TimedOut),
                    ),
                };
                self.phase = phase;
                action
            },
            SessionPhase::Active => {
                let (phase, action) = match ev {
                    ReadEvent::Framed(Framed::Line(l)) => {
                        let action = match classify_line(l.as_slice()) {
                            Message::Log(t) => SessionAction::StoreLog(t),
                            Message::Scan(t) => SessionAction::ProcessScan(t),
                            Message::InvalidScan => SessionAction::Ignored(
                                IgnoreReason::MalformedTag,
                            ),
                            Message::NotText => SessionAction::Ignored(IgnoreReason::NotUtf8),
                            Message::Empty => SessionAction::Ignored(IgnoreReason::Empty),
                            Message::Unknown => SessionAction::Ignored(IgnoreReason::Unknown),
                        };
                        (SessionPhase::Active, action)
                    },
                    ReadEvent::Framed(Framed::TooLong) => (
                        SessionPhase::Active,
                        SessionAction::Ignored(IgnoreReason::TooLong),
                    ),
                    ReadEvent::Framed(Framed::NotUtf8) => (
                        SessionPhase::Active,
                        SessionAction::Ignored(IgnoreReason::NotUtf8),
                    ),
                    _ => (SessionPhase::Closed, SessionAction::Disconnected),
                };
                self.phase = phase;
                action
            },
        }
    }
}

/// A rejected line never ends an authenticated session: an oversized or
/// non-UTF-8 line is skipped with the session still active, and the next
/// line is handled by what it says alone.
pub proof fn lemma_bad_line_keeps_session(secret: Seq<u8>, bad: FramedView, next: Seq<u8>)
    requires
        bad == FramedView::TooLong || bad == FramedView::NotUtf8,
    ensures
        session_step(SessionPhase::Active, secret, ReadEventView::Framed(bad)).0
            == SessionPhase::Active,
        session_step(
            session_step(SessionPhase::Active, secret, ReadEventView::Framed(bad)).0,
            secret,
            ReadEventView::Framed(FramedView::Line(next)),
        ) == (SessionPhase::Active, message_action(line_message(next))),
{
}

} // verus!
