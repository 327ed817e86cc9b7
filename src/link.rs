//! The sentinel's side of the link: the lines it writes, the per-tag
//! cooldown that keeps a tag left in the field from re-triggering, and the
//! send-with-one-retry decisions. The device performs the socket work.
use vstd::prelude::*;
use crate::tag::TagId;
use crate::text::{push_char, push_str};

verus! {

/// Milliseconds before the same tag is reported again.
pub const SCAN_COOLDOWN_MS: u64 = 5000;

/// Milliseconds between periodic reconnection checks.
pub const RECONNECT_INTERVAL_MS: u64 = 30000;

/// `text` with each carriage return written as `\r` and each line feed as
/// `\n` (a backslash and a letter), so it cannot split a line.
pub open spec fn escape_breaks(text: Seq<char>) -> Seq<char>
    decreases text.len(),
{
    if text.len() == 0 {
        Seq::empty()
    } else {
        let c = text.last();
        escape_breaks(text.drop_last()) + if c == '\r' {
            seq!['\\', 'r']
        } else if c == '\n' {
            seq!['\\', 'n']
        } else {
            seq![c]
        }
    }
}

/// Appends `text` with its line breaks escaped.
fn push_escaped(s: &mut String, text: &str)
    ensures
        final(s)@ == old(s)@ + escape_breaks(text@),
{
    let n = text.unicode_len();
    let mut i: usize = 0;
    while i < n
        invariant
            n == text@.len(),
            i <= n,
            s@ == old(s)@ + escape_breaks(text@.subrange(0, i as int)),
        decreases n - i,
    {
        let c = text.get_char(i);
        let ghost before = s@;
        if c == '\r' {
            push_char(s, '\\');
            push_char(s, 'r');
        } else if c == '\n' {
            push_char(s, '\\');
            push_char(s, 'n');
        } else {
            push_char(s, c);
        }
        i = i + 1;
        proof {
            let p = text@.subrange(0, i as int);
            assert(p.drop_last() =~= text@.subrange(0, i - 1));
            assert(p.last() == c);
            assert(s@ =~= old(s)@ + escape_breaks(p));
        }
    }
    assert(text@.subrange(0, n as int) =~= text@);
}

/// The authentication line: `AUTHZ: <secret>` and a newline.
pub fn authz_line(secret: &str) -> (r: String)
    ensures
        r@ == seq!['A', 'U', 'T', 'H', 'Z', ':', ' '] + secret@ + seq!['\n'],
{
    let mut s = String::new();
    push_str(&mut s, "AUTHZ: ");
    push_str(&mut s, secret);
    push_char(&mut s, '\n');
    proof {
        reveal_strlit("AUTHZ: ");
    }
    assert(s@ =~= seq!['A', 'U', 'T', 'H', 'Z', ':', ' '] + secret@ + seq!['\n']);
    s
}

/// The scan report line: `SCAN: <tag>` and a newline.
pub fn scan_line(tag_hex: &str) -> (r: String)
    ensures
        r@ == seq!['S', 'C', 'A', 'N', ':', ' '] + tag_hex@ + seq!['\n'],
{
    let mut s = String::new();
    push_str(&mut s, "SCAN: ");
    push_str(&mut s, tag_hex);
    push_char(&mut s, '\n');
    proof {
        reveal_strlit("SCAN: ");
    }
    assert(s@ =~= seq!['S', 'C', 'A', 'N', ':', ' '] + tag_hex@ + seq!['\n']);
    s
}

/// A diagnostic line: `LOG: [<level> <target>] <message>` with every line
/// break inside escaped, and a newline.
pub fn log_line(level: &str, target: &str, message: &str) -> (r: String)
    ensures
        r@ == seq!['L', 'O', 'G', ':', ' ', '['] + escape_breaks(level@) + seq![' ']
            + escape_breaks(target@) + seq![']', ' '] + escape_breaks(message@) + seq!['\n'],
{
    let mut s = String::new();
    push_str(&mut s, "LOG: [");
    push_escaped(&mut s, level);
    push_char(&mut s, ' ');
    push_escaped(&mut s, target);
    push_char(&mut s, ']');
    push_char(&mut s, ' ');
    push_escaped(&mut s, message);
    push_char(&mut s, '\n');
    proof {
        reveal_strlit("LOG: [");
    }
    assert(s@ =~= seq!['L', 'O', 'G', ':', ' ', '['] + escape_breaks(level@) + seq![' ']
        + escape_breaks(target@) + seq![']', ' '] + escape_breaks(message@) + seq!['\n']);
    s
}

/// Byte-wise equality of two tags.
pub fn same_tag(a: &TagId, b: &TagId) -> (r: bool)
    ensures
        r == (a@ == b@),
{
    let r = a[0] == b[0] && a[1] == b[1] && a[2] == b[2] && a[3] == b[3] && a[4] == b[4];
    proof {
        if r {
            assert(a@ =~= b@);
        } else if a@ == b@ {
            assert(a@[0] == b@[0] && a@[1] == b@[1] && a@[2] == b@[2]);
            assert(a@[3] == b@[3] && a@[4] == b@[4]);
        }
    }
    r
}

/// Whether a tag is in the allowlist.
pub fn is_allowed(tag: &TagId, allowed: &[TagId]) -> (r: bool)
    ensures
        r == exists|i: int| 0 <= i < allowed@.len() && (#[trigger] allowed@[i])@ == tag@,
{
    let mut i: usize = 0;
    while i < allowed.len()
        invariant
            i <= allowed@.len(),
            forall|k: int| 0 <= k < i ==> (#[trigger] allowed@[k])@ != tag@,
        decreases allowed@.len() - i,
    {
        if same_tag(&allowed[i], tag) {
            return true;
        }
        i = i + 1;
    }
    false
}

/// Milliseconds from `then` to `now`, zero if the clock reads earlier.
pub open spec fn elapsed(then: u64, now: u64) -> u64 {
    if now >= then {
        (now - then) as u64
    } else {
        0
    }
}

/// The last reported tag and when it was reported.
#[derive(Clone, Copy, Debug)]
pub struct ScanCooldown {
    pub last: Option<(TagId, u64)>,
}

impl ScanCooldown {
    pub fn new() -> (r: ScanCooldown)
        ensures
            r.last.is_none(),
    {
        ScanCooldown { last: None }
    }

    /// Whether a verified read of `tag` at `now_ms` is reported: always for
    /// a tag other than the last one reported, and for the same tag once the
    /// cooldown has passed.
    pub fn should_report(&self, tag: &TagId, now_ms: u64) -> (r: bool)
        ensures
            r == match self.last {
                None => true,
                Some((prev, when)) => prev@ != tag@ || elapsed(when, now_ms) >= SCAN_COOLDOWN_MS,
            },
    {
        match &self.last {
            None => true,
            Some((prev, when)) => {
                let waited = if now_ms >= *when {
                    now_ms - *when
                } else {
                    0
                };
                !same_tag(prev, tag) || waited >= SCAN_COOLDOWN_MS
            },
        }
    }

    /// Notes that `tag` was reported at `now_ms`.
    pub fn record(&mut self, tag: TagId, now_ms: u64)
        ensures
            final(self).last == Some((tag, now_ms)),
    {
        self.last = Some((tag, now_ms));
    }
}

/// Whether the periodic reconnection check is due.
pub fn reconnect_due(last_check_ms: u64, now_ms: u64) -> (r: bool)
    ensures
        r == (elapsed(last_check_ms, now_ms) >= RECONNECT_INTERVAL_MS),
{
    let waited = if now_ms >= last_check_ms {
        now_ms - last_check_ms
    } else {
        0
    };
    waited >= RECONNECT_INTERVAL_MS
}

/// What the device does next while sending one scan line.
#[derive(Clone, Copy, Debug, PartialEq, Eq, Structural)]
pub enum SendStep {
    /// Open the connection and send `AUTHZ`, then report whether a
    /// connection is held.
    Connect,
    /// Write the line, then report whether the write succeeded.
    Write,
    /// Drop the broken connection, reconnect, then report whether a
    /// connection is held.
    ClearAndReconnect,
    /// Drop the broken connection; the line is lost.
    ClearAndDrop,
    /// The line was written.
    Sent,
    /// No connection could be had; the line is lost.
    Dropped,
}

/// One scan line being sent: a failed write is retried once, after a
/// reconnect; a second failure is reported and not retried.
#[derive(Clone, Copy, Debug, PartialEq, Eq, Structural)]
pub struct ScanSend {
    pub retried: bool,
}

impl ScanSend {
    /// Starts a send; reconnects first when no connection is held.
    pub fn start(connected: bool) -> (r: (ScanSend, SendStep))
        ensures
            !r.0.retried,
            r.1 == if connected {
                SendStep::Write
            } else {
                SendStep::Connect
            },
    {
        (ScanSend { retried: false }, if connected {
            SendStep::Write
        } else {
            SendStep::Connect
        })
    }

    /// After a connection attempt: write when connected, else give up.
    pub fn after_connect(&self, connected: bool) -> (r: SendStep)
        ensures
            r == if connected {
                SendStep::Write
            } else {
                SendStep::Dropped
            },
    {
        if connected {
            SendStep::Write
        } else {
            SendStep::Dropped
        }
    }

    /// After a write: done on success; on the first failure reconnect and
    /// retry; on the second, drop the connection and the line.
    pub fn after_write(&mut self, ok: bool) -> (r: SendStep)
        ensures
            ok ==> r == SendStep::Sent && *final(self) == *old(self),
            !ok && !old(self).retried ==> r == SendStep::ClearAndReconnect && final(self).retried,
            !ok && old(self).retried ==> r == SendStep::ClearAndDrop && final(self).retried,
    {
        if ok {
            SendStep::Sent
        } else if !self.retried {
            self.retried = true;
            SendStep::ClearAndReconnect
        } else {
            SendStep::ClearAndDrop
        }
    }
}

} // verus!
