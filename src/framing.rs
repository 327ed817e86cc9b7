//! Bounded line framing for the sentinel connection. Bytes arrive in chunks
//! (whatever the socket buffer holds); the framer consumes them up to and
//! including each newline and never holds more than its maximum line length.
//! An oversized line is drained to its newline and rejected, leaving the
//! stream in step for the next line.
use vstd::prelude::*;
use vstd::utf8::valid_utf8;
use crate::text::text_of;

verus! {

/// Default maximum length of a line, newline included.
pub const MAX_LINE_LENGTH: usize = 8192;

/// The line terminator.
pub const NEWLINE: u8 = 10;

/// Relies on `memchr::memchr`: the index of the first occurrence of the
/// byte, `None` when it does not occur.
#[verifier::external_body]
fn find_byte(needle: u8, haystack: &[u8]) -> (r: Option<usize>)
    ensures
        match r {
            Some(i) => i < haystack@.len() && haystack@[i as int] == needle && forall|k: int|
                0 <= k < i ==> haystack@[k] != needle,
            None => forall|k: int| 0 <= k < haystack@.len() ==> haystack@[k] != needle,
        },
{
    memchr::memchr(needle, haystack)
}

/// A completed read.
#[derive(Debug, PartialEq, Eq)]
pub enum Framed {
    /// A complete line, newline included when the stream had one; always
    /// valid UTF-8.
    Line(Vec<u8>),
    /// The stream ended with no bytes pending.
    End,
    /// A line longer than the maximum; it has been drained.
    TooLong,
    /// A line that is not valid UTF-8.
    NotUtf8,
}

pub ghost enum FramedView {
    Line(Seq<u8>),
    End,
    TooLong,
    NotUtf8,
}

impl Framed {
    pub open spec fn view(&self) -> FramedView {
        match self {
            Framed::Line(l) => FramedView::Line(l@),
            Framed::End => FramedView::End,
            Framed::TooLong => FramedView::TooLong,
            Framed::NotUtf8 => FramedView::NotUtf8,
        }
    }
}

pub open spec fn no_newline(s: Seq<u8>) -> bool {
    forall|i: int| 0 <= i < s.len() ==> s[i] != NEWLINE
}

/// `n` bytes of `chunk` make its next piece: up to and including the first
/// newline, or the whole chunk when it holds none.
pub open spec fn piece_len_ok(chunk: Seq<u8>, n: int) -> bool {
    &&& 0 < n <= chunk.len()
    &&& no_newline(chunk.subrange(0, n - 1))
    &&& (chunk[n - 1] == NEWLINE || n == chunk.len())
}

/// A finished line is handed on when it is valid UTF-8.
pub open spec fn finish_line(line: Seq<u8>) -> FramedView {
    if valid_utf8(line) {
        FramedView::Line(line)
    } else {
        FramedView::NotUtf8
    }
}

/// One framing step on the state `(pending, draining)`: the next state and
/// the completed read, if any. An empty chunk is the end of the stream;
/// otherwise the step consumes the `n` bytes of the chunk's next piece.
pub open spec fn framer_next(
    pending: Seq<u8>,
    draining: bool,
    chunk: Seq<u8>,
    n: int,
    max: int,
) -> (Seq<u8>, bool, Option<FramedView>) {
    if chunk.len() == 0 {
        if draining {
            (Seq::empty(), false, Some(FramedView::TooLong))
        } else if pending.len() == 0 {
            (Seq::empty(), false, Some(FramedView::End))
        } else {
            (Seq::empty(), false, Some(finish_line(pending)))
        }
    } else {
        let piece = chunk.subrange(0, n);
        let ends_line = piece.last() == NEWLINE;
        if draining || pending.len() + n > max {
            if ends_line {
                (Seq::empty(), false, Some(FramedView::TooLong))
            } else {
                (Seq::empty(), true, None)
            }
        } else if ends_line {
            (Seq::empty(), false, Some(finish_line(pending + piece)))
        } else {
            (pending + piece, false, None)
        }
    }
}

/// Line framer state: the bytes of the line read so far, and whether an
/// oversized line is being drained.
pub struct LineFramer {
    pub pending: Vec<u8>,
    pub draining: bool,
    pub max_len: usize,
}

impl LineFramer {
    pub open spec fn wf(&self) -> bool {
        &&& self.pending@.len() <= self.max_len
        &&& self.draining ==> self.pending@.len() == 0
    }

    /// A framer for lines of at most `max_len` bytes, newline included.
    pub fn new(max_len: usize) -> (r: LineFramer)
        ensures
            r.wf(),
            r.pending@.len() == 0,
            !r.draining,
            r.max_len == max_len,
    {
        LineFramer { pending: Vec::new(), draining: false, max_len }
    }

    /// Takes the bytes available on the stream (empty at its end). Returns
    /// how many of them were consumed and the read that completed, if any.
    pub fn feed(&mut self, chunk: &[u8]) -> (r: (usize, Option<Framed>))
        requires
            old(self).wf(),
        ensures
            final(self).wf(),
            final(self).max_len == old(self).max_len,
            chunk@.len() == 0 ==> r.0 == 0,
            chunk@.len() > 0 ==> piece_len_ok(chunk@, r.0 as int),
            ({
                let next = framer_next(
                    old(self).pending@,
                    old(self).draining,
                    chunk@,
                    r.0 as int,
                    old(self).max_len as int,
                );
                &&& final(self).pending@ == next.0
                &&& final(self).draining == next.1
                &&& match r.1 {
                    Some(f) => next.2 == Some(f@),
                    None => next.2.is_none(),
                }
            }),
    {
        if chunk.len() == 0 {
            let was_draining = self.draining;
            let mut line: Vec<u8> = Vec::new();
            core::mem::swap(&mut line, &mut self.pending);
            self.draining = false;
            if was_draining {
                return (0, Some(Framed::TooLong));
            } else if line.len() == 0 {
                return (0, Some(Framed::End));
            } else {
                return (0, Some(Self::finish(line)));
            }
        }
        let (n, ends_line) = match find_byte(NEWLINE, chunk) {
            Some(pos) => (pos + 1, true),
            None => (chunk.len(), false),
        };
        proof {
            assert(chunk@.subrange(0, n as int).last() == chunk@[n - 1]);
            if !ends_line {
                assert(forall|k: int| 0 <= k < chunk@.len() ==> chunk@[k] != NEWLINE);
            }
        }
        if self.draining || n > self.max_len - self.pending.len() {
            self.pending = Vec::new();
            if ends_line {
                self.draining = false;
                (n, Some(Framed::TooLong))
            } else {
                self.draining = true;
                (n, None)
            }
        } else {
            let mut i: usize = 0;
            let ghost start = self.pending@;
            while i < n
                invariant
                    i <= n,
                    n <= chunk@.len(),
                    self.max_len == old(self).max_len,
                    self.draining == old(self).draining,
                    !self.draining,
                    start.len() + n <= self.max_len,
                    self.pending@ == start + chunk@.subrange(0, i as int),
                decreases n - i,
            {
                self.pending.push(chunk[i]);
                i = i + 1;
                assert(chunk@.subrange(0, i as int) =~= chunk@.subrange(0, i - 1).push(
                    chunk@[i - 1],
                ));
            }
            if ends_line {
                let mut line: Vec<u8> = Vec::new();
                core::mem::swap(&mut line, &mut self.pending);
                (n, Some(Self::finish(line)))
            } else {
                (n, None)
            }
        }
    }

    fn finish(line: Vec<u8>) -> (r: Framed)
        ensures
            r@ == finish_line(line@),
    {
        if text_of(line.as_slice()).is_some() {
            Framed::Line(line)
        } else {
            Framed::NotUtf8
        }
    }
}

/// An oversized line does not end the stream's framing: from a clean state,
/// a chunk holding a line longer than the maximum and then a well-formed
/// line yields the rejection first, and the well-formed line next.
pub proof fn lemma_oversized_line_recovers(long: Seq<u8>, good: Seq<u8>, max: int)
    requires
        no_newline(long),
        no_newline(good),
        long.len() as int + 1 > max,
        good.len() as int + 1 <= max,
        valid_utf8(good.push(NEWLINE)),
    ensures
        ({
            let chunk = long.push(NEWLINE) + good.push(NEWLINE);
            let first = framer_next(Seq::empty(), false, chunk, long.len() as int + 1, max);
            let rest = chunk.subrange(long.len() as int + 1, chunk.len() as int);
            let second = framer_next(first.0, first.1, rest, good.len() as int + 1, max);
            &&& piece_len_ok(chunk, long.len() as int + 1)
            &&& first.2 == Some(FramedView::TooLong)
            &&& piece_len_ok(rest, good.len() as int + 1)
            &&& second.2 == Some(FramedView::Line(good.push(NEWLINE)))
            &&& second.0.len() == 0
            &&& !second.1
        }),
{
    let chunk = long.push(NEWLINE) + good.push(NEWLINE);
    let n1: int = long.len() as int + 1;
    assert(chunk.subrange(0, n1 - 1) =~= long);
    assert(chunk.subrange(0, n1).last() == NEWLINE);
    let rest = chunk.subrange(n1, chunk.len() as int);
    assert(rest =~= good.push(NEWLINE));
    assert(rest.subrange(0, good.len() as int) =~= good);
    assert(rest.subrange(0, good.len() as int + 1) =~= rest);
    assert(Seq::<u8>::empty() + rest =~= rest);
}


/// While an oversized line is drained, a chunk without a newline is
/// consumed whole and draining goes on; the chunk that holds the newline is
/// consumed through it, the line is rejected and the state is clean.
pub proof fn lemma_draining_absorbs(chunk: Seq<u8>, max: int)
    requires
        chunk.len() > 0,
    ensures
        no_newline(chunk) ==> piece_len_ok(chunk, chunk.len() as int) && framer_next(
            Seq::empty(),
            true,
            chunk,
            chunk.len() as int,
            max,
        ) == (Seq::<u8>::empty(), true, None::<FramedView>),
        forall|n: int|
            piece_len_ok(chunk, n) && chunk[n - 1] == NEWLINE ==> framer_next(
                Seq::empty(),
                true,
                chunk,
                n,
                max,
            ) == (Seq::<u8>::empty(), false, Some(FramedView::TooLong)),
{
    if no_newline(chunk) {
        assert(chunk.subrange(0, chunk.len() - 1) =~= chunk.drop_last());
        assert(chunk.subrange(0, chunk.len() as int).last() == chunk[chunk.len() - 1]);
    }
    assert forall|n: int| piece_len_ok(chunk, n) && chunk[n - 1] == NEWLINE implies framer_next(
        Seq::empty(),
        true,
        chunk,
        n,
        max,
    ) == (Seq::<u8>::empty(), false, Some(FramedView::TooLong)) by {
        assert(chunk.subrange(0, n).last() == chunk[n - 1]);
    }
}

/// An oversized line split over two chunks at any point is rejected once
/// its newline arrives, with exactly the line consumed and a clean state,
/// and the well-formed line after it is then read normally. With the
/// draining step above, this holds however the line is chunked.
pub proof fn lemma_oversized_split_recovers(long: Seq<u8>, good: Seq<u8>, k: int, max: int)
    requires
        no_newline(long),
        no_newline(good),
        0 < k <= long.len(),
        long.len() as int + 1 > max,
        max >= 0,
        good.len() as int + 1 <= max,
        valid_utf8(good.push(NEWLINE)),
    ensures
        ({
            let c1 = long.subrange(0, k);
            let c2 = long.subrange(k, long.len() as int).push(NEWLINE) + good.push(NEWLINE);
            let n2 = long.len() - k + 1;
            let first = framer_next(Seq::empty(), false, c1, k, max);
            let second = framer_next(first.0, first.1, c2, n2, max);
            let rest = c2.subrange(n2, c2.len() as int);
            let third = framer_next(second.0, second.1, rest, good.len() as int + 1, max);
            &&& piece_len_ok(c1, k)
            &&& first.2.is_none()
            &&& piece_len_ok(c2, n2)
            &&& second == (Seq::<u8>::empty(), false, Some(FramedView::TooLong))
            &&& piece_len_ok(rest, good.len() as int + 1)
            &&& third == (Seq::<u8>::empty(), false, Some(FramedView::Line(good.push(NEWLINE))))
        }),
{
    let c1 = long.subrange(0, k);
    let tail = long.subrange(k, long.len() as int);
    let c2 = tail.push(NEWLINE) + good.push(NEWLINE);
    let n2 = long.len() - k + 1;
    assert(c1.subrange(0, k - 1) =~= long.subrange(0, k - 1));
    assert(c1.subrange(0, k) =~= c1);
    assert(c2.subrange(0, n2 - 1) =~= tail);
    assert(c2.subrange(0, n2).last() == NEWLINE);
    let rest = c2.subrange(n2, c2.len() as int);
    assert(rest =~= good.push(NEWLINE));
    assert(rest.subrange(0, good.len() as int) =~= good);
    assert(rest.subrange(0, good.len() as int + 1) =~= rest);
    assert(Seq::<u8>::empty() + rest =~= rest);
    let first = framer_next(Seq::empty(), false, c1, k, max);
    if k <= max {
        assert(Seq::<u8>::empty() + c1 =~= c1);
        assert(c1.last() != NEWLINE);
        assert(first.0 == c1 && !first.1);
    }
}

} // verus!
