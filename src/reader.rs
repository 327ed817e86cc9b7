//! The RFID reader: samples the EM4095 demodulator line, recovers a frame,
//! and confirms each tag by two identical consecutive reads.
use vstd::prelude::*;
use crate::frame::{decode_frame, frame_decoding, FRAME_CELLS};
use crate::tag::TagId;

verus! {

/// Manchester bit period used between samples, in microseconds.
pub const DELAY_VAL: u32 = 320;

/// Polls allowed while waiting for a transition on the line.
pub const TIMEOUT: u16 = 1000;

/// Polls after which the line counts as idle before a frame starts.
pub const START_LIMIT: u16 = 600;

/// A pin of the reader could not be driven.
#[derive(Clone, Copy, Debug, PartialEq, Eq, Structural)]
pub struct PinFault;

/// The reader's pins: the demodulated input, the shutdown and modulation
/// outputs, and a microsecond busy-wait. Hardware implements it with GPIO
/// drivers; a host test implements it with a simulated clock and signal.
pub trait ReaderPins {
    /// Samples the demodulated line.
    fn is_high(&mut self) -> bool;

    /// Busy-waits for `us` microseconds.
    fn delay_us(&mut self, us: u32);

    /// Drives the shutdown output.
    fn set_shutdown(&mut self, high: bool) -> Result<(), PinFault>;

    /// Drives the modulation output.
    fn set_modulation(&mut self, high: bool) -> Result<(), PinFault>;
}

/// Double-read confirmation: a decode is surfaced only when it equals the
/// decode just before it in the same pair of reads.
#[derive(Clone, Copy, Debug)]
pub struct Debouncer {
    pub scan_buffer: TagId,
    pub read_count: u8,
}

/// What one decode does to the confirmation state `(pending, buffer)`:
/// the next state and the confirmed tag, if any.
pub open spec fn debounce_step(pending: bool, buffer: Seq<u8>, tag: Seq<u8>) -> (
    bool,
    Seq<u8>,
    Option<Seq<u8>>,
) {
    if !pending {
        (true, tag, None)
    } else if buffer == tag {
        (false, buffer, Some(tag))
    } else {
        (false, buffer, None)
    }
}

/// The confirmed tags after a run of decodes from a fresh state, one entry
/// per decode, and the state after the run.
pub open spec fn debounce_run(decodes: Seq<Seq<u8>>) -> (bool, Seq<u8>, Seq<Option<Seq<u8>>>)
    decreases decodes.len(),
{
    if decodes.len() == 0 {
        (false, seq![0u8, 0u8, 0u8, 0u8, 0u8], Seq::empty())
    } else {
        let prev = debounce_run(decodes.drop_last());
        let step = debounce_step(prev.0, prev.1, decodes.last());
        (step.0, step.1, prev.2.push(step.2))
    }
}

impl Debouncer {
    pub open spec fn wf(&self) -> bool {
        self.read_count <= 1
    }

    pub open spec fn pending(&self) -> bool {
        self.read_count == 1
    }

    /// A fresh state: no read pending.
    pub fn new() -> (r: Debouncer)
        ensures
            r.wf(),
            !r.pending(),
            r.scan_buffer@ == seq![0u8, 0u8, 0u8, 0u8, 0u8],
    {
        let r = Debouncer { scan_buffer: [0u8; 5], read_count: 0 };
        assert(r.scan_buffer@ =~= seq![0u8, 0u8, 0u8, 0u8, 0u8]);
        r
    }

    /// Takes one successful decode. The first of a pair is stored and
    /// withheld; the second is returned when it equals the first. Either way
    /// the second read ends the pair, so a mismatch starts over.
    pub fn confirm(&mut self, tag: TagId) -> (r: Option<TagId>)
        requires
            old(self).wf(),
        ensures
            final(self).wf(),
            ({
                let step = debounce_step(old(self).pending(), old(self).scan_buffer@, tag@);
                &&& final(self).pending() == step.0
                &&& final(self).scan_buffer@ == step.1
                &&& match r {
                    Some(t) => step.2 == Some(t@),
                    None => step.2.is_none(),
                }
            }),
    {
        if self.read_count == 0 {
            self.read_count = 1;
            self.scan_buffer = tag;
            None
        } else {
            self.read_count = 0;
            let b = self.scan_buffer;
            if b[0] == tag[0] && b[1] == tag[1] && b[2] == tag[2] && b[3] == tag[3] && b[4]
                == tag[4] {
                assert(b@ =~= tag@);
                Some(tag)
            } else {
                assert(b@ != tag@) by {
                    if b@ == tag@ {
                        assert(b@[0] == tag@[0] && b@[1] == tag@[1] && b@[2] == tag@[2]);
                        assert(b@[3] == tag@[3] && b@[4] == tag@[4]);
                    }
                }
                None
            }
        }
    }

    /// Forgets any pending read.
    pub fn reset(&mut self)
        ensures
            final(self).wf(),
            !final(self).pending(),
            final(self).scan_buffer@ == seq![0u8, 0u8, 0u8, 0u8, 0u8],
    {
        self.read_count = 0;
        self.scan_buffer = [0u8; 5];
        assert(self.scan_buffer@ =~= seq![0u8, 0u8, 0u8, 0u8, 0u8]);
    }
}

/// The first decode of a session is never surfaced.
pub proof fn lemma_first_decode_withheld(a: Seq<u8>)
    ensures
        debounce_run(seq![a]).2 == seq![None::<Seq<u8>>],
{
    let d = seq![a];
    assert(d.drop_last() =~= Seq::<Seq<u8>>::empty());
    let prev = debounce_run(d.drop_last());
    assert(!prev.0 && prev.2 =~= Seq::<Option<Seq<u8>>>::empty());
    assert(d.last() == a);
    assert(debounce_run(d).2 == prev.2.push(None::<Seq<u8>>));
    assert(prev.2.push(None::<Seq<u8>>) =~= seq![None::<Seq<u8>>]);
}

/// Two identical consecutive decodes surface the tag on the second one;
/// a second decode that differs from the first surfaces nothing.
pub proof fn lemma_second_decode(a: Seq<u8>, b: Seq<u8>)
    ensures
        debounce_run(seq![a, b]).2[1] == (if a == b {
            Some(b)
        } else {
            None
        }),
        debounce_run(seq![a, b]).2[0] == None::<Seq<u8>>,
{
    let d = seq![a, b];
    assert(d.drop_last() =~= seq![a]);
    lemma_first_decode_withheld(a);
    let one = seq![a];
    assert(one.drop_last() =~= Seq::<Seq<u8>>::empty());
    let first = debounce_run(one);
    let empty = debounce_run(one.drop_last());
    assert(!empty.0);
    assert(one.last() == a);
    assert(first.0 && first.1 == a);
    assert(d.last() == b);
    let step = debounce_step(first.0, first.1, b);
    assert(debounce_run(d).2 == first.2.push(step.2));
}

proof fn lemma_run_len(decodes: Seq<Seq<u8>>)
    ensures
        debounce_run(decodes).2.len() == decodes.len(),
        !debounce_run(decodes).0 ==> decodes.len() % 2 == 0,
        debounce_run(decodes).0 ==> decodes.len() % 2 == 1 && debounce_run(decodes).1
            == decodes.last(),
    decreases decodes.len(),
{
    if decodes.len() > 0 {
        lemma_run_len(decodes.drop_last());
    }
}

/// Over any run of decodes, a tag is surfaced only on the second read of a
/// pair, and only when both reads of the pair gave that tag.
pub proof fn lemma_confirmed_only_by_equal_pair(decodes: Seq<Seq<u8>>, i: int)
    requires
        0 <= i < decodes.len(),
        debounce_run(decodes).2[i] is Some,
    ensures
        i % 2 == 1,
        decodes[i - 1] == decodes[i],
        debounce_run(decodes).2[i] == Some(decodes[i]),
    decreases decodes.len(),
{
    let prev = decodes.drop_last();
    lemma_run_len(prev);
    lemma_run_len(decodes);
    if i < decodes.len() - 1 {
        lemma_confirmed_only_by_equal_pair(prev, i);
    } else {
        assert(debounce_run(prev).0);
        assert(prev.last() == decodes[i - 1]);
    }
}

/// What a wait on the line reads from the levels `s` it is served: it polls
/// while the line stays at `level`, counting polls up to `TIMEOUT`, and stops
/// at the first poll that differs or once the count has reached `TIMEOUT`.
/// Gives the count and the levels left; `None` if `s` runs out first.
pub open spec fn wait_run(s: Seq<bool>, level: bool, count: nat) -> Option<(nat, Seq<bool>)>
    decreases s.len(),
{
    if s.len() == 0 {
        None
    } else if s[0] != level || count >= TIMEOUT {
        Some((count, s.drop_first()))
    } else {
        wait_run(s.drop_first(), level, count + 1)
    }
}

/// The header from bit `i` on: each bit waits for the line to fall (a
/// timeout fails) and then must sample high one bit period later. Gives
/// whether the header held and the levels left.
pub open spec fn header_run(s: Seq<bool>, i: nat) -> Option<(bool, Seq<bool>)>
    decreases 8 - i,
{
    if i >= 8 {
        Some((true, s))
    } else {
        match wait_run(s, true, 0) {
            None => None,
            Some((c, r)) => if c == TIMEOUT {
                Some((false, r))
            } else if r.len() == 0 {
                None
            } else if !r[0] {
                Some((false, r.drop_first()))
            } else {
                header_run(r.drop_first(), i + 1)
            },
        }
    }
}

/// The cells after those in `acc`: each is sampled one bit period after the
/// previous transition, then the line must flip before the timeout.
pub open spec fn cells_run(s: Seq<bool>, acc: Seq<bool>) -> Option<(Option<Seq<bool>>, Seq<bool>)>
    decreases 55 - acc.len(),
{
    if acc.len() >= 55 {
        Some((Some(acc), s))
    } else if s.len() == 0 {
        None
    } else {
        match wait_run(s.drop_first(), s[0], 0) {
            None => None,
            Some((c, r)) => if c == TIMEOUT {
                Some((None, r))
            } else {
                cells_run(r, acc.push(s[0]))
            },
        }
    }
}

/// One frame capture from the levels `s` the line serves, in order: the
/// line must rise within `START_LIMIT` polls and still be high one bit
/// period later; eight header bits follow; then, after the last header bit
/// falls, the 55 cells. Gives the cells (`None` for no tag, a malformed
/// preamble or a timeout) and the levels left; `None` if `s` runs out.
pub open spec fn capture_run(s: Seq<bool>) -> Option<(Option<Seq<bool>>, Seq<bool>)> {
    match wait_run(s, false, 0) {
        None => None,
        Some((c0, r0)) => if c0 >= START_LIMIT {
            Some((None, r0))
        } else if r0.len() == 0 {
            None
        } else if !r0[0] {
            Some((None, r0.drop_first()))
        } else {
            match header_run(r0.drop_first(), 0) {
                None => None,
                Some((ok, r1)) => if !ok {
                    Some((None, r1))
                } else {
                    match wait_run(r1, true, 0) {
                        None => None,
                        Some((c2, r2)) => if c2 == TIMEOUT {
                            Some((None, r2))
                        } else {
                            cells_run(r2, Seq::empty())
                        },
                    }
                },
            }
        },
    }
}

/// The cells a capture reading exactly the levels `s` yields.
pub open spec fn capture_of(s: Seq<bool>) -> Option<Seq<bool>> {
    match capture_run(s) {
        Some((cells, _)) => cells,
        None => None,
    }
}

/// The tag a capture reading exactly the levels `s` yields.
pub open spec fn capture_decoding(s: Seq<bool>) -> Option<Seq<u8>> {
    match capture_of(s) {
        Some(cells) => frame_decoding(cells),
        None => None,
    }
}

proof fn lemma_wait_extend(a: Seq<bool>, t: Seq<bool>, level: bool, count: nat)
    requires
        wait_run(a, level, count) is Some,
    ensures
        wait_run(a + t, level, count) == Some(
            (wait_run(a, level, count).unwrap().0, wait_run(a, level, count).unwrap().1 + t),
        ),
        wait_run(a, level, count).unwrap().1.len() == 0 ==> wait_run(a + t, level, count) == Some(
            (wait_run(a, level, count).unwrap().0, t),
        ),
    decreases a.len(),
{
    assert((a + t).drop_first() =~= a.drop_first() + t);
    assert((a + t)[0] == a[0]);
    if !(a[0] != level || count >= TIMEOUT) {
        lemma_wait_extend(a.drop_first(), t, level, count + 1);
    }
    let r = wait_run(a, level, count).unwrap().1;
    if r.len() == 0 {
        assert(r + t =~= t);
    }
}

proof fn lemma_wait_exact(s: Seq<bool>, level: bool, n: nat, k: nat)
    requires
        s.len() == n + 1,
        n <= TIMEOUT,
        k <= n,
        forall|j: int| 0 <= j < n ==> s[j] == level,
        s[n as int] != level || n == TIMEOUT,
    ensures
        wait_run(s.subrange(k as int, s.len() as int), level, k) == Some((n, Seq::<bool>::empty())),
    decreases n - k,
{
    let sub = s.subrange(k as int, s.len() as int);
    assert(sub[0] == s[k as int]);
    if k < n {
        assert(sub.drop_first() =~= s.subrange(k as int + 1, s.len() as int));
        lemma_wait_exact(s, level, n, k + 1);
    } else {
        assert(sub.drop_first() =~= Seq::<bool>::empty());
    }
}

proof fn lemma_header_extend(a: Seq<bool>, t: Seq<bool>, i: nat)
    requires
        header_run(a, i) is Some,
    ensures
        header_run(a + t, i) == Some(
            (header_run(a, i).unwrap().0, header_run(a, i).unwrap().1 + t),
        ),
        header_run(a, i).unwrap().1.len() == 0 ==> header_run(a + t, i) == Some(
            (header_run(a, i).unwrap().0, t),
        ),
    decreases 8 - i,
{
    if i < 8 {
        let (c, r) = wait_run(a, true, 0).unwrap();
        lemma_wait_extend(a, t, true, 0);
        if c != TIMEOUT && r.len() > 0 {
            assert((r + t)[0] == r[0]);
            assert((r + t).drop_first() =~= r.drop_first() + t);
            if r[0] {
                lemma_header_extend(r.drop_first(), t, i + 1);
            }
        }
    }
    let r = header_run(a, i).unwrap().1;
    if r.len() == 0 {
        assert(r + t =~= t);
    }
}

/// Driver for the EM4095 reader chip. `levels` and `delays` record, for the
/// proofs, every level the line has served and every delay waited.
pub struct RFIDuino<P: ReaderPins> {
    pub pins: P,
    pub debounce: Debouncer,
    pub levels: Ghost<Seq<bool>>,
    pub delays: Ghost<Seq<u32>>,
}

impl<P: ReaderPins> RFIDuino<P> {
    pub open spec fn wf(&self) -> bool {
        self.debounce.wf()
    }

    /// The levels served since the log held `n` of them.
    pub open spec fn levels_since(&self, n: int) -> Seq<bool> {
        self.levels@.subrange(n, self.levels@.len() as int)
    }

    /// The delays waited since the log held `n` of them.
    pub open spec fn delays_since(&self, n: int) -> Seq<u32> {
        self.delays@.subrange(n, self.delays@.len() as int)
    }

    /// Takes the pins and holds shutdown and modulation low, which enables
    /// continuous reading.
    pub fn new(pins: P) -> (r: Result<RFIDuino<P>, PinFault>)
        ensures
            r matches Ok(d) ==> d.wf() && !d.debounce.pending() && d.levels@.len() == 0
                && d.delays@.len() == 0,
    {
        let mut pins = pins;
        pins.set_shutdown(false)?;
        pins.set_modulation(false)?;
        Ok(
            RFIDuino {
                pins,
                debounce: Debouncer::new(),
                levels: Ghost(Seq::empty()),
                delays: Ghost(Seq::empty()),
            },
        )
    }

    fn sample(&mut self) -> (r: bool)
        ensures
            final(self).levels@ == old(self).levels@.push(r),
            final(self).delays@ == old(self).delays@,
            final(self).debounce == old(self).debounce,
    {
        let r = self.pins.is_high();
        self.levels = Ghost(self.levels@.push(r));
        r
    }

    fn delay(&mut self)
        ensures
            final(self).levels@ == old(self).levels@,
            final(self).delays@ == old(self).delays@.push(DELAY_VAL),
            final(self).debounce == old(self).debounce,
    {
        self.pins.delay_us(DELAY_VAL);
        self.delays = Ghost(self.delays@.push(DELAY_VAL));
    }

    /// The log grew from `old` by exactly what was served since.
    pub open spec fn extends<T>(old: Seq<T>, new: Seq<T>) -> bool {
        new == old + new.subrange(old.len() as int, new.len() as int)
    }

    /// Polls while the line stays at `level`, at most `TIMEOUT` times.
    /// Returns the number of polls counted; `TIMEOUT` means a timeout.
    fn wait_while(&mut self, level: bool) -> (count: u16)
        ensures
            count <= TIMEOUT,
            Self::extends(old(self).levels@, final(self).levels@),
            final(self).levels_since(old(self).levels@.len() as int).len() <= TIMEOUT + 1,
            wait_run(final(self).levels_since(old(self).levels@.len() as int), level, 0) == Some(
                (count as nat, Seq::<bool>::empty()),
            ),
            final(self).delays@ == old(self).delays@,
            final(self).debounce == old(self).debounce,
    {
        let ghost base = self.levels@.len() as int;
        let ghost seg: Seq<bool> = Seq::empty();
        let mut count: u16 = 0;
        let mut done = false;
        assert(self.levels@ =~= old(self).levels@ + seg);
        while !done
            invariant
                count <= TIMEOUT,
                base == old(self).levels@.len(),
                self.levels@ == old(self).levels@ + seg,
                !done ==> seg.len() == count,
                !done ==> forall|j: int| 0 <= j < seg.len() ==> seg[j] == level,
                done ==> seg.len() == count + 1,
                done ==> wait_run(seg, level, 0) == Some((count as nat, Seq::<bool>::empty())),
                self.delays@ == old(self).delays@,
                self.debounce == old(self).debounce,
            decreases (TIMEOUT - count) * 2 + if done {
                0int
            } else {
                1int
            },
        {
            let x = self.sample();
            proof {
                seg = seg.push(x);
                assert(self.levels@ =~= old(self).levels@ + seg);
            }
            if x != level || count >= TIMEOUT {
                proof {
                    assert(seg.subrange(0, seg.len() as int) =~= seg);
                    lemma_wait_exact(seg, level, count as nat, 0);
                }
                done = true;
            } else {
                count = count + 1;
            }
        }
        assert(self.levels_since(base) =~= seg);
        count
    }

    /// Reads the header from bit `i` on.
    fn read_header(&mut self, i: u8) -> (ok: bool)
        requires
            i <= 8,
        ensures
            Self::extends(old(self).levels@, final(self).levels@),
            final(self).levels_since(old(self).levels@.len() as int).len() <= (8 - i) * (TIMEOUT + 2),
            header_run(final(self).levels_since(old(self).levels@.len() as int), i as nat) == Some(
                (ok, Seq::<bool>::empty()),
            ),
            Self::extends(old(self).delays@, final(self).delays@),
            final(self).delays_since(old(self).delays@.len() as int).len() <= 8 - i,
            forall|j: int|
                0 <= j < final(self).delays_since(old(self).delays@.len() as int).len()
                    ==> #[trigger] final(self).delays_since(old(self).delays@.len() as int)[j]
                    == DELAY_VAL,
            final(self).debounce == old(self).debounce,
        decreases 8 - i,
    {
        let ghost l0 = self.levels@;
        let ghost d0 = self.delays@;
        if i >= 8 {
            assert(self.levels_since(l0.len() as int) =~= Seq::<bool>::empty());
            assert(self.levels@ =~= l0 + Seq::<bool>::empty());
            assert(self.delays_since(d0.len() as int) =~= Seq::<u32>::empty());
            assert(self.delays@ =~= d0 + Seq::<u32>::empty());
            return true;
        }
        let c = self.wait_while(true);
        let ghost w = self.levels_since(l0.len() as int);
        if c == TIMEOUT {
            assert(self.delays_since(d0.len() as int) =~= Seq::<u32>::empty());
            assert(self.delays@ =~= d0 + Seq::<u32>::empty());
            return false;
        }
        self.delay();
        let x = self.sample();
        proof {
            assert(self.levels@ =~= l0 + (w + seq![x]));
            assert(self.levels_since(l0.len() as int) =~= w + seq![x]);
            lemma_wait_extend(w, seq![x], true, 0);
            assert(seq![x].drop_first() =~= Seq::<bool>::empty());
            assert(self.delays@ =~= d0 + seq![DELAY_VAL]);
            assert(self.delays_since(d0.len() as int) =~= seq![DELAY_VAL]);
        }
        if !x {
            return false;
        }
        let ghost l1 = self.levels@;
        let ghost d1 = self.delays@;
        let ok = self.read_header(i + 1);
        proof {
            let b = self.levels_since(l1.len() as int);
            let db = self.delays_since(d1.len() as int);
            assert(self.levels@ =~= l0 + (w + (seq![x] + b)));
            assert(self.levels_since(l0.len() as int) =~= w + (seq![x] + b));
            lemma_wait_extend(w, seq![x] + b, true, 0);
            assert((seq![x] + b).drop_first() =~= b);
            assert((seq![x] + b)[0] == x);
            assert(self.delays@ =~= d0 + (seq![DELAY_VAL] + db));
            assert(self.delays_since(d0.len() as int) =~= seq![DELAY_VAL] + db);
            assert forall|j: int| 0 <= j < (seq![DELAY_VAL] + db).len() implies #[trigger] (seq![DELAY_VAL] + db)[j] == DELAY_VAL by {
                if j > 0 {
                    assert((seq![DELAY_VAL] + db)[j] == db[j - 1]);
                }
            }
        }
        ok
    }

    /// Reads the cells after those in `acc`.
    fn read_cells(&mut self, acc: Vec<bool>) -> (r: Option<Vec<bool>>)
        requires
            acc@.len() <= 55,
        ensures
            Self::extends(old(self).levels@, final(self).levels@),
            final(self).levels_since(old(self).levels@.len() as int).len() <= (55 - acc@.len()) * (
            TIMEOUT + 2),
            cells_run(final(self).levels_since(old(self).levels@.len() as int), acc@) == Some(
                (
                    match r {
                        Some(v) => Some(v@),
                        None => None,
                    },
                    Seq::<bool>::empty(),
                ),
            ),
            Self::extends(old(self).delays@, final(self).delays@),
            final(self).delays_since(old(self).delays@.len() as int).len() <= 55 - acc@.len(),
            forall|j: int|
                0 <= j < final(self).delays_since(old(self).delays@.len() as int).len()
                    ==> #[trigger] final(self).delays_since(old(self).delays@.len() as int)[j]
                    == DELAY_VAL,
            final(self).debounce == old(self).debounce,
        decreases 55 - acc@.len(),
    {
        let ghost l0 = self.levels@;
        let ghost d0 = self.delays@;
        if acc.len() >= FRAME_CELLS {
            assert(self.levels_since(l0.len() as int) =~= Seq::<bool>::empty());
            assert(self.levels@ =~= l0 + Seq::<bool>::empty());
            assert(self.delays_since(d0.len() as int) =~= Seq::<u32>::empty());
            assert(self.delays@ =~= d0 + Seq::<u32>::empty());
            return Some(acc);
        }
        self.delay();
        let v = self.sample();
        let ghost l1 = self.levels@;
        let c = self.wait_while(v);
        let ghost w = self.levels_since(l1.len() as int);
        proof {
            assert(self.levels@ =~= l0 + (seq![v] + w));
            assert(self.levels_since(l0.len() as int) =~= seq![v] + w);
            assert((seq![v] + w).drop_first() =~= w);
            assert((seq![v] + w)[0] == v);
            assert(self.delays@ =~= d0 + seq![DELAY_VAL]);
            assert(self.delays_since(d0.len() as int) =~= seq![DELAY_VAL]);
        }
        if c == TIMEOUT {
            return None;
        }
        let mut acc = acc;
        acc.push(v);
        let ghost l2 = self.levels@;
        let ghost d2 = self.delays@;
        let r = self.read_cells(acc);
        proof {
            let b = self.levels_since(l2.len() as int);
            let db = self.delays_since(d2.len() as int);
            assert(self.levels@ =~= l0 + (seq![v] + (w + b)));
            assert(self.levels_since(l0.len() as int) =~= seq![v] + (w + b));
            assert((seq![v] + (w + b)).drop_first() =~= w + b);
            assert((seq![v] + (w + b))[0] == v);
            lemma_wait_extend(w, b, v, 0);
            assert(self.delays@ =~= d0 + (seq![DELAY_VAL] + db));
            assert(self.delays_since(d0.len() as int) =~= seq![DELAY_VAL] + db);
            assert forall|j: int| 0 <= j < (seq![DELAY_VAL] + db).len() implies #[trigger] (seq![DELAY_VAL] + db)[j] == DELAY_VAL by {
                if j > 0 {
                    assert((seq![DELAY_VAL] + db)[j] == db[j - 1]);
                }
            }
        }
        r
    }

    /// Samples one frame after its header: 11 rows of 5 cells, waiting for
    /// the line to flip after each cell. The result is what `capture_of`
    /// gives on exactly the levels the line served during the call; every
    /// delay is `DELAY_VAL`, there are at most 64, and each wait polls at
    /// most `TIMEOUT + 1` times.
    pub fn capture_frame(&mut self) -> (r: Option<Vec<bool>>)
        ensures
            Self::extends(old(self).levels@, final(self).levels@),
            capture_run(final(self).levels_since(old(self).levels@.len() as int)) matches Some(
                (_, rest),
            ) && rest.len() == 0,
            capture_of(final(self).levels_since(old(self).levels@.len() as int)) == match r {
                Some(v) => Some(v@),
                None => None,
            },
            r matches Some(cells) ==> cells@.len() == FRAME_CELLS,
            final(self).levels_since(old(self).levels@.len() as int).len() <= 66 * (TIMEOUT + 2),
            Self::extends(old(self).delays@, final(self).delays@),
            final(self).delays_since(old(self).delays@.len() as int).len() <= 64,
            forall|j: int|
                0 <= j < final(self).delays_since(old(self).delays@.len() as int).len()
                    ==> #[trigger] final(self).delays_since(old(self).delays@.len() as int)[j]
                    == DELAY_VAL,
            final(self).debounce == old(self).debounce,
    {
        let ghost l0 = self.levels@;
        let ghost d0 = self.delays@;
        // The line must rise before the start limit.
        let c0 = self.wait_while(false);
        let ghost w0 = self.levels_since(l0.len() as int);
        if c0 >= START_LIMIT {
            assert(self.delays_since(d0.len() as int) =~= Seq::<u32>::empty());
            assert(self.delays@ =~= d0 + Seq::<u32>::empty());
            return None;
        }
        self.delay();
        let x = self.sample();
        proof {
            assert(self.levels@ =~= l0 + (w0 + seq![x]));
            assert(self.levels_since(l0.len() as int) =~= w0 + seq![x]);
            lemma_wait_extend(w0, seq![x], false, 0);
            assert(seq![x].drop_first() =~= Seq::<bool>::empty());
            assert(self.delays@ =~= d0 + seq![DELAY_VAL]);
            assert(self.delays_since(d0.len() as int) =~= seq![DELAY_VAL]);
        }
        if !x {
            return None;
        }
        // Eight header bits, each sampled high one bit period after the
        // falling edge.
        let ghost l1 = self.levels@;
        let ghost d1 = self.delays@;
        let ok = self.read_header(0);
        let ghost h = self.levels_since(l1.len() as int);
        let ghost dh = self.delays_since(d1.len() as int);
        proof {
            assert(self.levels@ =~= l0 + (w0 + (seq![x] + h)));
            assert(self.levels_since(l0.len() as int) =~= w0 + (seq![x] + h));
            lemma_wait_extend(w0, seq![x] + h, false, 0);
            assert((seq![x] + h).drop_first() =~= h);
            assert((seq![x] + h)[0] == x);
            assert(self.delays@ =~= d0 + (seq![DELAY_VAL] + dh));
            assert(self.delays_since(d0.len() as int) =~= seq![DELAY_VAL] + dh);
            assert forall|j: int| 0 <= j < (seq![DELAY_VAL] + dh).len() implies #[trigger] (seq![DELAY_VAL] + dh)[j] == DELAY_VAL by {
                if j > 0 {
                    assert((seq![DELAY_VAL] + dh)[j] == dh[j - 1]);
                }
            }
        }
        if !ok {
            return None;
        }
        let ghost l2 = self.levels@;
        let c2 = self.wait_while(true);
        let ghost w2 = self.levels_since(l2.len() as int);
        proof {
            assert(self.levels@ =~= l0 + (w0 + (seq![x] + (h + w2))));
            assert(self.levels_since(l0.len() as int) =~= w0 + (seq![x] + (h + w2)));
            lemma_wait_extend(w0, seq![x] + (h + w2), false, 0);
            assert((seq![x] + (h + w2)).drop_first() =~= h + w2);
            assert((seq![x] + (h + w2))[0] == x);
            lemma_header_extend(h, w2, 0);
        }
        if c2 == TIMEOUT {
            return None;
        }
        let ghost l3 = self.levels@;
        let ghost d3 = self.delays@;
        let r = self.read_cells(Vec::new());
        proof {
            let cs = self.levels_since(l3.len() as int);
            let dc = self.delays_since(d3.len() as int);
            assert(self.levels@ =~= l0 + (w0 + (seq![x] + (h + (w2 + cs)))));
            assert(self.levels_since(l0.len() as int) =~= w0 + (seq![x] + (h + (w2 + cs))));
            lemma_capture_through_cells(w0, x, h, w2, cs);
            lemma_cells_len(cs, Seq::empty());
            let all = seq![DELAY_VAL] + (dh + dc);
            assert(self.delays@ =~= d0 + all);
            assert(self.delays_since(d0.len() as int) =~= all);
            assert forall|j: int| 0 <= j < all.len() implies #[trigger] all[j] == DELAY_VAL by {
                if j > 0 && j - 1 < dh.len() {
                    assert(all[j] == dh[j - 1]);
                } else if j > 0 {
                    assert(all[j] == dc[j - 1 - dh.len()]);
                }
            }
        }
        r
    }

    /// Attempts to decode one tag frame: exactly what the captured cells
    /// decode to, so `Some` only for a frame whose every row and column
    /// parity check holds, and `None` for no tag, a malformed preamble or a
    /// timeout.
    pub fn decode_tag(&mut self) -> (r: Option<TagId>)
        ensures
            Self::extends(old(self).levels@, final(self).levels@),
            capture_run(final(self).levels_since(old(self).levels@.len() as int)) matches Some(
                (_, rest),
            ) && rest.len() == 0,
            match r {
                Some(t) => capture_decoding(final(self).levels_since(old(self).levels@.len() as int))
                    == Some(t@),
                None => capture_decoding(
                    final(self).levels_since(old(self).levels@.len() as int),
                ).is_none(),
            },
            final(self).levels_since(old(self).levels@.len() as int).len() <= 66 * (TIMEOUT + 2),
            Self::extends(old(self).delays@, final(self).delays@),
            final(self).delays_since(old(self).delays@.len() as int).len() <= 64,
            forall|j: int|
                0 <= j < final(self).delays_since(old(self).delays@.len() as int).len()
                    ==> #[trigger] final(self).delays_since(old(self).delays@.len() as int)[j]
                    == DELAY_VAL,
            final(self).debounce == old(self).debounce,
    {
        match self.capture_frame() {
            None => None,
            Some(cells) => decode_frame(cells.as_slice()),
        }
    }

    /// Scans with double-read confirmation: returns a tag only when two
    /// consecutive successful decodes agree. A failed decode leaves the
    /// confirmation state as it was. Call it in a loop.
    pub fn scan_for_tag(&mut self) -> (r: Option<TagId>)
        requires
            old(self).wf(),
        ensures
            final(self).wf(),
            Self::extends(old(self).levels@, final(self).levels@),
            match capture_decoding(final(self).levels_since(old(self).levels@.len() as int)) {
                None => r is None && final(self).debounce == old(self).debounce,
                Some(t) => {
                    let step = debounce_step(
                        old(self).debounce.pending(),
                        old(self).debounce.scan_buffer@,
                        t,
                    );
                    &&& final(self).debounce.pending() == step.0
                    &&& final(self).debounce.scan_buffer@ == step.1
                    &&& match r {
                        Some(x) => step.2 == Some(x@),
                        None => step.2.is_none(),
                    }
                },
            },
    {
        match self.decode_tag() {
            None => None,
            Some(tag) => self.debounce.confirm(tag),
        }
    }

    /// Resets the double-read confirmation state.
    pub fn reset_scan(&mut self)
        requires
            old(self).wf(),
        ensures
            final(self).wf(),
            !final(self).debounce.pending(),
            final(self).debounce.read_count == 0,
            final(self).debounce.scan_buffer@ == seq![0u8, 0u8, 0u8, 0u8, 0u8],
    {
        self.debounce.reset();
    }

    /// Puts the reader chip in low-power shutdown.
    pub fn shutdown(&mut self) -> (r: Result<(), PinFault>)
        requires
            old(self).wf(),
        ensures
            final(self).wf(),
            final(self).debounce == old(self).debounce,
    {
        self.pins.set_shutdown(true)
    }

    /// Wakes the reader chip from shutdown.
    pub fn wake(&mut self) -> (r: Result<(), PinFault>)
        requires
            old(self).wf(),
        ensures
            final(self).wf(),
            final(self).debounce == old(self).debounce,
    {
        self.pins.set_shutdown(false)
    }
}

/// A capture whose start wait, first sample, header and last header wait
/// succeeded continues with the cells.
proof fn lemma_capture_through_cells(
    w0: Seq<bool>,
    x: bool,
    h: Seq<bool>,
    w2: Seq<bool>,
    cs: Seq<bool>,
)
    requires
        wait_run(w0, false, 0) matches Some((c0, r0)) && c0 < START_LIMIT && r0.len() == 0,
        x,
        header_run(h, 0) == Some((true, Seq::<bool>::empty())),
        wait_run(w2, true, 0) matches Some((c2, r2)) && c2 != TIMEOUT && r2.len() == 0,
    ensures
        capture_run(w0 + (seq![x] + (h + (w2 + cs)))) == cells_run(cs, Seq::empty()),
{
    lemma_wait_extend(w0, seq![x] + (h + (w2 + cs)), false, 0);
    assert((seq![x] + (h + (w2 + cs))).drop_first() =~= h + (w2 + cs));
    assert((seq![x] + (h + (w2 + cs)))[0] == x);
    lemma_header_extend(h, w2 + cs, 0);
    lemma_wait_extend(w2, cs, true, 0);
}

proof fn lemma_cells_len(s: Seq<bool>, acc: Seq<bool>)
    requires
        acc.len() <= 55,
    ensures
        cells_run(s, acc) matches Some((Some(c), _)) ==> c.len() == 55,
    decreases 55 - acc.len(),
{
    if acc.len() < 55 && s.len() > 0 {
        match wait_run(s.drop_first(), s[0], 0) {
            None => {},
            Some((c, r)) => {
                if c != TIMEOUT {
                    lemma_cells_len(r, acc.push(s[0]));
                }
            },
        }
    }
}

} // verus!
