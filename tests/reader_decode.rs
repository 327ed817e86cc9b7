use panopticon::frame::{check_frame_parity, decode_frame, pack_frame};
use panopticon::reader::{Debouncer, PinFault, ReaderPins, RFIDuino};
use panopticon::tag::TagId;

/// The 55 cells (11 rows of 5) of the frame that carries `tag`.
fn encode(tag: &TagId) -> Vec<bool> {
    let bit = |k: usize| (tag[k / 8] >> (7 - k % 8)) & 1 == 1;
    let mut cells = Vec::new();
    for r in 0..10 {
        let mut parity = false;
        for c in 0..4 {
            let b = bit(r * 4 + c);
            parity ^= b;
            cells.push(b);
        }
        cells.push(parity);
    }
    for c in 0..4 {
        let mut parity = false;
        for r in 0..10 {
            parity ^= bit(r * 4 + c);
        }
        cells.push(parity);
    }
    cells.push(false);
    cells
}

/// A simulated demodulator line: Manchester halves of 256 us, one poll per
/// microsecond.
struct SimLine {
    halves: Vec<bool>,
    now: u64,
    shutdown: Option<bool>,
}

impl SimLine {
    fn for_bits(bits: &[bool]) -> SimLine {
        let mut halves = Vec::new();
        for &b in bits {
            halves.push(b);
            halves.push(!b);
        }
        SimLine { halves, now: 0, shutdown: None }
    }

    fn for_frame(cells: &[bool]) -> SimLine {
        // The previous frame's stop bit, nine header ones, then the cells.
        let mut bits = vec![false];
        bits.extend(std::iter::repeat(true).take(9));
        bits.extend_from_slice(cells);
        SimLine::for_bits(&bits)
    }

    fn level(&self) -> bool {
        let i = (self.now / 256) as usize;
        if i < self.halves.len() {
            self.halves[i]
        } else {
            *self.halves.last().unwrap_or(&false)
        }
    }
}

impl ReaderPins for SimLine {
    fn is_high(&mut self) -> bool {
        let l = self.level();
        self.now += 1;
        l
    }
    fn delay_us(&mut self, us: u32) {
        self.now += us as u64;
    }
    fn set_shutdown(&mut self, high: bool) -> Result<(), PinFault> {
        self.shutdown = Some(high);
        Ok(())
    }
    fn set_modulation(&mut self, _high: bool) -> Result<(), PinFault> {
        Ok(())
    }
}

const TAG: TagId = [128, 0, 72, 35, 76];

#[test]
fn encoded_frame_decodes_to_its_bytes() {
    for tag in [TAG, [0, 0, 0, 0, 0], [255, 255, 255, 255, 255], [1, 35, 69, 103, 137]] {
        let cells = encode(&tag);
        assert!(check_frame_parity(&cells));
        assert_eq!(pack_frame(&cells), tag);
        assert_eq!(decode_frame(&cells), Some(tag));
    }
}

#[test]
fn any_single_parity_breaking_flip_is_rejected() {
    let cells = encode(&TAG);
    for k in 0..54 {
        let mut bad = cells.clone();
        bad[k] = !bad[k];
        assert_eq!(decode_frame(&bad), None, "flip at cell {k}");
    }
}

#[test]
fn frame_of_wrong_length_is_rejected() {
    let mut cells = encode(&TAG);
    cells.pop();
    assert_eq!(decode_frame(&cells), None);
}

#[test]
fn reader_decodes_simulated_signal() {
    let mut reader = RFIDuino::new(SimLine::for_frame(&encode(&TAG))).unwrap();
    assert_eq!(reader.pins.shutdown, Some(false));
    assert_eq!(reader.decode_tag(), Some(TAG));
}

#[test]
fn reader_rejects_corrupted_signal() {
    let mut cells = encode(&TAG);
    cells[7] = !cells[7];
    let mut reader = RFIDuino::new(SimLine::for_frame(&cells)).unwrap();
    assert_eq!(reader.decode_tag(), None);
}

#[test]
fn reader_sees_no_tag_on_idle_line() {
    let mut reader = RFIDuino::new(SimLine { halves: vec![false], now: 0, shutdown: None }).unwrap();
    assert_eq!(reader.decode_tag(), None);
}

#[test]
fn scan_needs_two_identical_reads() {
    let mut reader = RFIDuino::new(SimLine::for_frame(&encode(&TAG))).unwrap();
    assert_eq!(reader.scan_for_tag(), None);
    reader.pins.now = 0;
    assert_eq!(reader.scan_for_tag(), Some(TAG));
    reader.pins.now = 0;
    assert_eq!(reader.scan_for_tag(), None);
    reader.reset_scan();
    reader.pins.now = 0;
    assert_eq!(reader.scan_for_tag(), None);
}

#[test]
fn shutdown_and_wake_drive_the_pin() {
    let mut reader = RFIDuino::new(SimLine::for_bits(&[true])).unwrap();
    reader.shutdown().unwrap();
    assert_eq!(reader.pins.shutdown, Some(true));
    reader.wake().unwrap();
    assert_eq!(reader.pins.shutdown, Some(false));
}

#[test]
fn debounce_first_read_withheld_then_confirmed() {
    let mut d = Debouncer::new();
    assert_eq!(d.confirm(TAG), None);
    assert_eq!(d.confirm(TAG), Some(TAG));
}

#[test]
fn debounce_mismatch_resets_the_pair() {
    let other: TagId = [1, 2, 3, 4, 5];
    let mut d = Debouncer::new();
    assert_eq!(d.confirm(TAG), None);
    assert_eq!(d.confirm(other), None);
    assert_eq!(d.confirm(other), None);
    assert_eq!(d.confirm(other), Some(other));
    d.reset();
    assert_eq!(d.read_count, 0);
    assert_eq!(d.scan_buffer, [0; 5]);
}

#[test]
fn failed_decode_keeps_pending_read() {
    let mut reader = RFIDuino::new(SimLine::for_frame(&encode(&TAG))).unwrap();
    assert_eq!(reader.scan_for_tag(), None);
    assert_eq!(reader.debounce.read_count, 1);
    let frame_pins = std::mem::replace(&mut reader.pins, SimLine { halves: vec![false], now: 0, shutdown: None });
    assert_eq!(reader.scan_for_tag(), None);
    assert_eq!(reader.debounce.read_count, 1);
    assert_eq!(reader.debounce.scan_buffer, TAG);
    reader.pins = frame_pins;
    reader.pins.now = 0;
    assert_eq!(reader.scan_for_tag(), Some(TAG));
}

#[test]
fn reset_scan_clears_the_buffer() {
    let mut reader = RFIDuino::new(SimLine::for_frame(&encode(&TAG))).unwrap();
    assert_eq!(reader.scan_for_tag(), None);
    reader.reset_scan();
    assert_eq!(reader.debounce.read_count, 0);
    assert_eq!(reader.debounce.scan_buffer, [0; 5]);
}

#[test]
fn low_header_bit_aborts_the_read() {
    // Eight header ones, then a zero where the ninth is expected: the
    // eighth header sample reads low.
    let mut bits = vec![false];
    bits.extend(std::iter::repeat(true).take(8));
    bits.push(false);
    bits.extend(encode(&TAG));
    let mut reader = RFIDuino::new(SimLine::for_bits(&bits)).unwrap();
    assert_eq!(reader.decode_tag(), None);
}
