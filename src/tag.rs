//! Tag identifiers and their two textual encodings.
use vstd::prelude::*;
use crate::text::{
    decimal_text, hex_pair_upper, hex_upper_char, push_char, push_decimal, hex_digit_upper,
};

verus! {

/// A 5-byte EM4100 tag identifier: byte 0 is the manufacturer/version byte,
/// bytes 1 to 4 are the unique identifier.
pub type TagId = [u8; 5];

/// Decimal text of the five bytes, separated by commas: `128,0,72,35,76`.
pub open spec fn tag_decimal_text(t: Seq<u8>) -> Seq<char> {
    decimal_text(t[0] as nat) + seq![','] + decimal_text(t[1] as nat) + seq![',']
        + decimal_text(t[2] as nat) + seq![','] + decimal_text(t[3] as nat) + seq![',']
        + decimal_text(t[4] as nat)
}

/// Colon-separated uppercase hex pairs: `80:00:48:23:4C`.
pub open spec fn tag_hex_text(t: Seq<u8>) -> Seq<char> {
    hex_pair_upper(t[0]) + seq![':'] + hex_pair_upper(t[1]) + seq![':'] + hex_pair_upper(t[2])
        + seq![':'] + hex_pair_upper(t[3]) + seq![':'] + hex_pair_upper(t[4])
}

/// An uppercase hexadecimal digit: `0`-`9` or `A`-`F`.
pub open spec fn is_upper_hex(c: char) -> bool {
    ('0' <= c && c <= '9') || ('A' <= c && c <= 'F')
}

/// The wire/storage format of a tag: exactly five colon-separated groups of
/// two uppercase hexadecimal digits.
pub open spec fn valid_tag_text(s: Seq<char>) -> bool {
    &&& s.len() == 14
    &&& forall|i: int|
        0 <= i < 14 ==> if i % 3 == 2 {
            s[i] == ':'
        } else {
            is_upper_hex(#[trigger] s[i])
        }
}

/// Formats a tag as comma-separated decimal bytes: `128,0,72,35,76`.
pub fn format_tag_id(tag: &TagId) -> (r: String)
    ensures
        r@ == tag_decimal_text(tag@),
{
    let mut s = String::new();
    push_decimal(&mut s, tag[0] as u64);
    push_char(&mut s, ',');
    push_decimal(&mut s, tag[1] as u64);
    push_char(&mut s, ',');
    push_decimal(&mut s, tag[2] as u64);
    push_char(&mut s, ',');
    push_decimal(&mut s, tag[3] as u64);
    push_char(&mut s, ',');
    push_decimal(&mut s, tag[4] as u64);
    s
}

fn push_hex_pair(s: &mut String, b: u8)
    ensures
        final(s)@ == old(s)@ + hex_pair_upper(b),
{
    push_char(s, hex_digit_upper(b / 16));
    push_char(s, hex_digit_upper(b % 16));
}

/// Formats a tag as colon-separated uppercase hex pairs: `80:00:48:23:4C`.
pub fn format_tag_id_hex(tag: &TagId) -> (r: String)
    ensures
        r@ == tag_hex_text(tag@),
{
    let mut s = String::new();
    push_hex_pair(&mut s, tag[0]);
    push_char(&mut s, ':');
    push_hex_pair(&mut s, tag[1]);
    push_char(&mut s, ':');
    push_hex_pair(&mut s, tag[2]);
    push_char(&mut s, ':');
    push_hex_pair(&mut s, tag[3]);
    push_char(&mut s, ':');
    push_hex_pair(&mut s, tag[4]);
    assert(s@ =~= tag_hex_text(tag@));
    s
}

/// The four identifier bytes (1 to 4) as a big-endian `u32`; the
/// manufacturer byte is left out.
pub fn tag_id_to_u32(tag: &TagId) -> (r: u32)
    ensures
        r as int == tag[1] as int * 0x1000000 + tag[2] as int * 0x10000 + tag[3] as int * 0x100
            + tag[4] as int,
{
    let (a, b, c, d) = (tag[1], tag[2], tag[3], tag[4]);
    let r = ((a as u32) << 24) | ((b as u32) << 16) | ((c as u32) << 8) | (d as u32);
    assert(r == ((a as u32) << 24) | ((b as u32) << 16) | ((c as u32) << 8) | (d as u32));
    assert(((a as u32) << 24) | ((b as u32) << 16) | ((c as u32) << 8) | (d as u32)
        == (a as u32) * 0x1000000 + (b as u32) * 0x10000 + (c as u32) * 0x100 + (d as u32))
        by (bit_vector);
    r
}

fn is_upper_hex_char(c: char) -> (r: bool)
    ensures
        r == is_upper_hex(c),
{
    ('0' <= c && c <= '9') || ('A' <= c && c <= 'F')
}

/// Checks the wire format of a tag identifier (`80:00:48:23:4C`): five
/// colon-separated groups of two uppercase hexadecimal digits, nothing else.
pub fn is_valid_tag_id(tag_id: &str) -> (r: bool)
    ensures
        r == valid_tag_text(tag_id@),
{
    let n = tag_id.unicode_len();
    if n != 14 {
        return false;
    }
    let mut i: usize = 0;
    while i < 14
        invariant
            n == 14,
            tag_id@.len() == 14,
            i <= 14,
            forall|k: int|
                0 <= k < i ==> if k % 3 == 2 {
                    tag_id@[k] == ':'
                } else {
                    is_upper_hex(#[trigger] tag_id@[k])
                },
        decreases 14 - i,
    {
        let c = tag_id.get_char(i);
        if i % 3 == 2 {
            if c != ':' {
                return false;
            }
        } else if !is_upper_hex_char(c) {
            return false;
        }
        i = i + 1;
    }
    true
}

} // verus!
