//! Session cookies for the web front end and the hex text of session ids.
use vstd::prelude::*;
use crate::text::{hex_digit_lower, hex_pair_lower, push_char, push_str};

verus! {

/// Days a session lasts.
pub const SESSION_MAX_AGE_DAYS: u64 = 30;

/// Lowercase hex text of some bytes, two digits per byte.
pub open spec fn hex_text(b: Seq<u8>) -> Seq<char>
    decreases b.len(),
{
    if b.len() == 0 {
        Seq::empty()
    } else {
        hex_text(b.drop_last()) + hex_pair_lower(b.last())
    }
}

/// Encodes bytes as lowercase hex.
pub fn encode(bytes: &[u8]) -> (r: String)
    ensures
        r@ == hex_text(bytes@),
{
    let mut s = String::new();
    let mut i: usize = 0;
    while i < bytes.len()
        invariant
            i <= bytes@.len(),
            s@ == hex_text(bytes@.subrange(0, i as int)),
        decreases bytes@.len() - i,
    {
        let b = bytes[i];
        push_char(&mut s, hex_digit_lower(b / 16));
        push_char(&mut s, hex_digit_lower(b % 16));
        i = i + 1;
        proof {
            let p = bytes@.subrange(0, i as int);
            assert(p.drop_last() =~= bytes@.subrange(0, i - 1));
            assert(s@ =~= hex_text(p));
        }
    }
    assert(bytes@.subrange(0, bytes@.len() as int) =~= bytes@);
    s
}

pub open spec fn session_cookie_name() -> Seq<char> {
    seq!['p', 'a', 'n', 'o', 'p', 't', 'i', 'c', 'o', 'n', '_', 's', 'e', 's', 's', 'i', 'o', 'n']
}

/// `; Secure` when the cookie is for HTTPS only.
pub open spec fn secure_flag(secure: bool) -> Seq<char> {
    if secure {
        seq![';', ' ', 'S', 'e', 'c', 'u', 'r', 'e']
    } else {
        Seq::empty()
    }
}

/// The attributes every session cookie carries, up to `Max-Age=`.
pub open spec fn cookie_attributes() -> Seq<char> {
    seq![
        ';', ' ', 'H', 't', 't', 'p', 'O', 'n', 'l', 'y', ';', ' ', 'S', 'a', 'm', 'e', 'S', 'i',
        't', 'e', '=', 'L', 'a', 'x', ';', ' ', 'P', 'a', 't', 'h', '=', '/', ';', ' ', 'M', 'a',
        'x', '-', 'A', 'g', 'e', '=',
    ]
}

fn push_attributes(s: &mut String)
    ensures
        final(s)@ == old(s)@ + cookie_attributes(),
{
    push_str(s, "; HttpOnly; SameSite=Lax; Path=/; Max-Age=");
    proof {
        reveal_strlit("; HttpOnly; SameSite=Lax; Path=/; Max-Age=");
    }
    assert(final(s)@ =~= old(s)@ + cookie_attributes());
}

fn push_name(s: &mut String)
    ensures
        final(s)@ == old(s)@ + session_cookie_name() + seq!['='],
{
    push_str(s, "panopticon_session=");
    proof {
        reveal_strlit("panopticon_session=");
    }
    assert(final(s)@ =~= old(s)@ + session_cookie_name() + seq!['=']);
}

fn push_secure(s: &mut String, secure: bool)
    ensures
        final(s)@ == old(s)@ + secure_flag(secure),
{
    if secure {
        push_str(s, "; Secure");
        proof {
            reveal_strlit("; Secure");
        }
        assert(final(s)@ =~= old(s)@ + secure_flag(secure));
    } else {
        assert(s@ =~= old(s)@ + secure_flag(secure));
    }
}

/// The `Set-Cookie` value that starts a session lasting 30 days
/// (2592000 seconds).
pub fn set_session_cookie(session_id: &str, secure: bool) -> (r: String)
    ensures
        r@ == session_cookie_name() + seq!['='] + session_id@ + cookie_attributes() + seq![
            '2',
            '5',
            '9',
            '2',
            '0',
            '0',
            '0',
        ] + secure_flag(secure),
{
    let mut s = String::new();
    push_name(&mut s);
    push_str(&mut s, session_id);
    push_attributes(&mut s);
    crate::text::push_decimal(&mut s, SESSION_MAX_AGE_DAYS * 24 * 60 * 60);
    proof {
        reveal_with_fuel(crate::text::decimal_text, 8);
    }
    push_secure(&mut s, secure);
    assert(s@ =~= session_cookie_name() + seq!['='] + session_id@ + cookie_attributes() + seq![
        '2',
        '5',
        '9',
        '2',
        '0',
        '0',
        '0',
    ] + secure_flag(secure));
    s
}

/// The `Set-Cookie` value that ends a session.
pub fn clear_session_cookie(secure: bool) -> (r: String)
    ensures
        r@ == session_cookie_name() + seq!['='] + cookie_attributes() + seq!['0'] + secure_flag(
            secure,
        ),
{
    let mut s = String::new();
    push_name(&mut s);
    push_attributes(&mut s);
    push_char(&mut s, '0');
    push_secure(&mut s, secure);
    assert(s@ =~= session_cookie_name() + seq!['='] + cookie_attributes() + seq!['0']
        + secure_flag(secure));
    s
}


/// ASCII whitespace; cookie headers are ASCII text.
pub open spec fn is_space_char(c: char) -> bool {
    c == ' ' || ('\t' <= c && c <= '\r')
}

pub open spec fn trim_front_chars(s: Seq<char>) -> Seq<char>
    decreases s.len(),
{
    if s.len() > 0 && is_space_char(s[0]) {
        trim_front_chars(s.drop_first())
    } else {
        s
    }
}

pub open spec fn trim_back_chars(s: Seq<char>) -> Seq<char>
    decreases s.len(),
{
    if s.len() > 0 && is_space_char(s.last()) {
        trim_back_chars(s.drop_last())
    } else {
        s
    }
}

/// The session id in one cookie pair, once trimmed.
pub open spec fn pair_value(pair: Seq<char>) -> Option<Seq<char>> {
    let t = trim_back_chars(trim_front_chars(pair));
    let p = session_cookie_name().push('=');
    if t.len() >= p.len() && t.subrange(0, p.len() as int) == p {
        Some(t.subrange(p.len() as int, t.len() as int))
    } else {
        None
    }
}

/// Scanning `h` from position `i`, inside the pair that began at `start`:
/// the value of the first session pair among the `;`-separated pairs.
pub open spec fn scan_pairs(h: Seq<char>, start: int, i: int) -> Option<Seq<char>>
    decreases h.len() - i,
{
    if i >= h.len() {
        pair_value(h.subrange(start, h.len() as int))
    } else if h[i] == ';' {
        match pair_value(h.subrange(start, i)) {
            Some(v) => Some(v),
            None => scan_pairs(h, i + 1, i + 1),
        }
    } else {
        scan_pairs(h, start, i + 1)
    }
}

fn is_space_ch(c: char) -> (r: bool)
    ensures
        r == is_space_char(c),
{
    c == ' ' || ('\t' <= c && c <= '\r')
}

/// The session id in one cookie pair `h[from..to]`.
fn pair_session_id(h: &str, from: usize, to: usize) -> (r: Option<&str>)
    requires
        from <= to <= h@.len(),
    ensures
        match r {
            Some(v) => pair_value(h@.subrange(from as int, to as int)) == Some(v@),
            None => pair_value(h@.subrange(from as int, to as int)).is_none(),
        },
{
    let ghost pair = h@.subrange(from as int, to as int);
    let mut a = from;
    assert(h@.subrange(a as int, to as int) == pair);
    while a < to && is_space_ch(h.get_char(a))
        invariant
            from <= a <= to,
            to <= h@.len(),
            pair == h@.subrange(from as int, to as int),
            trim_front_chars(pair) == trim_front_chars(h@.subrange(a as int, to as int)),
        decreases to - a,
    {
        assert(h@.subrange(a as int, to as int).drop_first() =~= h@.subrange(a + 1, to as int));
        a = a + 1;
    }
    assert(a < to ==> h@.subrange(a as int, to as int)[0] == h@[a as int]);
    let ghost front = h@.subrange(a as int, to as int);
    assert(trim_front_chars(pair) == front);
    let mut b = to;
    while b > a && is_space_ch(h.get_char(b - 1))
        invariant
            a <= b <= to,
            to <= h@.len(),
            front == h@.subrange(a as int, to as int),
            trim_back_chars(front) == trim_back_chars(h@.subrange(a as int, b as int)),
        decreases b - a,
    {
        assert(h@.subrange(a as int, b as int).drop_last() =~= h@.subrange(a as int, b - 1));
        b = b - 1;
    }
    assert(b > a ==> h@.subrange(a as int, b as int).last() == h@[b - 1]);
    let ghost t = h@.subrange(a as int, b as int);
    assert(trim_back_chars(front) == t);
    let p = "panopticon_session=";
    proof {
        reveal_strlit("panopticon_session=");
        assert(p@ =~= session_cookie_name().push('='));
    }
    let plen = p.unicode_len();
    assert(trim_back_chars(trim_front_chars(pair)) == t);
    if b - a < plen {
        assert(t.len() < p@.len());
        return None;
    }
    let mut k: usize = 0;
    while k < plen
        invariant
            plen == p@.len(),
            a + plen <= b <= h@.len(),
            t == h@.subrange(a as int, b as int),
            trim_back_chars(trim_front_chars(pair)) == t,
            pair == h@.subrange(from as int, to as int),
            from <= a,
            p@ == session_cookie_name().push('='),
            k <= plen,
            forall|j: int| 0 <= j < k ==> t[j] == p@[j],
        decreases plen - k,
    {
        if h.get_char(a + k) != p.get_char(k) {
            assert(t.subrange(0, plen as int)[k as int] != p@[k as int]);
            return None;
        }
        k = k + 1;
    }
    assert(t.subrange(0, plen as int) =~= p@);
    let v = h.substring_char(a + plen, b);
    assert(v@ =~= t.subrange(plen as int, t.len() as int));
    Some(v)
}

/// The session id in a `Cookie` header: the value of the first
/// `panopticon_session=` pair among its `;`-separated, trimmed pairs.
pub fn extract_session_id_from_cookies(cookie_header: &str) -> (r: Option<&str>)
    ensures
        match r {
            Some(v) => scan_pairs(cookie_header@, 0, 0) == Some(v@),
            None => scan_pairs(cookie_header@, 0, 0).is_none(),
        },
{
    let n = cookie_header.unicode_len();
    let mut start: usize = 0;
    let mut i: usize = 0;
    while i < n
        invariant
            n == cookie_header@.len(),
            start <= i <= n,
            scan_pairs(cookie_header@, 0, 0) == scan_pairs(cookie_header@, start as int, i as int),
        decreases n - i,
    {
        if cookie_header.get_char(i) == ';' {
            let found = pair_session_id(cookie_header, start, i);
            if found.is_some() {
                return found;
            }
            start = i + 1;
        }
        i = i + 1;
    }
    pair_session_id(cookie_header, start, n)
}


proof fn lemma_scan_skip(h: Seq<char>, start: int, i: int, p: int)
    requires
        0 <= i <= p < h.len(),
        forall|j: int| i <= j < p ==> h[j] != ';',
    ensures
        scan_pairs(h, start, i) == scan_pairs(h, start, p),
    decreases p - i,
{
    if i < p {
        lemma_scan_skip(h, start, i + 1, p);
    }
}

/// A session cookie set with an id read back from a `Cookie` header that
/// carries it: the header `panopticon_session=<id>` followed by the
/// attributes gives back the id, when the id holds no `;` and does not end
/// in whitespace.
pub proof fn lemma_cookie_round_trip(id: Seq<char>, secure: bool)
    requires
        forall|i: int| 0 <= i < id.len() ==> id[i] != ';',
        id.len() == 0 || !is_space_char(id.last()),
    ensures
        scan_pairs(
            session_cookie_name() + seq!['='] + id + cookie_attributes() + seq![
                '2',
                '5',
                '9',
                '2',
                '0',
                '0',
                '0',
            ] + secure_flag(secure),
            0,
            0,
        ) == Some(id),
{
    let name = session_cookie_name().push('=');
    let pair = name + id;
    let h = session_cookie_name() + seq!['='] + id + cookie_attributes() + seq![
        '2',
        '5',
        '9',
        '2',
        '0',
        '0',
        '0',
    ] + secure_flag(secure);
    let p = pair.len() as int;
    assert(session_cookie_name() + seq!['='] =~= name);
    assert(h.subrange(0, p) =~= pair);
    assert(h[p] == ';');
    assert forall|j: int| 0 <= j < p implies h[j] != ';' by {
        assert(h[j] == pair[j]);
        if j >= name.len() {
            assert(pair[j] == id[j - name.len()]);
        }
    }
    lemma_scan_skip(h, 0, 0, p);
    assert(pair[0] == 'p');
    assert(trim_front_chars(pair) == pair);
    if id.len() > 0 {
        assert(pair.last() == id.last());
    } else {
        assert(pair.last() == '=');
    }
    assert(trim_back_chars(pair) == pair);
    assert(pair.subrange(0, name.len() as int) =~= name);
    assert(pair.subrange(name.len() as int, pair.len() as int) =~= id);
}

} // verus!
