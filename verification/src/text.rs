//! Shift-JIS text and the `[{FDFFxx}]` markup for in-line control codes.
//!
//! In the script files a control code is the three bytes `FF FD xx`. When a
//! fixed-length text is decoded, every such triple is replaced by the ten
//! ASCII bytes `[{FDFFxx}]` (with `xx` in upper-case hex) before the bytes
//! are handed to the Shift-JIS decoder; when a text is encoded the markup is
//! turned back into the three raw bytes.

use vstd::prelude::*;

verus! {

/// The text that `encoding_rs::SHIFT_JIS.decode` produces from `bytes`.
pub uninterp spec fn shift_jis_decoded(bytes: Seq<u8>) -> Seq<char>;

/// The bytes that `encoding_rs::SHIFT_JIS.encode` produces from `text`.
pub uninterp spec fn shift_jis_encoded(text: Seq<char>) -> Seq<u8>;

/// Every byte is below 0x80.
pub open spec fn ascii_bytes(bytes: Seq<u8>) -> bool {
    forall|i: int| 0 <= i < bytes.len() ==> #[trigger] bytes[i] < 0x80
}

/// Every character is below U+0080.
pub open spec fn ascii_chars(text: Seq<char>) -> bool {
    forall|i: int| 0 <= i < text.len() ==> (#[trigger] text[i] as u32) < 0x80
}

/// The bytes read one for one as characters.
pub open spec fn bytes_as_chars(bytes: Seq<u8>) -> Seq<char> {
    bytes.map_values(|b: u8| b as char)
}

/// The characters written one for one as bytes.
pub open spec fn chars_as_bytes(text: Seq<char>) -> Seq<u8> {
    text.map_values(|c: char| c as u8)
}

/// Calls `encoding_rs::SHIFT_JIS.decode` (with its BOM sniffing and with
/// REPLACEMENT CHARACTER for malformed input) and returns the text.
/// Trusted: the text is the named result `shift_jis_decoded` of the bytes, and
/// an input made only of ASCII bytes comes back as the same characters (the
/// crate's source borrows such input unchanged: no BOM can start it and every
/// byte is ASCII).
#[verifier::external_body]
pub(crate) fn decode_shift_jis(bytes: &[u8]) -> (text: String)
    ensures
        text@ == shift_jis_decoded(bytes@),
        ascii_bytes(bytes@) ==> text@ == bytes_as_chars(bytes@),
{
    let (res, _encoding, _had_errors) = encoding_rs::SHIFT_JIS.decode(bytes);
    res.to_string()
}

/// Calls `encoding_rs::SHIFT_JIS.encode` (unmappable characters become HTML
/// numeric character references) and returns the bytes.
/// Trusted: the bytes are the named result `shift_jis_encoded` of the text,
/// and an ASCII-only text comes back as the same bytes (the crate's source
/// borrows `string.as_bytes()` when the whole input is ASCII).
#[verifier::external_body]
pub(crate) fn encode_shift_jis(text: &str) -> (bytes: Vec<u8>)
    ensures
        bytes@ == shift_jis_encoded(text@),
        ascii_chars(text@) ==> bytes@ == chars_as_bytes(text@),
{
    let (res, _encoding, _had_errors) = encoding_rs::SHIFT_JIS.encode(text);
    res.into_owned()
}

/// Upper-case hexadecimal digit of a value below 16.
pub open spec fn hex_digit(d: u8) -> u8 {
    if d < 10 {
        (0x30 + d) as u8
    } else {
        (0x37 + d) as u8
    }
}

/// The markup `[{FDFFxx}]` that stands for the control code `FF FD xx`.
pub open spec fn control_markup(x: u8) -> Seq<u8> {
    seq![0x5Bu8, 0x7Bu8, 0x46u8, 0x44u8, 0x46u8, 0x46u8, hex_digit(x / 16), hex_digit(x % 16), 0x7Du8, 0x5Du8]
}

/// The value of an ASCII hexadecimal digit (either case), as `to_digit(16)`.
pub open spec fn hex_value(c: u8) -> Option<u8> {
    if 0x30 <= c <= 0x39 {
        Some((c - 0x30) as u8)
    } else if 0x41 <= c <= 0x46 {
        Some((c - 0x37) as u8)
    } else if 0x61 <= c <= 0x66 {
        Some((c - 0x57) as u8)
    } else {
        None
    }
}

/// What `u8::from_str_radix(s, 16)` gives for the two-byte text `s = [c1, c2]`
/// (a leading `+` is a sign; anything but hex digits is refused).
pub open spec fn hex_pair(c1: u8, c2: u8) -> Option<u8> {
    if c1 == 0x2B {
        hex_value(c2)
    } else {
        match (hex_value(c1), hex_value(c2)) {
            (Some(h), Some(l)) => Some((16 * h + l) as u8),
            _ => None,
        }
    }
}

/// The escaping scan over `s`, the rest of the zero-padded input, with `k`
/// bytes of real input left. The scan looks at least at one byte.
pub open spec fn escape_scan(s: Seq<u8>, k: int) -> Seq<u8>
    decreases k,
{
    if s.len() >= 3 && s[0] == 0xFF && s[1] == 0xFD {
        control_markup(s[2]) + (if k <= 3 {
            Seq::empty()
        } else {
            escape_scan(s.skip(3), k - 3)
        })
    } else if s.len() >= 1 {
        seq![s[0]] + (if k <= 1 {
            Seq::empty()
        } else {
            escape_scan(s.skip(1), k - 1)
        })
    } else {
        Seq::empty()
    }
}

/// The input followed by the three zero bytes that the scan may look at.
pub open spec fn zero_padded(raw: Seq<u8>) -> Seq<u8> {
    raw + seq![0u8, 0u8, 0u8]
}

/// The bytes handed to the Shift-JIS decoder for a fixed-length text whose
/// raw bytes are `raw`: each `FF FD xx` becomes `[{FDFFxx}]`. An empty input
/// gives one zero byte, as the scan looks at the first padding byte.
pub open spec fn escaped_text_bytes(raw: Seq<u8>) -> Seq<u8> {
    escape_scan(zero_padded(raw), raw.len() as int)
}

/// The unescaping scan: each `[{....xy}]` becomes `FF FD v` with `v` the
/// value of the hex pair `xy`. `None` where the scan indexes past the end or
/// meets a pair that is not hex.
pub open spec fn unescape_scan(s: Seq<u8>) -> Option<Seq<u8>>
    decreases s.len(),
{
    if s.len() == 0 {
        None
    } else if s[0] == 0x5B && s.len() < 2 {
        None
    } else if s[0] == 0x5B && s[1] == 0x7B {
        if s.len() < 8 {
            None
        } else {
            match hex_pair(s[6], s[7]) {
                None => None,
                Some(v) => if s.len() <= 10 {
                    Some(seq![0xFFu8, 0xFDu8, v])
                } else {
                    match unescape_scan(s.skip(10)) {
                        Some(r) => Some(seq![0xFFu8, 0xFDu8, v] + r),
                        None => None,
                    }
                },
            }
        }
    } else if s.len() <= 1 {
        Some(seq![s[0]])
    } else {
        match unescape_scan(s.skip(1)) {
            Some(r) => Some(seq![s[0]] + r),
            None => None,
        }
    }
}

/// The raw script bytes for a text: its Shift-JIS bytes with the markup
/// turned back into control codes; `None` where the conversion fails.
pub open spec fn text_to_script_bytes(text: Seq<char>) -> Option<Seq<u8>> {
    unescape_scan(shift_jis_encoded(text))
}

/// The text decoded from the raw bytes of a fixed-length text.
pub open spec fn script_bytes_to_text(raw: Seq<u8>) -> Seq<char> {
    shift_jis_decoded(escaped_text_bytes(raw))
}


/// The escaping scan meets no literal `[{` pair, no `[` at the very end, and
/// no control code cut short by the end of the input (`s` is the rest of the
/// zero-padded input with `k` real bytes left).
pub open spec fn markup_clean_scan(s: Seq<u8>, k: int) -> bool
    decreases k,
{
    if s.len() >= 3 && s[0] == 0xFF && s[1] == 0xFD {
        k >= 3 && (k == 3 || markup_clean_scan(s.skip(3), k - 3))
    } else if s.len() >= 1 {
        (s[0] == 0x5B ==> (k >= 2 && s.len() >= 2 && s[1] != 0x7B)) && (k <= 1
            || markup_clean_scan(s.skip(1), k - 1))
    } else {
        true
    }
}

/// The raw bytes of a fixed-length text survive escaping and unescaping:
/// no literal `[{` pair, no `[` or control code cut off by the end.
pub open spec fn markup_clean(raw: Seq<u8>) -> bool {
    markup_clean_scan(zero_padded(raw), raw.len() as int)
}

proof fn lemma_hex_round_trip(x: u8)
    ensures
        hex_pair(hex_digit(x / 16), hex_digit(x % 16)) == Some(x),
{
    let h = x / 16;
    let l = x % 16;
    assert(hex_value(hex_digit(h)) == Some(h));
    assert(hex_value(hex_digit(l)) == Some(l));
    assert(hex_digit(h) != 0x2B);
    assert(16 * h + l == x);
}

proof fn lemma_escape_scan_first(s: Seq<u8>, k: int)
    requires
        s.len() >= 1,
    ensures
        escape_scan(s, k).len() >= 1,
        escape_scan(s, k)[0] == (if s.len() >= 3 && s[0] == 0xFF && s[1] == 0xFD {
            0x5Bu8
        } else {
            s[0]
        }),
{
}

proof fn lemma_markup_scan_round_trip(s: Seq<u8>, k: int)
    requires
        k >= 1,
        s.len() == k + 3,
        s[k] == 0 && s[k + 1] == 0 && s[k + 2] == 0,
        markup_clean_scan(s, k),
    ensures
        unescape_scan(escape_scan(s, k)) == Some(s.take(k)),
    decreases k,
{
    let e = escape_scan(s, k);
    if s[0] == 0xFF && s[1] == 0xFD {
        let x = s[2];
        lemma_hex_round_trip(x);
        let m = control_markup(x);
        if k == 3 {
            assert(e =~= m);
            assert(s.take(k) =~= seq![0xFFu8, 0xFDu8, x]);
        } else {
            let t = s.skip(3);
            lemma_markup_scan_round_trip(t, k - 3);
            lemma_escape_scan_first(t, k - 3);
            let rest = escape_scan(t, k - 3);
            assert(e == m + rest);
            assert(e.skip(10) =~= rest);
            assert(e[6] == hex_digit(x / 16) && e[7] == hex_digit(x % 16));
            assert(seq![0xFFu8, 0xFDu8, x] + t.take(k - 3) =~= s.take(k));
        }
    } else {
        let c = s[0];
        if k == 1 {
            assert(e =~= seq![c]);
            assert(s.take(k) =~= seq![c]);
        } else {
            let t = s.skip(1);
            lemma_markup_scan_round_trip(t, k - 1);
            lemma_escape_scan_first(t, k - 1);
            let rest = escape_scan(t, k - 1);
            assert(e == seq![c] + rest);
            assert(e.skip(1) =~= rest);
            assert(e[1] == rest[0]);
            assert(seq![c] + t.take(k - 1) =~= s.take(k));
        }
    }
}

/// Escaping the control codes of a non-empty fixed-length text and turning
/// the markup back gives the raw bytes again, whenever the raw bytes are
/// `markup_clean`.
pub proof fn lemma_markup_round_trip(raw: Seq<u8>)
    requires
        raw.len() >= 1,
        markup_clean(raw),
    ensures
        unescape_scan(escaped_text_bytes(raw)) == Some(raw),
{
    let s = zero_padded(raw);
    lemma_markup_scan_round_trip(s, raw.len() as int);
    assert(s.take(raw.len() as int) =~= raw);
}

/// A fixed-length text read from the script and written back gives the same
/// raw bytes, whenever the raw bytes are `markup_clean` and Shift-JIS
/// re-encodes its decoded text to the same bytes.
pub proof fn lemma_text_round_trip(raw: Seq<u8>)
    requires
        raw.len() >= 1,
        markup_clean(raw),
        shift_jis_encoded(shift_jis_decoded(escaped_text_bytes(raw))) == escaped_text_bytes(raw),
    ensures
        text_to_script_bytes(script_bytes_to_text(raw)) == Some(raw),
{
    lemma_markup_round_trip(raw);
}

/// The Shift-JIS bytes of a text are in the form that the decoder writes:
/// every `[{` starts a whole markup `[{FDFFxy}]` with `xy` two upper-case
/// hex digits, no `[` stands last, and no byte is `FF` (so no raw control
/// code is spelled out in the text itself).
pub open spec fn markup_canonical(e: Seq<u8>) -> bool
    decreases e.len(),
{
    if e.len() == 0 {
        true
    } else if e[0] == 0x5B && e.len() >= 2 && e[1] == 0x7B {
        e.len() >= 10 && match hex_pair(e[6], e[7]) {
            Some(v) => e.take(10) == control_markup(v) && markup_canonical(e.skip(10)),
            None => false,
        }
    } else {
        e[0] != 0xFF && !(e[0] == 0x5B && e.len() < 2) && markup_canonical(e.skip(1))
    }
}

proof fn lemma_canonical_round_trip(e: Seq<u8>)
    requires
        e.len() >= 1,
        markup_canonical(e),
    ensures
        unescape_scan(e) matches Some(r) && r.len() >= 1 && escape_scan(zero_padded(r), r.len() as int)
            == e,
    decreases e.len(),
{
    if e[0] == 0x5B && e.len() >= 2 && e[1] == 0x7B {
        let v = hex_pair(e[6], e[7])->0;
        let m = seq![0xFFu8, 0xFDu8, v];
        assert(e.take(10) == control_markup(v));
        if e.len() == 10 {
            assert(unescape_scan(e) == Some(m));
            assert(zero_padded(m)[2] == v);
            assert(escape_scan(zero_padded(m), 3) == control_markup(v));
            assert(e =~= e.take(10));
        } else {
            let rest = e.skip(10);
            lemma_canonical_round_trip(rest);
            let r2 = unescape_scan(rest)->0;
            let r = m + r2;
            assert(unescape_scan(e) == Some(r));
            let s = zero_padded(r);
            assert(s[0] == 0xFF && s[1] == 0xFD && s[2] == v);
            assert(s.skip(3) =~= zero_padded(r2));
            assert(escape_scan(s, r.len() as int) == control_markup(v) + escape_scan(
                zero_padded(r2),
                r2.len() as int,
            ));
            assert(e =~= e.take(10) + rest);
        }
    } else {
        let c = e[0];
        if e.len() == 1 {
            assert(unescape_scan(e) == Some(seq![c]));
            assert(escape_scan(zero_padded(seq![c]), 1) =~= seq![c]);
            assert(e =~= seq![c]);
        } else {
            let rest = e.skip(1);
            lemma_canonical_round_trip(rest);
            let r2 = unescape_scan(rest)->0;
            let r = seq![c] + r2;
            assert(unescape_scan(e) == Some(r));
            let s = zero_padded(r);
            assert(s[0] == c);
            assert(s.skip(1) =~= zero_padded(r2));
            assert(escape_scan(s, r.len() as int) == seq![c] + escape_scan(
                zero_padded(r2),
                r2.len() as int,
            ));
            assert(e =~= seq![c] + rest);
        }
    }
}

/// A text turned into script bytes and read back as a fixed-length text of
/// that length gives the same text, whenever its Shift-JIS bytes are
/// non-empty and `markup_canonical` and decode back to the text.
pub proof fn lemma_text_from_text_round_trip(text: Seq<char>)
    requires
        shift_jis_encoded(text).len() >= 1,
        markup_canonical(shift_jis_encoded(text)),
        shift_jis_decoded(shift_jis_encoded(text)) == text,
    ensures
        text_to_script_bytes(text) matches Some(raw) && raw.len() >= 1 && script_bytes_to_text(raw)
            == text,
{
    lemma_canonical_round_trip(shift_jis_encoded(text));
}

/// A text made only of one control code `FF FD x` is handed to the decoder
/// as the ten bytes `[{FDFF` + the two upper-case hex digits of `x` + `}]`.
pub proof fn lemma_escape_control_code(x: u8)
    ensures
        escaped_text_bytes(seq![0xFFu8, 0xFDu8, x]) == seq![
            0x5Bu8,
            0x7Bu8,
            0x46u8,
            0x44u8,
            0x46u8,
            0x46u8,
            (if x / 16 < 10 { 0x30 + x / 16 } else { 0x41 + x / 16 - 10 }) as u8,
            (if x % 16 < 10 { 0x30 + x % 16 } else { 0x41 + x % 16 - 10 }) as u8,
            0x7Du8,
            0x5Du8,
        ],
{
    let raw = seq![0xFFu8, 0xFDu8, x];
    let s = zero_padded(raw);
    assert(s[0] == 0xFF && s[1] == 0xFD && s[2] == x);
    assert(escaped_text_bytes(raw) == control_markup(x));
}

proof fn lemma_escape_plain_scan(s: Seq<u8>, k: int)
    requires
        k >= 1,
        s.len() == k + 3,
        forall|i: int| 0 <= i < k ==> #[trigger] s[i] != 0xFF,
    ensures
        escape_scan(s, k) == s.take(k),
    decreases k,
{
    if k > 1 {
        let t = s.skip(1);
        assert forall|i: int| 0 <= i < k - 1 implies #[trigger] t[i] != 0xFF by {
            assert(t[i] == s[i + 1]);
        }
        lemma_escape_plain_scan(t, k - 1);
        assert(seq![s[0]] + t.take(k - 1) =~= s.take(k));
    } else {
        assert(s.take(1) =~= seq![s[0]]);
    }
}

/// A non-empty text with no `FF` byte holds no control code, and is handed
/// to the decoder unchanged.
pub proof fn lemma_escape_plain(raw: Seq<u8>)
    requires
        raw.len() >= 1,
        forall|i: int| 0 <= i < raw.len() ==> #[trigger] raw[i] != 0xFF,
    ensures
        escaped_text_bytes(raw) == raw,
{
    let s = zero_padded(raw);
    assert forall|i: int| 0 <= i < raw.len() implies #[trigger] s[i] != 0xFF by {
        assert(s[i] == raw[i]);
    }
    lemma_escape_plain_scan(s, raw.len() as int);
    assert(s.take(raw.len() as int) =~= raw);
}

/// Byte `k` of the zero-padded input that starts at `n`.
fn padded_at(raw: &[u8], n: usize, k: usize) -> (b: u8)
    requires
        n <= raw.len(),
        k < 3,
    ensures
        b == zero_padded(raw@).skip(n as int)[k as int],
{
    if k < raw.len() - n {
        raw[n + k]
    } else {
        0
    }
}

fn hex_digit_exec(d: u8) -> (c: u8)
    requires
        d < 16,
    ensures
        c == hex_digit(d),
{
    if d < 10 {
        0x30 + d
    } else {
        0x37 + d
    }
}

/// Replaces each control code `FF FD xx` of a fixed-length text by the markup
/// `[{FDFFxx}]`.
pub fn escape_controls(raw: &[u8]) -> (out: Vec<u8>)
    ensures
        out@ == escaped_text_bytes(raw@),
{
    let l = raw.len();
    let ghost padded = zero_padded(raw@);
    let mut out: Vec<u8> = Vec::new();
    let mut n: usize = 0;
    assert(padded.skip(0) =~= padded);
    loop
        invariant
            n <= l,
            n == 0 || n < l,
            l == raw@.len(),
            padded == zero_padded(raw@),
            out@ + escape_scan(padded.skip(n as int), l - n) == escaped_text_bytes(raw@),
        decreases l - n,
    {
        let ghost s = padded.skip(n as int);
        let c0 = padded_at(raw, n, 0);
        let c1 = padded_at(raw, n, 1);
        let c2 = padded_at(raw, n, 2);
        let rem = l - n;
        if c0 == 0xFF && c1 == 0xFD {
            let ghost before = out@;
            out.push(0x5B);
            out.push(0x7B);
            out.push(0x46);
            out.push(0x44);
            out.push(0x46);
            out.push(0x46);
            out.push(hex_digit_exec(c2 / 16));
            out.push(hex_digit_exec(c2 % 16));
            out.push(0x7D);
            out.push(0x5D);
            assert(out@ =~= before + control_markup(c2));
            if rem <= 3 {
                assert(out@ =~= escaped_text_bytes(raw@));
                return out;
            }
            assert(s.skip(3) =~= padded.skip(n + 3));
            n = n + 3;
        } else {
            let ghost before = out@;
            out.push(c0);
            if rem <= 1 {
                assert(out@ =~= escaped_text_bytes(raw@));
                return out;
            }
            assert(s.skip(1) =~= padded.skip(n + 1));
            n = n + 1;
        }
    }
}

fn hex_value_exec(c: u8) -> (v: Option<u8>)
    ensures
        v == hex_value(c),
{
    if 0x30 <= c && c <= 0x39 {
        Some(c - 0x30)
    } else if 0x41 <= c && c <= 0x46 {
        Some(c - 0x37)
    } else if 0x61 <= c && c <= 0x66 {
        Some(c - 0x57)
    } else {
        None
    }
}

fn hex_pair_exec(c1: u8, c2: u8) -> (v: Option<u8>)
    ensures
        v == hex_pair(c1, c2),
{
    if c1 == 0x2B {
        hex_value_exec(c2)
    } else {
        match (hex_value_exec(c1), hex_value_exec(c2)) {
            (Some(h), Some(l)) => Some(16 * h + l),
            _ => None,
        }
    }
}

/// Turns each markup `[{....xy}]` back into the control code `FF FD v`.
/// `None` exactly where the conversion fails (an empty
/// input, markup cut short, or a pair that is not hex).
pub fn unescape_controls(t: &[u8]) -> (out: Option<Vec<u8>>)
    ensures
        match out {
            Some(o) => unescape_scan(t@) == Some(o@),
            None => unescape_scan(t@) is None,
        },
{
    let l = t.len();
    if l == 0 {
        return None;
    }
    let mut out: Vec<u8> = Vec::new();
    let mut n: usize = 0;
    assert(t@.skip(0) =~= t@);
    loop
        invariant
            n < l,
            l == t@.len(),
            match unescape_scan(t@.skip(n as int)) {
                Some(r) => unescape_scan(t@) == Some(out@ + r),
                None => unescape_scan(t@) is None,
            },
        decreases l - n,
    {
        let ghost s = t@.skip(n as int);
        let rem = l - n;
        if t[n] == 0x5B && rem < 2 {
            return None;
        }
        if t[n] == 0x5B && t[n + 1] == 0x7B {
            if rem < 8 {
                return None;
            }
            match hex_pair_exec(t[n + 6], t[n + 7]) {
                None => {
                    return None;
                },
                Some(v) => {
                    let ghost before = out@;
                    out.push(0xFF);
                    out.push(0xFD);
                    out.push(v);
                    assert(out@ =~= before + seq![0xFFu8, 0xFDu8, v]);
                    if rem <= 10 {
                        assert(unescape_scan(t@) == Some(out@)) by {
                            assert(before + seq![0xFFu8, 0xFDu8, v] =~= out@);
                        }
                        return Some(out);
                    }
                    assert(s.skip(10) =~= t@.skip(n + 10));
                    assert forall|r: Seq<u8>| #![auto] before + (seq![0xFFu8, 0xFDu8, v] + r) == out@ + r by {
                        assert(before + (seq![0xFFu8, 0xFDu8, v] + r) =~= out@ + r);
                    }
                    n = n + 10;
                },
            }
        } else {
            let ghost before = out@;
            let c = t[n];
            out.push(c);
            if rem <= 1 {
                assert(unescape_scan(t@) == Some(out@)) by {
                    assert(before + seq![c] =~= out@);
                }
                return Some(out);
            }
            assert(s.skip(1) =~= t@.skip(n + 1));
            assert forall|r: Seq<u8>| #![auto] before + (seq![c] + r) == out@ + r by {
                assert(before + (seq![c] + r) =~= out@ + r);
            }
            n = n + 1;
        }
    }
}

/// The script bytes for a text: its Shift-JIS encoding with the markup turned
/// back into control codes. `None` exactly where the conversion fails.
pub fn get_bytes_string(text: &String) -> (out: Option<Vec<u8>>)
    ensures
        match out {
            Some(o) => text_to_script_bytes(text@) == Some(o@),
            None => text_to_script_bytes(text@) is None,
        },
{
    let encoded = encode_shift_jis(text.as_str());
    unescape_controls(encoded.as_slice())
}

} // verus!
