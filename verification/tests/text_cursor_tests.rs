use ysv_tools::cursor::{ByteCursor, CursorHelper, WriterHelper};
use ysv_tools::text::{escape_controls, get_bytes_string, unescape_controls};

#[test]
fn escape_control_code() {
    assert_eq!(escape_controls(&[0xFF, 0xFD, 0x1A, 0x41]), b"[{FDFF1A}]A".to_vec());
}

#[test]
fn escape_control_code_at_the_end_uses_padding() {
    assert_eq!(escape_controls(&[0x41, 0xFF, 0xFD]), b"A[{FDFF00}]".to_vec());
}

#[test]
fn escape_of_empty_text_is_one_nul() {
    assert_eq!(escape_controls(&[]), vec![0u8]);
}

#[test]
fn escape_leaves_plain_bytes() {
    assert_eq!(escape_controls(&[0xFF, 0x41, 0xFD]), vec![0xFF, 0x41, 0xFD]);
}

#[test]
fn unescape_markup() {
    assert_eq!(unescape_controls(b"[{FDFF1A}]A"), Some(vec![0xFF, 0xFD, 0x1A, 0x41]));
}

#[test]
fn unescape_accepts_lower_case_and_sign() {
    assert_eq!(unescape_controls(b"[{....ab}]"), Some(vec![0xFF, 0xFD, 0xAB]));
    assert_eq!(unescape_controls(b"[{FDFF+7}]"), Some(vec![0xFF, 0xFD, 0x07]));
}

#[test]
fn unescape_refusals() {
    assert_eq!(unescape_controls(b""), None);
    assert_eq!(unescape_controls(b"A["), None);
    assert_eq!(unescape_controls(b"[{FDFF"), None);
    assert_eq!(unescape_controls(b"[{FDFF-1}]"), None);
    assert_eq!(unescape_controls(b"[{FDFFgg}]"), None);
}

#[test]
fn unescape_short_markup_at_end() {
    // Eight bytes are enough: the two after the pair are not looked at.
    assert_eq!(unescape_controls(b"[{FDFF20"), Some(vec![0xFF, 0xFD, 0x20]));
}

#[test]
fn markup_round_trip_law_on_values() {
    let raw = vec![0x41, 0xFF, 0xFD, 0x05, 0x5B, 0x42, 0xFF, 0x00];
    let escaped = escape_controls(&raw);
    assert_eq!(unescape_controls(&escaped), Some(raw));
}

#[test]
fn script_bytes_of_text() {
    assert_eq!(get_bytes_string(&"A[{FDFF0a}]\u{3042}".to_string()), Some(vec![0x41, 0xFF, 0xFD, 0x0A, 0x82, 0xA0]));
    assert_eq!(get_bytes_string(&String::new()), None);
    assert_eq!(get_bytes_string(&"abc".to_string()), Some(b"abc".to_vec()));
}

#[test]
fn cursor_reads_little_endian() {
    let mut c = ByteCursor::new(vec![0x01, 0x02, 0x03, 0x04, 0x05, 0x06, 0x07]);
    assert_eq!(c.read_u8(), 1);
    assert_eq!(c.read_u16(), 0x0302);
    assert_eq!(c.read_u32(), 0x07060504);
    assert_eq!(c.position(), 7);
}

#[test]
fn cursor_read_after_write_law_on_values() {
    let mut c = ByteCursor::new(vec![9; 3]);
    c.seek(1);
    WriterHelper::<u16>::write_v(&mut c, 0xBEEF);
    WriterHelper::<u32>::write_v(&mut c, 0x12345678);
    c.seek(1);
    assert_eq!(c.read_u16(), 0xBEEF);
    assert_eq!(c.read_u32(), 0x12345678);
    let data = c.into_bytes();
    assert_eq!(data, vec![9, 0xEF, 0xBE, 0x78, 0x56, 0x34, 0x12]);
}

#[test]
fn cursor_write_past_end_fills_zeros() {
    let mut c = ByteCursor::new(vec![1]);
    c.seek(3);
    WriterHelper::<u8>::write_v(&mut c, 7);
    assert_eq!(c.into_bytes(), vec![1, 0, 0, 7]);
}

#[test]
fn cursor_padding() {
    let mut c = ByteCursor::new(vec![1, 2, 3]);
    c.seek(3);
    c.write_padding(8, 0);
    assert_eq!(c.position(), 8);
    c.write_padding(8, 0);
    assert_eq!(c.position(), 8);
    c.write_padding(5, 1);
    assert_eq!(c.position(), 11);
    assert_eq!(c.into_bytes(), vec![1, 2, 3, 0, 0, 0, 0, 0, 0, 0, 0]);
}

#[test]
fn cursor_texts() {
    let mut c = ByteCursor::new(vec![0x41, 0x42, 0x00, 0x82, 0xA0, 0x00, 0xFF, 0xFD, 0x01]);
    assert_eq!(c.get_shift_jis(3), "\u{3042}");
    assert_eq!(c.get_shift_jis(4), "\u{FFFD}");
    assert_eq!(c.position(), 0);
    assert_eq!(c.read_shift_jis(), "AB");
    assert_eq!(c.position(), 3);
    assert_eq!(c.get_bytes(6, 3), vec![0xFF, 0xFD, 0x01]);
    c.seek(6);
    assert_eq!(c.read_fixed_shift_jis(3), "[{FDFF01}]");
    assert_eq!(c.position(), 9);
}

#[test]
fn cursor_fixed_text_past_end_reads_zeros() {
    let mut c = ByteCursor::new(vec![0x41, 0x42]);
    c.seek(1);
    assert_eq!(c.read_fixed_shift_jis(3), "\u{0}\u{0}\u{0}");
    assert_eq!(c.position(), 2);
}

#[test]
fn text_to_bytes_and_back_law_on_values() {
    let s = "A\u{3042}[{FDFF0A}]B".to_string();
    let d = get_bytes_string(&s).unwrap();
    assert_eq!(d, vec![0x41, 0x82, 0xA0, 0xFF, 0xFD, 0x0A, 0x42]);
    let mut c = ByteCursor::new(d.clone());
    assert_eq!(c.read_fixed_shift_jis(d.len()), s);
    assert_eq!(c.position(), d.len());
}

#[test]
fn cursor_padding_aligned_writes_nothing() {
    let mut c = ByteCursor::new(vec![7; 16]);
    c.seek(16);
    c.write_padding(0x800, 0);
    assert_eq!(c.position(), 0x800);
    c.write_padding(0x800, 0);
    assert_eq!(c.position(), 0x800);
    let out = c.into_bytes();
    assert_eq!(out.len(), 0x800);
    assert!(out[16..].iter().all(|&x| x == 0));
}
