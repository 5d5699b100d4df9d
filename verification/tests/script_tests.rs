use ysv_tools::code::{Choice, Code};
use ysv_tools::script::{Content, DecodeError, EncodeError, ScriptYsV, UnknownOpcode};

/// A script image: a table of `(index, offset)` pairs, zeros up to 0x2000,
/// then `body`, then zeros up to a multiple of 0x800.
fn image(table: &[(u32, u32)], body: &[u8]) -> Vec<u8> {
    let mut v = Vec::new();
    for (idx, off) in table {
        v.extend_from_slice(&idx.to_le_bytes());
        v.extend_from_slice(&off.to_le_bytes());
    }
    while v.len() % 0x2000 != 0 {
        v.push(0);
    }
    v.extend_from_slice(body);
    while v.len() % 0x800 != 0 {
        v.push(0);
    }
    v
}

#[test]
fn decode_simple_entry() {
    let img = image(&[(1, 0)], &[0x01, 0x05, 0x13, 0x34, 0x12, 0x07, 0xFF]);
    let script = ScriptYsV::new(&img).unwrap();
    assert_eq!(script.contents.len(), 1);
    let c = &script.contents[0];
    assert_eq!(c.idx, 1);
    assert_eq!(c.offset, 0);
    assert_eq!(
        c.codes,
        vec![Code::C01 { a0: 5 }, Code::C13 { a0: 0x1234, a1: 7 }, Code::End {}]
    );
    assert!(c.start_3c.is_empty());
    assert!(c.end_3c.is_empty());
    assert!(script.unknown.is_empty());
}

#[test]
fn decode_two_entries_at_their_offsets() {
    let body = [0x04, 0xFF, 0x0E, 0x09, 0xFF];
    let img = image(&[(3, 0), (7, 2)], &body);
    let script = ScriptYsV::new(&img).unwrap();
    assert_eq!(script.contents.len(), 2);
    assert_eq!(script.contents[0].idx, 3);
    assert_eq!(script.contents[0].codes, vec![Code::C04 {}, Code::End {}]);
    assert_eq!(script.contents[1].idx, 7);
    assert_eq!(script.contents[1].offset, 2);
    assert_eq!(script.contents[1].codes, vec![Code::C0E { a0: 9 }, Code::End {}]);
}

#[test]
fn decode_shift_jis_text() {
    // 08: a zero-terminated text; 82 A0 is HIRAGANA LETTER A in Shift-JIS.
    let img = image(&[(1, 0)], &[0x08, 0x82, 0xA0, 0x41, 0x00, 0xFF]);
    let script = ScriptYsV::new(&img).unwrap();
    assert_eq!(
        script.contents[0].codes,
        vec![Code::C08 { xstr: "\u{3042}A".to_string() }, Code::End {}]
    );
}

#[test]
fn decode_fixed_text_with_control_code() {
    // 0A: two words, then a flagged length and that many bytes.
    let img = image(
        &[(1, 0)],
        &[0x0A, 0x01, 0x00, 0x02, 0x00, 0x04, 0x80, 0xFF, 0xFD, 0x12, 0x42, 0xFF],
    );
    let script = ScriptYsV::new(&img).unwrap();
    assert_eq!(
        script.contents[0].codes,
        vec![
            Code::C0A { a0: 1, a1: 2, len: 4, str: "[{FDFF12}]B".to_string() },
            Code::End {}
        ]
    );
}

#[test]
fn decode_fixed_text_of_length_zero_gives_one_nul() {
    let img = image(&[(1, 0)], &[0x3B, 0x05, 0x00, 0x00, 0x80, 0xFF]);
    let script = ScriptYsV::new(&img).unwrap();
    assert_eq!(
        script.contents[0].codes,
        vec![Code::C3B { a0: 5, len: 0, str: "\u{0}".to_string() }, Code::End {}]
    );
}

#[test]
fn decode_choices() {
    // 28: a word, a fixed-length question, then two choices.
    let body = [
        0x28, 0x09, 0x00, // a0
        0x01, 0x80, 0x51, // "Q"
        0x02, 0x80, 0x59, 0x65, 0x10, 0x00, 0x20, 0x00, // "Ye", 16, 32
        0x02, 0x80, 0x4E, 0x6F, 0x30, 0x00, 0x40, 0x00, // "No", 48, 64
        0xFF,
    ];
    let img = image(&[(2, 0)], &body);
    let script = ScriptYsV::new(&img).unwrap();
    assert_eq!(
        script.contents[0].codes,
        vec![
            Code::C28 {
                a0: 9,
                len: 1,
                ask: "Q".to_string(),
                choices: vec![
                    Choice { len: 2, choice: "Ye".to_string(), end_0: 16, end_1: 32 },
                    Choice { len: 2, choice: "No".to_string(), end_0: 48, end_1: 64 },
                ],
            },
            Code::End {}
        ]
    );
}

#[test]
fn decode_records_jumps_and_landings() {
    // A 3C jump at 0 whose distance 5 lands at 0 + 5 + 1 = 6, the third instruction.
    let body = [0x3C, 0x05, 0x00, 0x00, 0x00, 0x00, 0x00, 0xFF];
    let img = image(&[(1, 0)], &body);
    let script = ScriptYsV::new(&img).unwrap();
    let c = &script.contents[0];
    assert_eq!(c.codes[0], Code::C3C { jump: 5, a1: 0 });
    assert_eq!(c.start_3c, vec![0]);
    assert_eq!(c.end_3c, vec![2]);
}

#[test]
fn decode_text_clears_jump_records() {
    let body = [0x3C, 0x05, 0x00, 0x00, 0x00, 0x09, 0x00, 0xFF];
    let img = image(&[(1, 0)], &body);
    let script = ScriptYsV::new(&img).unwrap();
    let c = &script.contents[0];
    assert!(c.start_3c.is_empty());
    assert!(c.end_3c.is_empty());
}

#[test]
fn decode_skips_unknown_opcodes() {
    let img = image(&[(1, 0)], &[0x70, 0x00, 0xFF]);
    let script = ScriptYsV::new(&img).unwrap();
    assert_eq!(script.contents[0].codes, vec![Code::C00 {}, Code::End {}]);
    assert_eq!(script.unknown, vec![UnknownOpcode { position: 0x2001, opcode: 0x70 }]);
}

#[test]
fn decode_fails_without_end() {
    let mut img = image(&[(1, 0)], &[0x01]);
    img.truncate(0x2001);
    assert_eq!(ScriptYsV::new(&img), Err(DecodeError::Truncated));
}

#[test]
fn decode_fails_on_unterminated_table() {
    let img = vec![1, 0, 0, 0, 0, 0, 0, 0, 2, 0, 0];
    assert_eq!(ScriptYsV::new(&img), Err(DecodeError::Truncated));
}

#[test]
fn decode_fails_on_text_without_terminator() {
    let mut img = image(&[(1, 0)], &[0x08, 0x41]);
    img.truncate(0x2002);
    assert_eq!(ScriptYsV::new(&img), Err(DecodeError::Truncated));
}

#[test]
fn decode_fails_on_cut_fixed_text() {
    let mut img = image(&[(1, 0)], &[0x52, 0x00, 0x00, 0x09, 0x80, 0x41]);
    img.truncate(0x2006);
    assert_eq!(ScriptYsV::new(&img), Err(DecodeError::Truncated));
}

#[test]
fn decode_of_empty_table() {
    let img = vec![0u8; 8];
    let script = ScriptYsV::new(&img).unwrap();
    assert!(script.contents.is_empty());
}

#[test]
fn encode_decode_round_trip_image() {
    let body = [
        0x3C, 0x05, 0x00, 0x00, 0x00, 0x00, 0x00, // jump landing on the third code
        0x1B, 0x01, 0x02, 0x03, 0x04, 0x05, 0x06, // word and dword
        0x0A, 0x01, 0x00, 0x02, 0x00, 0x04, 0x80, 0xFF, 0xFD, 0x12, 0x42, // fixed text
        0x17, 0x41, 0x42, 0x00, 0x34, 0x12, // escaped text and word
        0xFF,
    ];
    let img = image(&[(5, 0)], &body);
    let script = ScriptYsV::new(&img).unwrap();
    let out = script.to_bin().unwrap();
    assert_eq!(out, img);
}

#[test]
fn encode_rewrites_jump_distance() {
    let script = ScriptYsV {
        contents: vec![Content {
            idx: 1,
            offset: 0,
            codes: vec![
                Code::C3C { jump: 0x7777, a1: 1 },
                Code::C00 {},
                Code::C00 {},
                Code::C00 {},
                Code::End {},
            ],
            start_3c: vec![0],
            end_3c: vec![3],
        }],
        unknown: vec![],
    };
    let out = script.to_bin().unwrap();
    assert_eq!(out.len(), 0x2800);
    assert_eq!(&out[0..8], &[1, 0, 0, 0, 0, 0, 0, 0]);
    // The third instruction starts at 7: the distance is 7 - 0 - 1 = 6.
    assert_eq!(&out[0x2000..0x2009], &[0x3C, 0x06, 0x00, 0x01, 0x00, 0x00, 0x00, 0x00, 0xFF]);
}

#[test]
fn encode_writes_header_offsets() {
    let script = ScriptYsV {
        contents: vec![
            Content { idx: 4, offset: 99, codes: vec![Code::C01 { a0: 2 }, Code::End {}], start_3c: vec![], end_3c: vec![] },
            Content { idx: 6, offset: 99, codes: vec![Code::End {}], start_3c: vec![], end_3c: vec![] },
        ],
        unknown: vec![],
    };
    let out = script.to_bin().unwrap();
    assert_eq!(&out[0..16], &[4, 0, 0, 0, 0, 0, 0, 0, 6, 0, 0, 0, 3, 0, 0, 0]);
    assert_eq!(&out[0x2000..0x2004], &[0x01, 0x02, 0xFF, 0xFF]);
    assert_eq!(out.len() % 0x800, 0);
}

#[test]
fn encode_plain_and_escaped_texts() {
    let script = ScriptYsV {
        contents: vec![Content {
            idx: 1,
            offset: 0,
            codes: vec![
                Code::C08 { xstr: "\u{3042}".to_string() },
                Code::C54 { xstr: "[{FDFF0a}]".to_string() },
                Code::End {},
            ],
            start_3c: vec![],
            end_3c: vec![],
        }],
        unknown: vec![],
    };
    let out = script.to_bin().unwrap();
    assert_eq!(&out[0x2000..0x200A], &[0x08, 0x82, 0xA0, 0x00, 0x54, 0xFF, 0xFD, 0x0A, 0x00, 0xFF]);
}

#[test]
fn encode_fixed_text_sets_length_flag() {
    let script = ScriptYsV {
        contents: vec![Content {
            idx: 1,
            offset: 0,
            codes: vec![Code::C52 { a0: 3, len: 77, str: "AB".to_string() }, Code::End {}],
            start_3c: vec![],
            end_3c: vec![],
        }],
        unknown: vec![],
    };
    let out = script.to_bin().unwrap();
    assert_eq!(&out[0x2000..0x2008], &[0x52, 0x03, 0x00, 0x02, 0x80, 0x41, 0x42, 0xFF]);
}

#[test]
fn encode_fails_on_empty_escaped_text() {
    let script = ScriptYsV {
        contents: vec![Content {
            idx: 1,
            offset: 0,
            codes: vec![Code::C2E { xstr: String::new() }, Code::End {}],
            start_3c: vec![],
            end_3c: vec![],
        }],
        unknown: vec![],
    };
    assert_eq!(script.to_bin(), Err(EncodeError::Unencodable));
}

#[test]
fn encode_fails_on_bad_markup() {
    let script = ScriptYsV {
        contents: vec![Content {
            idx: 1,
            offset: 0,
            codes: vec![Code::C35 { a0: 0, a1: 0, len: 0, str: "[{FDFFzz}]".to_string() }, Code::End {}],
            start_3c: vec![],
            end_3c: vec![],
        }],
        unknown: vec![],
    };
    assert_eq!(script.to_bin(), Err(EncodeError::Unencodable));
}

#[test]
fn encode_fails_on_landing_before_jump() {
    let script = ScriptYsV {
        contents: vec![Content {
            idx: 1,
            offset: 0,
            codes: vec![Code::C3C { jump: 0, a1: 0 }, Code::End {}],
            start_3c: vec![0],
            end_3c: vec![0],
        }],
        unknown: vec![],
    };
    assert_eq!(script.to_bin(), Err(EncodeError::Unencodable));
}

#[test]
fn encode_ignores_unmatched_records() {
    // One jump record but no landing record: nothing is rewritten.
    let script = ScriptYsV {
        contents: vec![Content {
            idx: 1,
            offset: 0,
            codes: vec![Code::C3C { jump: 9, a1: 0 }, Code::End {}],
            start_3c: vec![0],
            end_3c: vec![],
        }],
        unknown: vec![],
    };
    let out = script.to_bin().unwrap();
    assert_eq!(&out[0x2000..0x2006], &[0x3C, 0x09, 0x00, 0x00, 0x00, 0xFF]);
}

#[test]
fn encode_of_no_entries() {
    let script = ScriptYsV { contents: vec![], unknown: vec![] };
    assert_eq!(script.to_bin().unwrap(), Vec::<u8>::new());
}

#[test]
fn code_round_trip_law_on_values() {
    // Writing then reading instructions gives the same values back.
    let codes = vec![
        Code::C66 { a0: 1, a1: 0xDEADBEEF, a2: 7 },
        Code::C64 { a0: 1, a1: 2, a2: 3, a3: 4, a4: 5, a5: 6, a6: 7 },
        Code::C24 {
            a0: 1,
            a1: 2,
            len: 1,
            ask: "Q".to_string(),
            choices: vec![
                Choice { len: 1, choice: "a".to_string(), end_0: 1, end_1: 2 },
                Choice { len: 1, choice: "b".to_string(), end_0: 3, end_1: 4 },
                Choice { len: 1, choice: "c".to_string(), end_0: 5, end_1: 6 },
                Choice { len: 1, choice: "d".to_string(), end_0: 7, end_1: 8 },
            ],
        },
        Code::C17 { str: "xy".to_string(), a0: 9 },
        Code::End {},
    ];
    let script = ScriptYsV {
        contents: vec![Content { idx: 1, offset: 0, codes, start_3c: vec![], end_3c: vec![] }],
        unknown: vec![],
    };
    let out = script.to_bin().unwrap();
    let back = ScriptYsV::new(&out).unwrap();
    assert_eq!(back.contents[0].codes, script.contents[0].codes);
}

#[test]
fn decode_encode_round_trip_two_entries() {
    let body = [
        0x08, 0x82, 0xA0, 0x41, 0x00, // plain text, Shift-JIS
        0x0A, 0x01, 0x00, 0x02, 0x00, 0x03, 0x80, 0x41, 0x42, 0x43, // fixed text
        0xFF, // end of the first entry, at offset 16
        0x3C, 0x05, 0x00, 0x01, 0x00, // jump to the third instruction
        0x00, 0x00, 0xFF,
    ];
    let img = image(&[(7, 0), (9, 16)], &body);
    let script = ScriptYsV::new(&img).unwrap();
    assert_eq!(script.contents.len(), 2);
    assert_eq!(script.contents[1].offset, 16);
    assert_eq!(script.contents[1].start_3c, vec![0]);
    assert_eq!(script.contents[1].end_3c, vec![2]);
    assert_eq!(script.to_bin().unwrap(), img);
}
