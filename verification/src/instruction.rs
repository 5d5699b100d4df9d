//! The byte layout of each instruction, and the laws that tie the
//! instruction values to it: every instruction is written as its opcode
//! followed by its fields in declaration order, and reading those bytes
//! gives the instruction back.

use vstd::prelude::*;
use crate::code::{args_fit, arg_fits, choices_view, code_args, code_op, layout, Arg, ChoiceV, Choice, Code};
use crate::cursor::{le16, le32};
use crate::script::{
    arg_round_trips, encode_arg, encode_args, encode_choices, encode_code, encode_fixed, lemma_code_round_trip,
    parse_args,
};
use crate::text::{shift_jis_encoded, text_to_script_bytes};

verus! {

/// Both parts present, one after the other.
pub open spec fn join(a: Option<Seq<u8>>, b: Option<Seq<u8>>) -> Option<Seq<u8>> {
    match (a, b) {
        (Some(x), Some(y)) => Some(x + y),
        _ => None,
    }
}

/// An escaped text as script bytes with a zero after it.
#[verifier::opaque]
pub open spec fn esc_text_bytes(s: Seq<char>) -> Option<Seq<u8>> {
    match text_to_script_bytes(s) {
        Some(t) => Some(t + seq![0u8]),
        None => None,
    }
}

/// A fixed-length text: the number of its script bytes (15 bits, with the
/// top bit set) as a little-endian word, then the bytes.
#[verifier::opaque]
pub open spec fn fixed_text_bytes(s: Seq<char>) -> Option<Seq<u8>> {
    match text_to_script_bytes(s) {
        Some(t) => Some(le16(((t.len() % 32768) + 32768) as u16) + t),
        None => None,
    }
}

/// Choices one after the other: each its text as a fixed-length text, then
/// its two words.
#[verifier::opaque]
pub open spec fn choice_list_bytes(cs: Seq<Choice>) -> Option<Seq<u8>>
    decreases cs.len(),
{
    if cs.len() == 0 {
        Some(Seq::empty())
    } else {
        join(
            join(fixed_text_bytes(cs[0].choice@), Some(le16(cs[0].end_0) + le16(cs[0].end_1))),
            choice_list_bytes(cs.drop_first()),
        )
    }
}

/// The bytes of an instruction as the script format lays them out: the
/// opcode, then each field in the order it is declared, a byte as itself,
/// a word or a double word in little-endian order, a plain text in
/// Shift-JIS with a zero after it, an escaped text as its script bytes with
/// a zero after it, a length and text pair as a fixed-length text (the
/// stored length is not written: the text's own length is, with the flag
/// bit), and choices one after the other. `None` where a text has no script
/// bytes.
pub open spec fn instruction_bytes(c: Code) -> Option<Seq<u8>> {
    match c {
        Code::C00 {  } => join(Some(seq![0x00u8]), Some(Seq::<u8>::empty())),
        Code::C01 { a0: v_a0 } => join(Some(seq![0x01u8]), join(Some(seq![v_a0]), Some(Seq::<u8>::empty()))),
        Code::C02 { a0: v_a0 } => join(Some(seq![0x02u8]), join(Some(seq![v_a0]), Some(Seq::<u8>::empty()))),
        Code::C03 { a0: v_a0 } => join(Some(seq![0x03u8]), join(Some(seq![v_a0]), Some(Seq::<u8>::empty()))),
        Code::C04 {  } => join(Some(seq![0x04u8]), Some(Seq::<u8>::empty())),
        Code::C05 {  } => join(Some(seq![0x05u8]), Some(Seq::<u8>::empty())),
        Code::C06 {  } => join(Some(seq![0x06u8]), Some(Seq::<u8>::empty())),
        Code::C07 { a0: v_a0 } => join(Some(seq![0x07u8]), join(Some(seq![v_a0]), Some(Seq::<u8>::empty()))),
        Code::C08 { xstr: v_xstr } => join(Some(seq![0x08u8]), join(Some(shift_jis_encoded(v_xstr@) + seq![0u8]), Some(Seq::<u8>::empty()))),
        Code::C09 { xstr: v_xstr } => join(Some(seq![0x09u8]), join(Some(shift_jis_encoded(v_xstr@) + seq![0u8]), Some(Seq::<u8>::empty()))),
        Code::C0A { a0: v_a0, a1: v_a1, len: _, str: v_str } => join(Some(seq![0x0Au8]), join(Some(le16(v_a0)), join(Some(le16(v_a1)), join(fixed_text_bytes(v_str@), Some(Seq::<u8>::empty()))))),
        Code::C0B {  } => join(Some(seq![0x0Bu8]), Some(Seq::<u8>::empty())),
        Code::C0C {  } => join(Some(seq![0x0Cu8]), Some(Seq::<u8>::empty())),
        Code::C0D {  } => join(Some(seq![0x0Du8]), Some(Seq::<u8>::empty())),
        Code::C0E { a0: v_a0 } => join(Some(seq![0x0Eu8]), join(Some(seq![v_a0]), Some(Seq::<u8>::empty()))),
        Code::C0F {  } => join(Some(seq![0x0Fu8]), Some(Seq::<u8>::empty())),
        Code::C10 {  } => join(Some(seq![0x10u8]), Some(Seq::<u8>::empty())),
        Code::C11 {  } => join(Some(seq![0x11u8]), Some(Seq::<u8>::empty())),
        Code::C12 {  } => join(Some(seq![0x12u8]), Some(Seq::<u8>::empty())),
        Code::C13 { a0: v_a0, a1: v_a1 } => join(Some(seq![0x13u8]), join(Some(le16(v_a0)), join(Some(seq![v_a1]), Some(Seq::<u8>::empty())))),
        Code::C14 { a0: v_a0 } => join(Some(seq![0x14u8]), join(Some(seq![v_a0]), Some(Seq::<u8>::empty()))),
        Code::C15 { a0: v_a0 } => join(Some(seq![0x15u8]), join(Some(le16(v_a0)), Some(Seq::<u8>::empty()))),
        Code::C16 { a0: v_a0, a1: v_a1, a2: v_a2 } => join(Some(seq![0x16u8]), join(Some(seq![v_a0]), join(Some(seq![v_a1]), join(Some(seq![v_a2]), Some(Seq::<u8>::empty()))))),
        Code::C17 { str: v_str, a0: v_a0 } => join(Some(seq![0x17u8]), join(esc_text_bytes(v_str@), join(Some(le16(v_a0)), Some(Seq::<u8>::empty())))),
        Code::C18 { a0: v_a0, a1: v_a1, a2: v_a2 } => join(Some(seq![0x18u8]), join(Some(seq![v_a0]), join(Some(seq![v_a1]), join(Some(seq![v_a2]), Some(Seq::<u8>::empty()))))),
        Code::C19 { a0: v_a0, a1: v_a1, a2: v_a2, a3: v_a3 } => join(Some(seq![0x19u8]), join(Some(le16(v_a0)), join(Some(le16(v_a1)), join(Some(le16(v_a2)), join(Some(le16(v_a3)), Some(Seq::<u8>::empty())))))),
        Code::C1A { a0: v_a0, a1: v_a1 } => join(Some(seq![0x1Au8]), join(Some(le16(v_a0)), join(Some(seq![v_a1]), Some(Seq::<u8>::empty())))),
        Code::C1B { a0: v_a0, a1: v_a1 } => join(Some(seq![0x1Bu8]), join(Some(le16(v_a0)), join(Some(le32(v_a1)), Some(Seq::<u8>::empty())))),
        Code::C1C { a0: v_a0, a1: v_a1 } => join(Some(seq![0x1Cu8]), join(Some(le16(v_a0)), join(Some(le16(v_a1)), Some(Seq::<u8>::empty())))),
        Code::C1D { a0: v_a0, a1: v_a1 } => join(Some(seq![0x1Du8]), join(Some(le16(v_a0)), join(Some(seq![v_a1]), Some(Seq::<u8>::empty())))),
        Code::C1E { a0: v_a0, a1: v_a1, a2: v_a2, a3: v_a3, a4: v_a4 } => join(Some(seq![0x1Eu8]), join(Some(le16(v_a0)), join(Some(le16(v_a1)), join(Some(le16(v_a2)), join(Some(le16(v_a3)), join(Some(seq![v_a4]), Some(Seq::<u8>::empty()))))))),
        Code::C1F { a0: v_a0, a1: v_a1, a2: v_a2 } => join(Some(seq![0x1Fu8]), join(Some(le16(v_a0)), join(Some(seq![v_a1]), join(Some(seq![v_a2]), Some(Seq::<u8>::empty()))))),
        Code::C20 { a0: v_a0, a1: v_a1 } => join(Some(seq![0x20u8]), join(Some(le16(v_a0)), join(Some(seq![v_a1]), Some(Seq::<u8>::empty())))),
        Code::C21 { a0: v_a0, a1: v_a1 } => join(Some(seq![0x21u8]), join(Some(le16(v_a0)), join(Some(seq![v_a1]), Some(Seq::<u8>::empty())))),
        Code::C22 { a0: v_a0, a1: v_a1 } => join(Some(seq![0x22u8]), join(Some(le16(v_a0)), join(Some(le16(v_a1)), Some(Seq::<u8>::empty())))),
        Code::C23 { a0: v_a0, a1: v_a1 } => join(Some(seq![0x23u8]), join(Some(seq![v_a0]), join(Some(le32(v_a1)), Some(Seq::<u8>::empty())))),
        Code::C24 { a0: v_a0, a1: v_a1, len: _, ask: v_ask, choices: v_choices } => join(Some(seq![0x24u8]), join(Some(le16(v_a0)), join(Some(le16(v_a1)), join(fixed_text_bytes(v_ask@), join(choice_list_bytes(v_choices@), Some(Seq::<u8>::empty())))))),
        Code::C25 { a0: v_a0, len: _, ask: v_ask, choices: v_choices } => join(Some(seq![0x25u8]), join(Some(le16(v_a0)), join(fixed_text_bytes(v_ask@), join(choice_list_bytes(v_choices@), Some(Seq::<u8>::empty()))))),
        Code::C26 { a0: v_a0, len: _, ask: v_ask, choices: v_choices } => join(Some(seq![0x26u8]), join(Some(le16(v_a0)), join(fixed_text_bytes(v_ask@), join(choice_list_bytes(v_choices@), Some(Seq::<u8>::empty()))))),
        Code::C27 { a0: v_a0, a1: v_a1, len: _, ask: v_ask, choices: v_choices } => join(Some(seq![0x27u8]), join(Some(le16(v_a0)), join(Some(le16(v_a1)), join(fixed_text_bytes(v_ask@), join(choice_list_bytes(v_choices@), Some(Seq::<u8>::empty())))))),
        Code::C28 { a0: v_a0, len: _, ask: v_ask, choices: v_choices } => join(Some(seq![0x28u8]), join(Some(le16(v_a0)), join(fixed_text_bytes(v_ask@), join(choice_list_bytes(v_choices@), Some(Seq::<u8>::empty()))))),
        Code::C29 { a0: v_a0, len: _, ask: v_ask, choices: v_choices } => join(Some(seq![0x29u8]), join(Some(le16(v_a0)), join(fixed_text_bytes(v_ask@), join(choice_list_bytes(v_choices@), Some(Seq::<u8>::empty()))))),
        Code::C2A { a0: v_a0, a1: v_a1 } => join(Some(seq![0x2Au8]), join(Some(le16(v_a0)), join(Some(seq![v_a1]), Some(Seq::<u8>::empty())))),
        Code::C2B { a0: v_a0 } => join(Some(seq![0x2Bu8]), join(Some(seq![v_a0]), Some(Seq::<u8>::empty()))),
        Code::C2C { a0: v_a0 } => join(Some(seq![0x2Cu8]), join(Some(seq![v_a0]), Some(Seq::<u8>::empty()))),
        Code::C2D { a0: v_a0, a1: v_a1, a2: v_a2, a3: v_a3, a4: v_a4 } => join(Some(seq![0x2Du8]), join(Some(le16(v_a0)), join(Some(le16(v_a1)), join(Some(le16(v_a2)), join(Some(le16(v_a3)), join(Some(seq![v_a4]), Some(Seq::<u8>::empty()))))))),
        Code::C2E { xstr: v_xstr } => join(Some(seq![0x2Eu8]), join(esc_text_bytes(v_xstr@), Some(Seq::<u8>::empty()))),
        Code::C2F { a0: v_a0 } => join(Some(seq![0x2Fu8]), join(Some(le16(v_a0)), Some(Seq::<u8>::empty()))),
        Code::C30 { a0: v_a0 } => join(Some(seq![0x30u8]), join(Some(seq![v_a0]), Some(Seq::<u8>::empty()))),
        Code::C31 { a0: v_a0 } => join(Some(seq![0x31u8]), join(Some(seq![v_a0]), Some(Seq::<u8>::empty()))),
        Code::C32 { a0: v_a0 } => join(Some(seq![0x32u8]), join(Some(seq![v_a0]), Some(Seq::<u8>::empty()))),
        Code::C33 { a0: v_a0 } => join(Some(seq![0x33u8]), join(Some(seq![v_a0]), Some(Seq::<u8>::empty()))),
        Code::C34 {  } => join(Some(seq![0x34u8]), Some(Seq::<u8>::empty())),
        Code::C35 { a0: v_a0, a1: v_a1, len: _, str: v_str } => join(Some(seq![0x35u8]), join(Some(le16(v_a0)), join(Some(le16(v_a1)), join(fixed_text_bytes(v_str@), Some(Seq::<u8>::empty()))))),
        Code::C36 { a0: v_a0, a1: v_a1, a2: v_a2, a3: v_a3, a4: v_a4 } => join(Some(seq![0x36u8]), join(Some(le16(v_a0)), join(Some(le16(v_a1)), join(Some(le16(v_a2)), join(Some(le16(v_a3)), join(Some(le16(v_a4)), Some(Seq::<u8>::empty()))))))),
        Code::C37 { a0: v_a0, a1: v_a1, a2: v_a2, a3: v_a3, a4: v_a4 } => join(Some(seq![0x37u8]), join(Some(le16(v_a0)), join(Some(le16(v_a1)), join(Some(le16(v_a2)), join(Some(le16(v_a3)), join(Some(le16(v_a4)), Some(Seq::<u8>::empty()))))))),
        Code::C38 { a0: v_a0, a1: v_a1, a2: v_a2 } => join(Some(seq![0x38u8]), join(Some(le16(v_a0)), join(Some(le16(v_a1)), join(Some(le16(v_a2)), Some(Seq::<u8>::empty()))))),
        Code::C39 { a0: v_a0, a1: v_a1, a2: v_a2 } => join(Some(seq![0x39u8]), join(Some(le16(v_a0)), join(Some(le16(v_a1)), join(Some(le16(v_a2)), Some(Seq::<u8>::empty()))))),
        Code::C3A { a0: v_a0, a1: v_a1 } => join(Some(seq![0x3Au8]), join(Some(le16(v_a0)), join(Some(le16(v_a1)), Some(Seq::<u8>::empty())))),
        Code::C3B { a0: v_a0, len: _, str: v_str } => join(Some(seq![0x3Bu8]), join(Some(le16(v_a0)), join(fixed_text_bytes(v_str@), Some(Seq::<u8>::empty())))),
        Code::C3C { jump: v_jump, a1: v_a1 } => join(Some(seq![0x3Cu8]), join(Some(le16(v_jump)), join(Some(le16(v_a1)), Some(Seq::<u8>::empty())))),
        Code::C3D { a0: v_a0 } => join(Some(seq![0x3Du8]), join(Some(seq![v_a0]), Some(Seq::<u8>::empty()))),
        Code::C3E { a0: v_a0 } => join(Some(seq![0x3Eu8]), join(Some(seq![v_a0]), Some(Seq::<u8>::empty()))),
        Code::C3F { a0: v_a0 } => join(Some(seq![0x3Fu8]), join(Some(seq![v_a0]), Some(Seq::<u8>::empty()))),
        Code::C40 { a0: v_a0 } => join(Some(seq![0x40u8]), join(Some(seq![v_a0]), Some(Seq::<u8>::empty()))),
        Code::C41 { a0: v_a0 } => join(Some(seq![0x41u8]), join(Some(seq![v_a0]), Some(Seq::<u8>::empty()))),
        Code::C42 { a0: v_a0 } => join(Some(seq![0x42u8]), join(Some(le16(v_a0)), Some(Seq::<u8>::empty()))),
        Code::C43 { a0: v_a0 } => join(Some(seq![0x43u8]), join(Some(le16(v_a0)), Some(Seq::<u8>::empty()))),
        Code::C44 { a0: v_a0, a1: v_a1 } => join(Some(seq![0x44u8]), join(Some(le16(v_a0)), join(Some(le16(v_a1)), Some(Seq::<u8>::empty())))),
        Code::C45 { a0: v_a0 } => join(Some(seq![0x45u8]), join(Some(seq![v_a0]), Some(Seq::<u8>::empty()))),
        Code::C46 {  } => join(Some(seq![0x46u8]), Some(Seq::<u8>::empty())),
        Code::C47 { a0: v_a0 } => join(Some(seq![0x47u8]), join(Some(seq![v_a0]), Some(Seq::<u8>::empty()))),
        Code::C48 { a0: v_a0 } => join(Some(seq![0x48u8]), join(Some(seq![v_a0]), Some(Seq::<u8>::empty()))),
        Code::C49 { a0: v_a0 } => join(Some(seq![0x49u8]), join(Some(le16(v_a0)), Some(Seq::<u8>::empty()))),
        Code::C4A { a0: v_a0, a1: v_a1 } => join(Some(seq![0x4Au8]), join(Some(le16(v_a0)), join(Some(seq![v_a1]), Some(Seq::<u8>::empty())))),
        Code::C4B { a0: v_a0, a1: v_a1 } => join(Some(seq![0x4Bu8]), join(Some(le16(v_a0)), join(Some(seq![v_a1]), Some(Seq::<u8>::empty())))),
        Code::C4C { a0: v_a0 } => join(Some(seq![0x4Cu8]), join(Some(seq![v_a0]), Some(Seq::<u8>::empty()))),
        Code::C4D { a0: v_a0 } => join(Some(seq![0x4Du8]), join(Some(seq![v_a0]), Some(Seq::<u8>::empty()))),
        Code::C4E {  } => join(Some(seq![0x4Eu8]), Some(Seq::<u8>::empty())),
        Code::C4F { a0: v_a0 } => join(Some(seq![0x4Fu8]), join(Some(le16(v_a0)), Some(Seq::<u8>::empty()))),
        Code::C50 { a0: v_a0, a1: v_a1 } => join(Some(seq![0x50u8]), join(Some(le16(v_a0)), join(Some(le32(v_a1)), Some(Seq::<u8>::empty())))),
        Code::C51 {  } => join(Some(seq![0x51u8]), Some(Seq::<u8>::empty())),
        Code::C52 { a0: v_a0, len: _, str: v_str } => join(Some(seq![0x52u8]), join(Some(le16(v_a0)), join(fixed_text_bytes(v_str@), Some(Seq::<u8>::empty())))),
        Code::C53 { a0: v_a0 } => join(Some(seq![0x53u8]), join(Some(le16(v_a0)), Some(Seq::<u8>::empty()))),
        Code::C54 { xstr: v_xstr } => join(Some(seq![0x54u8]), join(esc_text_bytes(v_xstr@), Some(Seq::<u8>::empty()))),
        Code::C55 {  } => join(Some(seq![0x55u8]), Some(Seq::<u8>::empty())),
        Code::C56 { a0: v_a0 } => join(Some(seq![0x56u8]), join(Some(seq![v_a0]), Some(Seq::<u8>::empty()))),
        Code::C57 { a0: v_a0 } => join(Some(seq![0x57u8]), join(Some(le16(v_a0)), Some(Seq::<u8>::empty()))),
        Code::C58 { a0: v_a0 } => join(Some(seq![0x58u8]), join(Some(le16(v_a0)), Some(Seq::<u8>::empty()))),
        Code::C59 { a0: v_a0 } => join(Some(seq![0x59u8]), join(Some(le16(v_a0)), Some(Seq::<u8>::empty()))),
        Code::C5A {  } => join(Some(seq![0x5Au8]), Some(Seq::<u8>::empty())),
        Code::C5B { a0: v_a0, a1: v_a1 } => join(Some(seq![0x5Bu8]), join(Some(le16(v_a0)), join(Some(seq![v_a1]), Some(Seq::<u8>::empty())))),
        Code::C5C { a0: v_a0, a1: v_a1 } => join(Some(seq![0x5Cu8]), join(Some(le16(v_a0)), join(Some(seq![v_a1]), Some(Seq::<u8>::empty())))),
        Code::C5D { a0: v_a0, a1: v_a1 } => join(Some(seq![0x5Du8]), join(Some(le16(v_a0)), join(Some(seq![v_a1]), Some(Seq::<u8>::empty())))),
        Code::C5E { a0: v_a0 } => join(Some(seq![0x5Eu8]), join(Some(seq![v_a0]), Some(Seq::<u8>::empty()))),
        Code::C5F { a0: v_a0 } => join(Some(seq![0x5Fu8]), join(Some(seq![v_a0]), Some(Seq::<u8>::empty()))),
        Code::C60 { a0: v_a0 } => join(Some(seq![0x60u8]), join(Some(le16(v_a0)), Some(Seq::<u8>::empty()))),
        Code::C61 { a0: v_a0 } => join(Some(seq![0x61u8]), join(Some(seq![v_a0]), Some(Seq::<u8>::empty()))),
        Code::C62 { a0: v_a0, a1: v_a1 } => join(Some(seq![0x62u8]), join(Some(le16(v_a0)), join(Some(seq![v_a1]), Some(Seq::<u8>::empty())))),
        Code::C63 { a0: v_a0, a1: v_a1 } => join(Some(seq![0x63u8]), join(Some(le16(v_a0)), join(Some(seq![v_a1]), Some(Seq::<u8>::empty())))),
        Code::C64 { a0: v_a0, a1: v_a1, a2: v_a2, a3: v_a3, a4: v_a4, a5: v_a5, a6: v_a6 } => join(Some(seq![0x64u8]), join(Some(le16(v_a0)), join(Some(le16(v_a1)), join(Some(le16(v_a2)), join(Some(le16(v_a3)), join(Some(le16(v_a4)), join(Some(le16(v_a5)), join(Some(seq![v_a6]), Some(Seq::<u8>::empty()))))))))),
        Code::C65 { a0: v_a0 } => join(Some(seq![0x65u8]), join(Some(le16(v_a0)), Some(Seq::<u8>::empty()))),
        Code::C66 { a0: v_a0, a1: v_a1, a2: v_a2 } => join(Some(seq![0x66u8]), join(Some(seq![v_a0]), join(Some(le32(v_a1)), join(Some(le32(v_a2)), Some(Seq::<u8>::empty()))))),
        Code::C67 {  } => join(Some(seq![0x67u8]), Some(Seq::<u8>::empty())),
        Code::End {  } => join(Some(seq![0xFFu8]), Some(Seq::<u8>::empty())),
    }
}

/// The choice lists have the lengths that the format fixes: four choices for
/// the opcodes 24 to 26, two for 27 to 29.
pub open spec fn choice_counts(c: Code) -> bool {
    match c {
        Code::C24 { choices: v, .. } => v@.len() == 4,
        Code::C25 { choices: v, .. } => v@.len() == 4,
        Code::C26 { choices: v, .. } => v@.len() == 4,
        Code::C27 { choices: v, .. } => v@.len() == 2,
        Code::C28 { choices: v, .. } => v@.len() == 2,
        Code::C29 { choices: v, .. } => v@.len() == 2,
        _ => true,
    }
}

proof fn lemma_choice_list_bytes(cs: Seq<Choice>)
    ensures
        encode_choices(choices_view(cs)) == choice_list_bytes(cs),
    decreases cs.len(),
{
    reveal(choice_list_bytes);
    reveal(fixed_text_bytes);
    if cs.len() > 0 {
        lemma_choice_list_bytes(cs.drop_first());
        let v = choices_view(cs);
        assert(v.drop_first() =~= choices_view(cs.drop_first()));
        assert(v[0] == cs[0]@);
        if let Some(t) = encode_fixed(cs[0].choice@) {
            if let Some(r) = choice_list_bytes(cs.drop_first()) {
                assert(t + le16(cs[0].end_0) + le16(cs[0].end_1) + r =~= t + (le16(cs[0].end_0) + le16(
                    cs[0].end_1,
                )) + r);
            }
        }
    } else {
        assert(choices_view(cs) =~= Seq::<ChoiceV>::empty());
    }
}

#[verifier::spinoff_prover]
#[verifier::rlimit(100)]
proof fn lemma_bytes_c00()
    ensures
        ({
            let c = Code::C00 {  };
            encode_code((code_op(c), code_args(c))) == instruction_bytes(c)
        }),
{
    let c = Code::C00 {  };
    assert(code_op(c) == 0x00u8);
    assert(code_args(c) == Seq::<Arg>::empty());
    assert(encode_args(Seq::<Arg>::empty()) == Some(Seq::<u8>::empty()));
    assert(encode_code((0x00u8, Seq::<Arg>::empty())) == join(Some(seq![0x00u8]), encode_args(Seq::<Arg>::empty())));
}

#[verifier::spinoff_prover]
#[verifier::rlimit(100)]
proof fn lemma_bytes_c01(v_a0: u8)
    ensures
        ({
            let c = Code::C01 { a0: v_a0 };
            encode_code((code_op(c), code_args(c))) == instruction_bytes(c)
        }),
{
    let c = Code::C01 { a0: v_a0 };
    assert(code_op(c) == 0x01u8);
    assert(code_args(c) == seq![Arg::Byte(v_a0)]);
    assert(encode_args(Seq::<Arg>::empty()) == Some(Seq::<u8>::empty()));
    assert(encode_args(seq![Arg::Byte(v_a0)]) == join(encode_arg(Arg::Byte(v_a0)), encode_args(Seq::<Arg>::empty()))) by {
        assert(seq![Arg::Byte(v_a0)].drop_first() =~= Seq::<Arg>::empty());
    }
    assert(encode_code((0x01u8, seq![Arg::Byte(v_a0)])) == join(Some(seq![0x01u8]), encode_args(seq![Arg::Byte(v_a0)])));
}

#[verifier::spinoff_prover]
#[verifier::rlimit(100)]
proof fn lemma_bytes_c02(v_a0: u8)
    ensures
        ({
            let c = Code::C02 { a0: v_a0 };
            encode_code((code_op(c), code_args(c))) == instruction_bytes(c)
        }),
{
    let c = Code::C02 { a0: v_a0 };
    assert(code_op(c) == 0x02u8);
    assert(code_args(c) == seq![Arg::Byte(v_a0)]);
    assert(encode_args(Seq::<Arg>::empty()) == Some(Seq::<u8>::empty()));
    assert(encode_args(seq![Arg::Byte(v_a0)]) == join(encode_arg(Arg::Byte(v_a0)), encode_args(Seq::<Arg>::empty()))) by {
        assert(seq![Arg::Byte(v_a0)].drop_first() =~= Seq::<Arg>::empty());
    }
    assert(encode_code((0x02u8, seq![Arg::Byte(v_a0)])) == join(Some(seq![0x02u8]), encode_args(seq![Arg::Byte(v_a0)])));
}

#[verifier::spinoff_prover]
#[verifier::rlimit(100)]
proof fn lemma_bytes_c03(v_a0: u8)
    ensures
        ({
            let c = Code::C03 { a0: v_a0 };
            encode_code((code_op(c), code_args(c))) == instruction_bytes(c)
        }),
{
    let c = Code::C03 { a0: v_a0 };
    assert(code_op(c) == 0x03u8);
    assert(code_args(c) == seq![Arg::Byte(v_a0)]);
    assert(encode_args(Seq::<Arg>::empty()) == Some(Seq::<u8>::empty()));
    assert(encode_args(seq![Arg::Byte(v_a0)]) == join(encode_arg(Arg::Byte(v_a0)), encode_args(Seq::<Arg>::empty()))) by {
        assert(seq![Arg::Byte(v_a0)].drop_first() =~= Seq::<Arg>::empty());
    }
    assert(encode_code((0x03u8, seq![Arg::Byte(v_a0)])) == join(Some(seq![0x03u8]), encode_args(seq![Arg::Byte(v_a0)])));
}

#[verifier::spinoff_prover]
#[verifier::rlimit(100)]
proof fn lemma_bytes_c04()
    ensures
        ({
            let c = Code::C04 {  };
            encode_code((code_op(c), code_args(c))) == instruction_bytes(c)
        }),
{
    let c = Code::C04 {  };
    assert(code_op(c) == 0x04u8);
    assert(code_args(c) == Seq::<Arg>::empty());
    assert(encode_args(Seq::<Arg>::empty()) == Some(Seq::<u8>::empty()));
    assert(encode_code((0x04u8, Seq::<Arg>::empty())) == join(Some(seq![0x04u8]), encode_args(Seq::<Arg>::empty())));
}

#[verifier::spinoff_prover]
#[verifier::rlimit(100)]
proof fn lemma_bytes_c05()
    ensures
        ({
            let c = Code::C05 {  };
            encode_code((code_op(c), code_args(c))) == instruction_bytes(c)
        }),
{
    let c = Code::C05 {  };
    assert(code_op(c) == 0x05u8);
    assert(code_args(c) == Seq::<Arg>::empty());
    assert(encode_args(Seq::<Arg>::empty()) == Some(Seq::<u8>::empty()));
    assert(encode_code((0x05u8, Seq::<Arg>::empty())) == join(Some(seq![0x05u8]), encode_args(Seq::<Arg>::empty())));
}

#[verifier::spinoff_prover]
#[verifier::rlimit(100)]
proof fn lemma_bytes_c06()
    ensures
        ({
            let c = Code::C06 {  };
            encode_code((code_op(c), code_args(c))) == instruction_bytes(c)
        }),
{
    let c = Code::C06 {  };
    assert(code_op(c) == 0x06u8);
    assert(code_args(c) == Seq::<Arg>::empty());
    assert(encode_args(Seq::<Arg>::empty()) == Some(Seq::<u8>::empty()));
    assert(encode_code((0x06u8, Seq::<Arg>::empty())) == join(Some(seq![0x06u8]), encode_args(Seq::<Arg>::empty())));
}

#[verifier::spinoff_prover]
#[verifier::rlimit(100)]
proof fn lemma_bytes_c07(v_a0: u8)
    ensures
        ({
            let c = Code::C07 { a0: v_a0 };
            encode_code((code_op(c), code_args(c))) == instruction_bytes(c)
        }),
{
    let c = Code::C07 { a0: v_a0 };
    assert(code_op(c) == 0x07u8);
    assert(code_args(c) == seq![Arg::Byte(v_a0)]);
    assert(encode_args(Seq::<Arg>::empty()) == Some(Seq::<u8>::empty()));
    assert(encode_args(seq![Arg::Byte(v_a0)]) == join(encode_arg(Arg::Byte(v_a0)), encode_args(Seq::<Arg>::empty()))) by {
        assert(seq![Arg::Byte(v_a0)].drop_first() =~= Seq::<Arg>::empty());
    }
    assert(encode_code((0x07u8, seq![Arg::Byte(v_a0)])) == join(Some(seq![0x07u8]), encode_args(seq![Arg::Byte(v_a0)])));
}

#[verifier::spinoff_prover]
#[verifier::rlimit(100)]
proof fn lemma_bytes_c08(v_xstr: String)
    ensures
        ({
            let c = Code::C08 { xstr: v_xstr };
            encode_code((code_op(c), code_args(c))) == instruction_bytes(c)
        }),
{
    let c = Code::C08 { xstr: v_xstr };
    assert(code_op(c) == 0x08u8);
    assert(code_args(c) == seq![Arg::Text(v_xstr@)]);
    assert(encode_args(Seq::<Arg>::empty()) == Some(Seq::<u8>::empty()));
    assert(encode_args(seq![Arg::Text(v_xstr@)]) == join(encode_arg(Arg::Text(v_xstr@)), encode_args(Seq::<Arg>::empty()))) by {
        assert(seq![Arg::Text(v_xstr@)].drop_first() =~= Seq::<Arg>::empty());
    }
    assert(encode_code((0x08u8, seq![Arg::Text(v_xstr@)])) == join(Some(seq![0x08u8]), encode_args(seq![Arg::Text(v_xstr@)])));
}

#[verifier::spinoff_prover]
#[verifier::rlimit(100)]
proof fn lemma_bytes_c09(v_xstr: String)
    ensures
        ({
            let c = Code::C09 { xstr: v_xstr };
            encode_code((code_op(c), code_args(c))) == instruction_bytes(c)
        }),
{
    let c = Code::C09 { xstr: v_xstr };
    assert(code_op(c) == 0x09u8);
    assert(code_args(c) == seq![Arg::Text(v_xstr@)]);
    assert(encode_args(Seq::<Arg>::empty()) == Some(Seq::<u8>::empty()));
    assert(encode_args(seq![Arg::Text(v_xstr@)]) == join(encode_arg(Arg::Text(v_xstr@)), encode_args(Seq::<Arg>::empty()))) by {
        assert(seq![Arg::Text(v_xstr@)].drop_first() =~= Seq::<Arg>::empty());
    }
    assert(encode_code((0x09u8, seq![Arg::Text(v_xstr@)])) == join(Some(seq![0x09u8]), encode_args(seq![Arg::Text(v_xstr@)])));
}

#[verifier::spinoff_prover]
#[verifier::rlimit(100)]
proof fn lemma_bytes_c0a(v_a0: u16, v_a1: u16, v_len: u16, v_str: String)
    ensures
        ({
            let c = Code::C0A { a0: v_a0, a1: v_a1, len: v_len, str: v_str };
            encode_code((code_op(c), code_args(c))) == instruction_bytes(c)
        }),
{
    let c = Code::C0A { a0: v_a0, a1: v_a1, len: v_len, str: v_str };
    assert(code_op(c) == 0x0Au8);
    assert(code_args(c) == seq![Arg::Word(v_a0), Arg::Word(v_a1), Arg::Fixed(v_len, v_str@)]);
    assert(encode_args(Seq::<Arg>::empty()) == Some(Seq::<u8>::empty()));
    assert(encode_args(seq![Arg::Fixed(v_len, v_str@)]) == join(encode_arg(Arg::Fixed(v_len, v_str@)), encode_args(Seq::<Arg>::empty()))) by {
        assert(seq![Arg::Fixed(v_len, v_str@)].drop_first() =~= Seq::<Arg>::empty());
    }
    assert(encode_args(seq![Arg::Word(v_a1), Arg::Fixed(v_len, v_str@)]) == join(encode_arg(Arg::Word(v_a1)), encode_args(seq![Arg::Fixed(v_len, v_str@)]))) by {
        assert(seq![Arg::Word(v_a1), Arg::Fixed(v_len, v_str@)].drop_first() =~= seq![Arg::Fixed(v_len, v_str@)]);
    }
    assert(encode_args(seq![Arg::Word(v_a0), Arg::Word(v_a1), Arg::Fixed(v_len, v_str@)]) == join(encode_arg(Arg::Word(v_a0)), encode_args(seq![Arg::Word(v_a1), Arg::Fixed(v_len, v_str@)]))) by {
        assert(seq![Arg::Word(v_a0), Arg::Word(v_a1), Arg::Fixed(v_len, v_str@)].drop_first() =~= seq![Arg::Word(v_a1), Arg::Fixed(v_len, v_str@)]);
    }
    assert(encode_arg(Arg::Fixed(v_len, v_str@)) == fixed_text_bytes(v_str@)) by {
        reveal(fixed_text_bytes);
    }
    assert(encode_code((0x0Au8, seq![Arg::Word(v_a0), Arg::Word(v_a1), Arg::Fixed(v_len, v_str@)])) == join(Some(seq![0x0Au8]), encode_args(seq![Arg::Word(v_a0), Arg::Word(v_a1), Arg::Fixed(v_len, v_str@)])));
}

#[verifier::spinoff_prover]
#[verifier::rlimit(100)]
proof fn lemma_bytes_c0b()
    ensures
        ({
            let c = Code::C0B {  };
            encode_code((code_op(c), code_args(c))) == instruction_bytes(c)
        }),
{
    let c = Code::C0B {  };
    assert(code_op(c) == 0x0Bu8);
    assert(code_args(c) == Seq::<Arg>::empty());
    assert(encode_args(Seq::<Arg>::empty()) == Some(Seq::<u8>::empty()));
    assert(encode_code((0x0Bu8, Seq::<Arg>::empty())) == join(Some(seq![0x0Bu8]), encode_args(Seq::<Arg>::empty())));
}

#[verifier::spinoff_prover]
#[verifier::rlimit(100)]
proof fn lemma_bytes_c0c()
    ensures
        ({
            let c = Code::C0C {  };
            encode_code((code_op(c), code_args(c))) == instruction_bytes(c)
        }),
{
    let c = Code::C0C {  };
    assert(code_op(c) == 0x0Cu8);
    assert(code_args(c) == Seq::<Arg>::empty());
    assert(encode_args(Seq::<Arg>::empty()) == Some(Seq::<u8>::empty()));
    assert(encode_code((0x0Cu8, Seq::<Arg>::empty())) == join(Some(seq![0x0Cu8]), encode_args(Seq::<Arg>::empty())));
}

#[verifier::spinoff_prover]
#[verifier::rlimit(100)]
proof fn lemma_bytes_c0d()
    ensures
        ({
            let c = Code::C0D {  };
            encode_code((code_op(c), code_args(c))) == instruction_bytes(c)
        }),
{
    let c = Code::C0D {  };
    assert(code_op(c) == 0x0Du8);
    assert(code_args(c) == Seq::<Arg>::empty());
    assert(encode_args(Seq::<Arg>::empty()) == Some(Seq::<u8>::empty()));
    assert(encode_code((0x0Du8, Seq::<Arg>::empty())) == join(Some(seq![0x0Du8]), encode_args(Seq::<Arg>::empty())));
}

#[verifier::spinoff_prover]
#[verifier::rlimit(100)]
proof fn lemma_bytes_c0e(v_a0: u8)
    ensures
        ({
            let c = Code::C0E { a0: v_a0 };
            encode_code((code_op(c), code_args(c))) == instruction_bytes(c)
        }),
{
    let c = Code::C0E { a0: v_a0 };
    assert(code_op(c) == 0x0Eu8);
    assert(code_args(c) == seq![Arg::Byte(v_a0)]);
    assert(encode_args(Seq::<Arg>::empty()) == Some(Seq::<u8>::empty()));
    assert(encode_args(seq![Arg::Byte(v_a0)]) == join(encode_arg(Arg::Byte(v_a0)), encode_args(Seq::<Arg>::empty()))) by {
        assert(seq![Arg::Byte(v_a0)].drop_first() =~= Seq::<Arg>::empty());
    }
    assert(encode_code((0x0Eu8, seq![Arg::Byte(v_a0)])) == join(Some(seq![0x0Eu8]), encode_args(seq![Arg::Byte(v_a0)])));
}

#[verifier::spinoff_prover]
#[verifier::rlimit(100)]
proof fn lemma_bytes_c0f()
    ensures
        ({
            let c = Code::C0F {  };
            encode_code((code_op(c), code_args(c))) == instruction_bytes(c)
        }),
{
    let c = Code::C0F {  };
    assert(code_op(c) == 0x0Fu8);
    assert(code_args(c) == Seq::<Arg>::empty());
    assert(encode_args(Seq::<Arg>::empty()) == Some(Seq::<u8>::empty()));
    assert(encode_code((0x0Fu8, Seq::<Arg>::empty())) == join(Some(seq![0x0Fu8]), encode_args(Seq::<Arg>::empty())));
}

#[verifier::spinoff_prover]
#[verifier::rlimit(100)]
proof fn lemma_bytes_c10()
    ensures
        ({
            let c = Code::C10 {  };
            encode_code((code_op(c), code_args(c))) == instruction_bytes(c)
        }),
{
    let c = Code::C10 {  };
    assert(code_op(c) == 0x10u8);
    assert(code_args(c) == Seq::<Arg>::empty());
    assert(encode_args(Seq::<Arg>::empty()) == Some(Seq::<u8>::empty()));
    assert(encode_code((0x10u8, Seq::<Arg>::empty())) == join(Some(seq![0x10u8]), encode_args(Seq::<Arg>::empty())));
}

#[verifier::spinoff_prover]
#[verifier::rlimit(100)]
proof fn lemma_bytes_c11()
    ensures
        ({
            let c = Code::C11 {  };
            encode_code((code_op(c), code_args(c))) == instruction_bytes(c)
        }),
{
    let c = Code::C11 {  };
    assert(code_op(c) == 0x11u8);
    assert(code_args(c) == Seq::<Arg>::empty());
    assert(encode_args(Seq::<Arg>::empty()) == Some(Seq::<u8>::empty()));
    assert(encode_code((0x11u8, Seq::<Arg>::empty())) == join(Some(seq![0x11u8]), encode_args(Seq::<Arg>::empty())));
}

#[verifier::spinoff_prover]
#[verifier::rlimit(100)]
proof fn lemma_bytes_c12()
    ensures
        ({
            let c = Code::C12 {  };
            encode_code((code_op(c), code_args(c))) == instruction_bytes(c)
        }),
{
    let c = Code::C12 {  };
    assert(code_op(c) == 0x12u8);
    assert(code_args(c) == Seq::<Arg>::empty());
    assert(encode_args(Seq::<Arg>::empty()) == Some(Seq::<u8>::empty()));
    assert(encode_code((0x12u8, Seq::<Arg>::empty())) == join(Some(seq![0x12u8]), encode_args(Seq::<Arg>::empty())));
}

#[verifier::spinoff_prover]
#[verifier::rlimit(100)]
proof fn lemma_bytes_c13(v_a0: u16, v_a1: u8)
    ensures
        ({
            let c = Code::C13 { a0: v_a0, a1: v_a1 };
            encode_code((code_op(c), code_args(c))) == instruction_bytes(c)
        }),
{
    let c = Code::C13 { a0: v_a0, a1: v_a1 };
    assert(code_op(c) == 0x13u8);
    assert(code_args(c) == seq![Arg::Word(v_a0), Arg::Byte(v_a1)]);
    assert(encode_args(Seq::<Arg>::empty()) == Some(Seq::<u8>::empty()));
    assert(encode_args(seq![Arg::Byte(v_a1)]) == join(encode_arg(Arg::Byte(v_a1)), encode_args(Seq::<Arg>::empty()))) by {
        assert(seq![Arg::Byte(v_a1)].drop_first() =~= Seq::<Arg>::empty());
    }
    assert(encode_args(seq![Arg::Word(v_a0), Arg::Byte(v_a1)]) == join(encode_arg(Arg::Word(v_a0)), encode_args(seq![Arg::Byte(v_a1)]))) by {
        assert(seq![Arg::Word(v_a0), Arg::Byte(v_a1)].drop_first() =~= seq![Arg::Byte(v_a1)]);
    }
    assert(encode_code((0x13u8, seq![Arg::Word(v_a0), Arg::Byte(v_a1)])) == join(Some(seq![0x13u8]), encode_args(seq![Arg::Word(v_a0), Arg::Byte(v_a1)])));
}

#[verifier::spinoff_prover]
#[verifier::rlimit(100)]
proof fn lemma_bytes_c14(v_a0: u8)
    ensures
        ({
            let c = Code::C14 { a0: v_a0 };
            encode_code((code_op(c), code_args(c))) == instruction_bytes(c)
        }),
{
    let c = Code::C14 { a0: v_a0 };
    assert(code_op(c) == 0x14u8);
    assert(code_args(c) == seq![Arg::Byte(v_a0)]);
    assert(encode_args(Seq::<Arg>::empty()) == Some(Seq::<u8>::empty()));
    assert(encode_args(seq![Arg::Byte(v_a0)]) == join(encode_arg(Arg::Byte(v_a0)), encode_args(Seq::<Arg>::empty()))) by {
        assert(seq![Arg::Byte(v_a0)].drop_first() =~= Seq::<Arg>::empty());
    }
    assert(encode_code((0x14u8, seq![Arg::Byte(v_a0)])) == join(Some(seq![0x14u8]), encode_args(seq![Arg::Byte(v_a0)])));
}

#[verifier::spinoff_prover]
#[verifier::rlimit(100)]
proof fn lemma_bytes_c15(v_a0: u16)
    ensures
        ({
            let c = Code::C15 { a0: v_a0 };
            encode_code((code_op(c), code_args(c))) == instruction_bytes(c)
        }),
{
    let c = Code::C15 { a0: v_a0 };
    assert(code_op(c) == 0x15u8);
    assert(code_args(c) == seq![Arg::Word(v_a0)]);
    assert(encode_args(Seq::<Arg>::empty()) == Some(Seq::<u8>::empty()));
    assert(encode_args(seq![Arg::Word(v_a0)]) == join(encode_arg(Arg::Word(v_a0)), encode_args(Seq::<Arg>::empty()))) by {
        assert(seq![Arg::Word(v_a0)].drop_first() =~= Seq::<Arg>::empty());
    }
    assert(encode_code((0x15u8, seq![Arg::Word(v_a0)])) == join(Some(seq![0x15u8]), encode_args(seq![Arg::Word(v_a0)])));
}

#[verifier::spinoff_prover]
#[verifier::rlimit(100)]
proof fn lemma_bytes_c16(v_a0: u8, v_a1: u8, v_a2: u8)
    ensures
        ({
            let c = Code::C16 { a0: v_a0, a1: v_a1, a2: v_a2 };
            encode_code((code_op(c), code_args(c))) == instruction_bytes(c)
        }),
{
    let c = Code::C16 { a0: v_a0, a1: v_a1, a2: v_a2 };
    assert(code_op(c) == 0x16u8);
    assert(code_args(c) == seq![Arg::Byte(v_a0), Arg::Byte(v_a1), Arg::Byte(v_a2)]);
    assert(encode_args(Seq::<Arg>::empty()) == Some(Seq::<u8>::empty()));
    assert(encode_args(seq![Arg::Byte(v_a2)]) == join(encode_arg(Arg::Byte(v_a2)), encode_args(Seq::<Arg>::empty()))) by {
        assert(seq![Arg::Byte(v_a2)].drop_first() =~= Seq::<Arg>::empty());
    }
    assert(encode_args(seq![Arg::Byte(v_a1), Arg::Byte(v_a2)]) == join(encode_arg(Arg::Byte(v_a1)), encode_args(seq![Arg::Byte(v_a2)]))) by {
        assert(seq![Arg::Byte(v_a1), Arg::Byte(v_a2)].drop_first() =~= seq![Arg::Byte(v_a2)]);
    }
    assert(encode_args(seq![Arg::Byte(v_a0), Arg::Byte(v_a1), Arg::Byte(v_a2)]) == join(encode_arg(Arg::Byte(v_a0)), encode_args(seq![Arg::Byte(v_a1), Arg::Byte(v_a2)]))) by {
        assert(seq![Arg::Byte(v_a0), Arg::Byte(v_a1), Arg::Byte(v_a2)].drop_first() =~= seq![Arg::Byte(v_a1), Arg::Byte(v_a2)]);
    }
    assert(encode_code((0x16u8, seq![Arg::Byte(v_a0), Arg::Byte(v_a1), Arg::Byte(v_a2)])) == join(Some(seq![0x16u8]), encode_args(seq![Arg::Byte(v_a0), Arg::Byte(v_a1), Arg::Byte(v_a2)])));
}

#[verifier::spinoff_prover]
#[verifier::rlimit(100)]
proof fn lemma_bytes_c17(v_str: String, v_a0: u16)
    ensures
        ({
            let c = Code::C17 { str: v_str, a0: v_a0 };
            encode_code((code_op(c), code_args(c))) == instruction_bytes(c)
        }),
{
    let c = Code::C17 { str: v_str, a0: v_a0 };
    assert(code_op(c) == 0x17u8);
    assert(code_args(c) == seq![Arg::EscText(v_str@), Arg::Word(v_a0)]);
    assert(encode_args(Seq::<Arg>::empty()) == Some(Seq::<u8>::empty()));
    assert(encode_args(seq![Arg::Word(v_a0)]) == join(encode_arg(Arg::Word(v_a0)), encode_args(Seq::<Arg>::empty()))) by {
        assert(seq![Arg::Word(v_a0)].drop_first() =~= Seq::<Arg>::empty());
    }
    assert(encode_args(seq![Arg::EscText(v_str@), Arg::Word(v_a0)]) == join(encode_arg(Arg::EscText(v_str@)), encode_args(seq![Arg::Word(v_a0)]))) by {
        assert(seq![Arg::EscText(v_str@), Arg::Word(v_a0)].drop_first() =~= seq![Arg::Word(v_a0)]);
    }
    assert(encode_arg(Arg::EscText(v_str@)) == esc_text_bytes(v_str@)) by {
        reveal(esc_text_bytes);
    }
    assert(encode_code((0x17u8, seq![Arg::EscText(v_str@), Arg::Word(v_a0)])) == join(Some(seq![0x17u8]), encode_args(seq![Arg::EscText(v_str@), Arg::Word(v_a0)])));
}

#[verifier::spinoff_prover]
#[verifier::rlimit(100)]
proof fn lemma_bytes_c18(v_a0: u8, v_a1: u8, v_a2: u8)
    ensures
        ({
            let c = Code::C18 { a0: v_a0, a1: v_a1, a2: v_a2 };
            encode_code((code_op(c), code_args(c))) == instruction_bytes(c)
        }),
{
    let c = Code::C18 { a0: v_a0, a1: v_a1, a2: v_a2 };
    assert(code_op(c) == 0x18u8);
    assert(code_args(c) == seq![Arg::Byte(v_a0), Arg::Byte(v_a1), Arg::Byte(v_a2)]);
    assert(encode_args(Seq::<Arg>::empty()) == Some(Seq::<u8>::empty()));
    assert(encode_args(seq![Arg::Byte(v_a2)]) == join(encode_arg(Arg::Byte(v_a2)), encode_args(Seq::<Arg>::empty()))) by {
        assert(seq![Arg::Byte(v_a2)].drop_first() =~= Seq::<Arg>::empty());
    }
    assert(encode_args(seq![Arg::Byte(v_a1), Arg::Byte(v_a2)]) == join(encode_arg(Arg::Byte(v_a1)), encode_args(seq![Arg::Byte(v_a2)]))) by {
        assert(seq![Arg::Byte(v_a1), Arg::Byte(v_a2)].drop_first() =~= seq![Arg::Byte(v_a2)]);
    }
    assert(encode_args(seq![Arg::Byte(v_a0), Arg::Byte(v_a1), Arg::Byte(v_a2)]) == join(encode_arg(Arg::Byte(v_a0)), encode_args(seq![Arg::Byte(v_a1), Arg::Byte(v_a2)]))) by {
        assert(seq![Arg::Byte(v_a0), Arg::Byte(v_a1), Arg::Byte(v_a2)].drop_first() =~= seq![Arg::Byte(v_a1), Arg::Byte(v_a2)]);
    }
    assert(encode_code((0x18u8, seq![Arg::Byte(v_a0), Arg::Byte(v_a1), Arg::Byte(v_a2)])) == join(Some(seq![0x18u8]), encode_args(seq![Arg::Byte(v_a0), Arg::Byte(v_a1), Arg::Byte(v_a2)])));
}

#[verifier::spinoff_prover]
#[verifier::rlimit(100)]
proof fn lemma_bytes_c19(v_a0: u16, v_a1: u16, v_a2: u16, v_a3: u16)
    ensures
        ({
            let c = Code::C19 { a0: v_a0, a1: v_a1, a2: v_a2, a3: v_a3 };
            encode_code((code_op(c), code_args(c))) == instruction_bytes(c)
        }),
{
    let c = Code::C19 { a0: v_a0, a1: v_a1, a2: v_a2, a3: v_a3 };
    assert(code_op(c) == 0x19u8);
    assert(code_args(c) == seq![Arg::Word(v_a0), Arg::Word(v_a1), Arg::Word(v_a2), Arg::Word(v_a3)]);
    assert(encode_args(Seq::<Arg>::empty()) == Some(Seq::<u8>::empty()));
    assert(encode_args(seq![Arg::Word(v_a3)]) == join(encode_arg(Arg::Word(v_a3)), encode_args(Seq::<Arg>::empty()))) by {
        assert(seq![Arg::Word(v_a3)].drop_first() =~= Seq::<Arg>::empty());
    }
    assert(encode_args(seq![Arg::Word(v_a2), Arg::Word(v_a3)]) == join(encode_arg(Arg::Word(v_a2)), encode_args(seq![Arg::Word(v_a3)]))) by {
        assert(seq![Arg::Word(v_a2), Arg::Word(v_a3)].drop_first() =~= seq![Arg::Word(v_a3)]);
    }
    assert(encode_args(seq![Arg::Word(v_a1), Arg::Word(v_a2), Arg::Word(v_a3)]) == join(encode_arg(Arg::Word(v_a1)), encode_args(seq![Arg::Word(v_a2), Arg::Word(v_a3)]))) by {
        assert(seq![Arg::Word(v_a1), Arg::Word(v_a2), Arg::Word(v_a3)].drop_first() =~= seq![Arg::Word(v_a2), Arg::Word(v_a3)]);
    }
    assert(encode_args(seq![Arg::Word(v_a0), Arg::Word(v_a1), Arg::Word(v_a2), Arg::Word(v_a3)]) == join(encode_arg(Arg::Word(v_a0)), encode_args(seq![Arg::Word(v_a1), Arg::Word(v_a2), Arg::Word(v_a3)]))) by {
        assert(seq![Arg::Word(v_a0), Arg::Word(v_a1), Arg::Word(v_a2), Arg::Word(v_a3)].drop_first() =~= seq![Arg::Word(v_a1), Arg::Word(v_a2), Arg::Word(v_a3)]);
    }
    assert(encode_code((0x19u8, seq![Arg::Word(v_a0), Arg::Word(v_a1), Arg::Word(v_a2), Arg::Word(v_a3)])) == join(Some(seq![0x19u8]), encode_args(seq![Arg::Word(v_a0), Arg::Word(v_a1), Arg::Word(v_a2), Arg::Word(v_a3)])));
}

#[verifier::spinoff_prover]
#[verifier::rlimit(100)]
proof fn lemma_bytes_c1a(v_a0: u16, v_a1: u8)
    ensures
        ({
            let c = Code::C1A { a0: v_a0, a1: v_a1 };
            encode_code((code_op(c), code_args(c))) == instruction_bytes(c)
        }),
{
    let c = Code::C1A { a0: v_a0, a1: v_a1 };
    assert(code_op(c) == 0x1Au8);
    assert(code_args(c) == seq![Arg::Word(v_a0), Arg::Byte(v_a1)]);
    assert(encode_args(Seq::<Arg>::empty()) == Some(Seq::<u8>::empty()));
    assert(encode_args(seq![Arg::Byte(v_a1)]) == join(encode_arg(Arg::Byte(v_a1)), encode_args(Seq::<Arg>::empty()))) by {
        assert(seq![Arg::Byte(v_a1)].drop_first() =~= Seq::<Arg>::empty());
    }
    assert(encode_args(seq![Arg::Word(v_a0), Arg::Byte(v_a1)]) == join(encode_arg(Arg::Word(v_a0)), encode_args(seq![Arg::Byte(v_a1)]))) by {
        assert(seq![Arg::Word(v_a0), Arg::Byte(v_a1)].drop_first() =~= seq![Arg::Byte(v_a1)]);
    }
    assert(encode_code((0x1Au8, seq![Arg::Word(v_a0), Arg::Byte(v_a1)])) == join(Some(seq![0x1Au8]), encode_args(seq![Arg::Word(v_a0), Arg::Byte(v_a1)])));
}

#[verifier::spinoff_prover]
#[verifier::rlimit(100)]
proof fn lemma_bytes_c1b(v_a0: u16, v_a1: u32)
    ensures
        ({
            let c = Code::C1B { a0: v_a0, a1: v_a1 };
            encode_code((code_op(c), code_args(c))) == instruction_bytes(c)
        }),
{
    let c = Code::C1B { a0: v_a0, a1: v_a1 };
    assert(code_op(c) == 0x1Bu8);
    assert(code_args(c) == seq![Arg::Word(v_a0), Arg::Dword(v_a1)]);
    assert(encode_args(Seq::<Arg>::empty()) == Some(Seq::<u8>::empty()));
    assert(encode_args(seq![Arg::Dword(v_a1)]) == join(encode_arg(Arg::Dword(v_a1)), encode_args(Seq::<Arg>::empty()))) by {
        assert(seq![Arg::Dword(v_a1)].drop_first() =~= Seq::<Arg>::empty());
    }
    assert(encode_args(seq![Arg::Word(v_a0), Arg::Dword(v_a1)]) == join(encode_arg(Arg::Word(v_a0)), encode_args(seq![Arg::Dword(v_a1)]))) by {
        assert(seq![Arg::Word(v_a0), Arg::Dword(v_a1)].drop_first() =~= seq![Arg::Dword(v_a1)]);
    }
    assert(encode_code((0x1Bu8, seq![Arg::Word(v_a0), Arg::Dword(v_a1)])) == join(Some(seq![0x1Bu8]), encode_args(seq![Arg::Word(v_a0), Arg::Dword(v_a1)])));
}

#[verifier::spinoff_prover]
#[verifier::rlimit(100)]
proof fn lemma_bytes_c1c(v_a0: u16, v_a1: u16)
    ensures
        ({
            let c = Code::C1C { a0: v_a0, a1: v_a1 };
            encode_code((code_op(c), code_args(c))) == instruction_bytes(c)
        }),
{
    let c = Code::C1C { a0: v_a0, a1: v_a1 };
    assert(code_op(c) == 0x1Cu8);
    assert(code_args(c) == seq![Arg::Word(v_a0), Arg::Word(v_a1)]);
    assert(encode_args(Seq::<Arg>::empty()) == Some(Seq::<u8>::empty()));
    assert(encode_args(seq![Arg::Word(v_a1)]) == join(encode_arg(Arg::Word(v_a1)), encode_args(Seq::<Arg>::empty()))) by {
        assert(seq![Arg::Word(v_a1)].drop_first() =~= Seq::<Arg>::empty());
    }
    assert(encode_args(seq![Arg::Word(v_a0), Arg::Word(v_a1)]) == join(encode_arg(Arg::Word(v_a0)), encode_args(seq![Arg::Word(v_a1)]))) by {
        assert(seq![Arg::Word(v_a0), Arg::Word(v_a1)].drop_first() =~= seq![Arg::Word(v_a1)]);
    }
    assert(encode_code((0x1Cu8, seq![Arg::Word(v_a0), Arg::Word(v_a1)])) == join(Some(seq![0x1Cu8]), encode_args(seq![Arg::Word(v_a0), Arg::Word(v_a1)])));
}

#[verifier::spinoff_prover]
#[verifier::rlimit(100)]
proof fn lemma_bytes_c1d(v_a0: u16, v_a1: u8)
    ensures
        ({
            let c = Code::C1D { a0: v_a0, a1: v_a1 };
            encode_code((code_op(c), code_args(c))) == instruction_bytes(c)
        }),
{
    let c = Code::C1D { a0: v_a0, a1: v_a1 };
    assert(code_op(c) == 0x1Du8);
    assert(code_args(c) == seq![Arg::Word(v_a0), Arg::Byte(v_a1)]);
    assert(encode_args(Seq::<Arg>::empty()) == Some(Seq::<u8>::empty()));
    assert(encode_args(seq![Arg::Byte(v_a1)]) == join(encode_arg(Arg::Byte(v_a1)), encode_args(Seq::<Arg>::empty()))) by {
        assert(seq![Arg::Byte(v_a1)].drop_first() =~= Seq::<Arg>::empty());
    }
    assert(encode_args(seq![Arg::Word(v_a0), Arg::Byte(v_a1)]) == join(encode_arg(Arg::Word(v_a0)), encode_args(seq![Arg::Byte(v_a1)]))) by {
        assert(seq![Arg::Word(v_a0), Arg::Byte(v_a1)].drop_first() =~= seq![Arg::Byte(v_a1)]);
    }
    assert(encode_code((0x1Du8, seq![Arg::Word(v_a0), Arg::Byte(v_a1)])) == join(Some(seq![0x1Du8]), encode_args(seq![Arg::Word(v_a0), Arg::Byte(v_a1)])));
}

#[verifier::spinoff_prover]
#[verifier::rlimit(100)]
proof fn lemma_bytes_c1e(v_a0: u16, v_a1: u16, v_a2: u16, v_a3: u16, v_a4: u8)
    ensures
        ({
            let c = Code::C1E { a0: v_a0, a1: v_a1, a2: v_a2, a3: v_a3, a4: v_a4 };
            encode_code((code_op(c), code_args(c))) == instruction_bytes(c)
        }),
{
    let c = Code::C1E { a0: v_a0, a1: v_a1, a2: v_a2, a3: v_a3, a4: v_a4 };
    assert(code_op(c) == 0x1Eu8);
    assert(code_args(c) == seq![Arg::Word(v_a0), Arg::Word(v_a1), Arg::Word(v_a2), Arg::Word(v_a3), Arg::Byte(v_a4)]);
    assert(encode_args(Seq::<Arg>::empty()) == Some(Seq::<u8>::empty()));
    assert(encode_args(seq![Arg::Byte(v_a4)]) == join(encode_arg(Arg::Byte(v_a4)), encode_args(Seq::<Arg>::empty()))) by {
        assert(seq![Arg::Byte(v_a4)].drop_first() =~= Seq::<Arg>::empty());
    }
    assert(encode_args(seq![Arg::Word(v_a3), Arg::Byte(v_a4)]) == join(encode_arg(Arg::Word(v_a3)), encode_args(seq![Arg::Byte(v_a4)]))) by {
        assert(seq![Arg::Word(v_a3), Arg::Byte(v_a4)].drop_first() =~= seq![Arg::Byte(v_a4)]);
    }
    assert(encode_args(seq![Arg::Word(v_a2), Arg::Word(v_a3), Arg::Byte(v_a4)]) == join(encode_arg(Arg::Word(v_a2)), encode_args(seq![Arg::Word(v_a3), Arg::Byte(v_a4)]))) by {
        assert(seq![Arg::Word(v_a2), Arg::Word(v_a3), Arg::Byte(v_a4)].drop_first() =~= seq![Arg::Word(v_a3), Arg::Byte(v_a4)]);
    }
    assert(encode_args(seq![Arg::Word(v_a1), Arg::Word(v_a2), Arg::Word(v_a3), Arg::Byte(v_a4)]) == join(encode_arg(Arg::Word(v_a1)), encode_args(seq![Arg::Word(v_a2), Arg::Word(v_a3), Arg::Byte(v_a4)]))) by {
        assert(seq![Arg::Word(v_a1), Arg::Word(v_a2), Arg::Word(v_a3), Arg::Byte(v_a4)].drop_first() =~= seq![Arg::Word(v_a2), Arg::Word(v_a3), Arg::Byte(v_a4)]);
    }
    assert(encode_args(seq![Arg::Word(v_a0), Arg::Word(v_a1), Arg::Word(v_a2), Arg::Word(v_a3), Arg::Byte(v_a4)]) == join(encode_arg(Arg::Word(v_a0)), encode_args(seq![Arg::Word(v_a1), Arg::Word(v_a2), Arg::Word(v_a3), Arg::Byte(v_a4)]))) by {
        assert(seq![Arg::Word(v_a0), Arg::Word(v_a1), Arg::Word(v_a2), Arg::Word(v_a3), Arg::Byte(v_a4)].drop_first() =~= seq![Arg::Word(v_a1), Arg::Word(v_a2), Arg::Word(v_a3), Arg::Byte(v_a4)]);
    }
    assert(encode_code((0x1Eu8, seq![Arg::Word(v_a0), Arg::Word(v_a1), Arg::Word(v_a2), Arg::Word(v_a3), Arg::Byte(v_a4)])) == join(Some(seq![0x1Eu8]), encode_args(seq![Arg::Word(v_a0), Arg::Word(v_a1), Arg::Word(v_a2), Arg::Word(v_a3), Arg::Byte(v_a4)])));
}

#[verifier::spinoff_prover]
#[verifier::rlimit(100)]
proof fn lemma_bytes_c1f(v_a0: u16, v_a1: u8, v_a2: u8)
    ensures
        ({
            let c = Code::C1F { a0: v_a0, a1: v_a1, a2: v_a2 };
            encode_code((code_op(c), code_args(c))) == instruction_bytes(c)
        }),
{
    let c = Code::C1F { a0: v_a0, a1: v_a1, a2: v_a2 };
    assert(code_op(c) == 0x1Fu8);
    assert(code_args(c) == seq![Arg::Word(v_a0), Arg::Byte(v_a1), Arg::Byte(v_a2)]);
    assert(encode_args(Seq::<Arg>::empty()) == Some(Seq::<u8>::empty()));
    assert(encode_args(seq![Arg::Byte(v_a2)]) == join(encode_arg(Arg::Byte(v_a2)), encode_args(Seq::<Arg>::empty()))) by {
        assert(seq![Arg::Byte(v_a2)].drop_first() =~= Seq::<Arg>::empty());
    }
    assert(encode_args(seq![Arg::Byte(v_a1), Arg::Byte(v_a2)]) == join(encode_arg(Arg::Byte(v_a1)), encode_args(seq![Arg::Byte(v_a2)]))) by {
        assert(seq![Arg::Byte(v_a1), Arg::Byte(v_a2)].drop_first() =~= seq![Arg::Byte(v_a2)]);
    }
    assert(encode_args(seq![Arg::Word(v_a0), Arg::Byte(v_a1), Arg::Byte(v_a2)]) == join(encode_arg(Arg::Word(v_a0)), encode_args(seq![Arg::Byte(v_a1), Arg::Byte(v_a2)]))) by {
        assert(seq![Arg::Word(v_a0), Arg::Byte(v_a1), Arg::Byte(v_a2)].drop_first() =~= seq![Arg::Byte(v_a1), Arg::Byte(v_a2)]);
    }
    assert(encode_code((0x1Fu8, seq![Arg::Word(v_a0), Arg::Byte(v_a1), Arg::Byte(v_a2)])) == join(Some(seq![0x1Fu8]), encode_args(seq![Arg::Word(v_a0), Arg::Byte(v_a1), Arg::Byte(v_a2)])));
}

#[verifier::spinoff_prover]
#[verifier::rlimit(100)]
proof fn lemma_bytes_c20(v_a0: u16, v_a1: u8)
    ensures
        ({
            let c = Code::C20 { a0: v_a0, a1: v_a1 };
            encode_code((code_op(c), code_args(c))) == instruction_bytes(c)
        }),
{
    let c = Code::C20 { a0: v_a0, a1: v_a1 };
    assert(code_op(c) == 0x20u8);
    assert(code_args(c) == seq![Arg::Word(v_a0), Arg::Byte(v_a1)]);
    assert(encode_args(Seq::<Arg>::empty()) == Some(Seq::<u8>::empty()));
    assert(encode_args(seq![Arg::Byte(v_a1)]) == join(encode_arg(Arg::Byte(v_a1)), encode_args(Seq::<Arg>::empty()))) by {
        assert(seq![Arg::Byte(v_a1)].drop_first() =~= Seq::<Arg>::empty());
    }
    assert(encode_args(seq![Arg::Word(v_a0), Arg::Byte(v_a1)]) == join(encode_arg(Arg::Word(v_a0)), encode_args(seq![Arg::Byte(v_a1)]))) by {
        assert(seq![Arg::Word(v_a0), Arg::Byte(v_a1)].drop_first() =~= seq![Arg::Byte(v_a1)]);
    }
    assert(encode_code((0x20u8, seq![Arg::Word(v_a0), Arg::Byte(v_a1)])) == join(Some(seq![0x20u8]), encode_args(seq![Arg::Word(v_a0), Arg::Byte(v_a1)])));
}

#[verifier::spinoff_prover]
#[verifier::rlimit(100)]
proof fn lemma_bytes_c21(v_a0: u16, v_a1: u8)
    ensures
        ({
            let c = Code::C21 { a0: v_a0, a1: v_a1 };
            encode_code((code_op(c), code_args(c))) == instruction_bytes(c)
        }),
{
    let c = Code::C21 { a0: v_a0, a1: v_a1 };
    assert(code_op(c) == 0x21u8);
    assert(code_args(c) == seq![Arg::Word(v_a0), Arg::Byte(v_a1)]);
    assert(encode_args(Seq::<Arg>::empty()) == Some(Seq::<u8>::empty()));
    assert(encode_args(seq![Arg::Byte(v_a1)]) == join(encode_arg(Arg::Byte(v_a1)), encode_args(Seq::<Arg>::empty()))) by {
        assert(seq![Arg::Byte(v_a1)].drop_first() =~= Seq::<Arg>::empty());
    }
    assert(encode_args(seq![Arg::Word(v_a0), Arg::Byte(v_a1)]) == join(encode_arg(Arg::Word(v_a0)), encode_args(seq![Arg::Byte(v_a1)]))) by {
        assert(seq![Arg::Word(v_a0), Arg::Byte(v_a1)].drop_first() =~= seq![Arg::Byte(v_a1)]);
    }
    assert(encode_code((0x21u8, seq![Arg::Word(v_a0), Arg::Byte(v_a1)])) == join(Some(seq![0x21u8]), encode_args(seq![Arg::Word(v_a0), Arg::Byte(v_a1)])));
}

#[verifier::spinoff_prover]
#[verifier::rlimit(100)]
proof fn lemma_bytes_c22(v_a0: u16, v_a1: u16)
    ensures
        ({
            let c = Code::C22 { a0: v_a0, a1: v_a1 };
            encode_code((code_op(c), code_args(c))) == instruction_bytes(c)
        }),
{
    let c = Code::C22 { a0: v_a0, a1: v_a1 };
    assert(code_op(c) == 0x22u8);
    assert(code_args(c) == seq![Arg::Word(v_a0), Arg::Word(v_a1)]);
    assert(encode_args(Seq::<Arg>::empty()) == Some(Seq::<u8>::empty()));
    assert(encode_args(seq![Arg::Word(v_a1)]) == join(encode_arg(Arg::Word(v_a1)), encode_args(Seq::<Arg>::empty()))) by {
        assert(seq![Arg::Word(v_a1)].drop_first() =~= Seq::<Arg>::empty());
    }
    assert(encode_args(seq![Arg::Word(v_a0), Arg::Word(v_a1)]) == join(encode_arg(Arg::Word(v_a0)), encode_args(seq![Arg::Word(v_a1)]))) by {
        assert(seq![Arg::Word(v_a0), Arg::Word(v_a1)].drop_first() =~= seq![Arg::Word(v_a1)]);
    }
    assert(encode_code((0x22u8, seq![Arg::Word(v_a0), Arg::Word(v_a1)])) == join(Some(seq![0x22u8]), encode_args(seq![Arg::Word(v_a0), Arg::Word(v_a1)])));
}

#[verifier::spinoff_prover]
#[verifier::rlimit(100)]
proof fn lemma_bytes_c23(v_a0: u8, v_a1: u32)
    ensures
        ({
            let c = Code::C23 { a0: v_a0, a1: v_a1 };
            encode_code((code_op(c), code_args(c))) == instruction_bytes(c)
        }),
{
    let c = Code::C23 { a0: v_a0, a1: v_a1 };
    assert(code_op(c) == 0x23u8);
    assert(code_args(c) == seq![Arg::Byte(v_a0), Arg::Dword(v_a1)]);
    assert(encode_args(Seq::<Arg>::empty()) == Some(Seq::<u8>::empty()));
    assert(encode_args(seq![Arg::Dword(v_a1)]) == join(encode_arg(Arg::Dword(v_a1)), encode_args(Seq::<Arg>::empty()))) by {
        assert(seq![Arg::Dword(v_a1)].drop_first() =~= Seq::<Arg>::empty());
    }
    assert(encode_args(seq![Arg::Byte(v_a0), Arg::Dword(v_a1)]) == join(encode_arg(Arg::Byte(v_a0)), encode_args(seq![Arg::Dword(v_a1)]))) by {
        assert(seq![Arg::Byte(v_a0), Arg::Dword(v_a1)].drop_first() =~= seq![Arg::Dword(v_a1)]);
    }
    assert(encode_code((0x23u8, seq![Arg::Byte(v_a0), Arg::Dword(v_a1)])) == join(Some(seq![0x23u8]), encode_args(seq![Arg::Byte(v_a0), Arg::Dword(v_a1)])));
}

#[verifier::spinoff_prover]
#[verifier::rlimit(100)]
proof fn lemma_bytes_c24(v_a0: u16, v_a1: u16, v_len: u16, v_ask: String, v_choices: Vec<Choice>)
    ensures
        ({
            let c = Code::C24 { a0: v_a0, a1: v_a1, len: v_len, ask: v_ask, choices: v_choices };
            encode_code((code_op(c), code_args(c))) == instruction_bytes(c)
        }),
{
    let c = Code::C24 { a0: v_a0, a1: v_a1, len: v_len, ask: v_ask, choices: v_choices };
    assert(code_op(c) == 0x24u8);
    assert(code_args(c) == seq![Arg::Word(v_a0), Arg::Word(v_a1), Arg::Fixed(v_len, v_ask@), Arg::Choices(choices_view(v_choices@))]);
    assert(encode_args(Seq::<Arg>::empty()) == Some(Seq::<u8>::empty()));
    assert(encode_args(seq![Arg::Choices(choices_view(v_choices@))]) == join(encode_arg(Arg::Choices(choices_view(v_choices@))), encode_args(Seq::<Arg>::empty()))) by {
        assert(seq![Arg::Choices(choices_view(v_choices@))].drop_first() =~= Seq::<Arg>::empty());
    }
    assert(encode_args(seq![Arg::Fixed(v_len, v_ask@), Arg::Choices(choices_view(v_choices@))]) == join(encode_arg(Arg::Fixed(v_len, v_ask@)), encode_args(seq![Arg::Choices(choices_view(v_choices@))]))) by {
        assert(seq![Arg::Fixed(v_len, v_ask@), Arg::Choices(choices_view(v_choices@))].drop_first() =~= seq![Arg::Choices(choices_view(v_choices@))]);
    }
    assert(encode_args(seq![Arg::Word(v_a1), Arg::Fixed(v_len, v_ask@), Arg::Choices(choices_view(v_choices@))]) == join(encode_arg(Arg::Word(v_a1)), encode_args(seq![Arg::Fixed(v_len, v_ask@), Arg::Choices(choices_view(v_choices@))]))) by {
        assert(seq![Arg::Word(v_a1), Arg::Fixed(v_len, v_ask@), Arg::Choices(choices_view(v_choices@))].drop_first() =~= seq![Arg::Fixed(v_len, v_ask@), Arg::Choices(choices_view(v_choices@))]);
    }
    assert(encode_args(seq![Arg::Word(v_a0), Arg::Word(v_a1), Arg::Fixed(v_len, v_ask@), Arg::Choices(choices_view(v_choices@))]) == join(encode_arg(Arg::Word(v_a0)), encode_args(seq![Arg::Word(v_a1), Arg::Fixed(v_len, v_ask@), Arg::Choices(choices_view(v_choices@))]))) by {
        assert(seq![Arg::Word(v_a0), Arg::Word(v_a1), Arg::Fixed(v_len, v_ask@), Arg::Choices(choices_view(v_choices@))].drop_first() =~= seq![Arg::Word(v_a1), Arg::Fixed(v_len, v_ask@), Arg::Choices(choices_view(v_choices@))]);
    }
    assert(encode_arg(Arg::Fixed(v_len, v_ask@)) == fixed_text_bytes(v_ask@)) by {
        reveal(fixed_text_bytes);
    }
    assert(encode_arg(Arg::Choices(choices_view(v_choices@))) == choice_list_bytes(v_choices@)) by {
        lemma_choice_list_bytes(v_choices@);
    }
    assert(encode_code((0x24u8, seq![Arg::Word(v_a0), Arg::Word(v_a1), Arg::Fixed(v_len, v_ask@), Arg::Choices(choices_view(v_choices@))])) == join(Some(seq![0x24u8]), encode_args(seq![Arg::Word(v_a0), Arg::Word(v_a1), Arg::Fixed(v_len, v_ask@), Arg::Choices(choices_view(v_choices@))])));
}

#[verifier::spinoff_prover]
#[verifier::rlimit(100)]
proof fn lemma_bytes_c25(v_a0: u16, v_len: u16, v_ask: String, v_choices: Vec<Choice>)
    ensures
        ({
            let c = Code::C25 { a0: v_a0, len: v_len, ask: v_ask, choices: v_choices };
            encode_code((code_op(c), code_args(c))) == instruction_bytes(c)
        }),
{
    let c = Code::C25 { a0: v_a0, len: v_len, ask: v_ask, choices: v_choices };
    assert(code_op(c) == 0x25u8);
    assert(code_args(c) == seq![Arg::Word(v_a0), Arg::Fixed(v_len, v_ask@), Arg::Choices(choices_view(v_choices@))]);
    assert(encode_args(Seq::<Arg>::empty()) == Some(Seq::<u8>::empty()));
    assert(encode_args(seq![Arg::Choices(choices_view(v_choices@))]) == join(encode_arg(Arg::Choices(choices_view(v_choices@))), encode_args(Seq::<Arg>::empty()))) by {
        assert(seq![Arg::Choices(choices_view(v_choices@))].drop_first() =~= Seq::<Arg>::empty());
    }
    assert(encode_args(seq![Arg::Fixed(v_len, v_ask@), Arg::Choices(choices_view(v_choices@))]) == join(encode_arg(Arg::Fixed(v_len, v_ask@)), encode_args(seq![Arg::Choices(choices_view(v_choices@))]))) by {
        assert(seq![Arg::Fixed(v_len, v_ask@), Arg::Choices(choices_view(v_choices@))].drop_first() =~= seq![Arg::Choices(choices_view(v_choices@))]);
    }
    assert(encode_args(seq![Arg::Word(v_a0), Arg::Fixed(v_len, v_ask@), Arg::Choices(choices_view(v_choices@))]) == join(encode_arg(Arg::Word(v_a0)), encode_args(seq![Arg::Fixed(v_len, v_ask@), Arg::Choices(choices_view(v_choices@))]))) by {
        assert(seq![Arg::Word(v_a0), Arg::Fixed(v_len, v_ask@), Arg::Choices(choices_view(v_choices@))].drop_first() =~= seq![Arg::Fixed(v_len, v_ask@), Arg::Choices(choices_view(v_choices@))]);
    }
    assert(encode_arg(Arg::Fixed(v_len, v_ask@)) == fixed_text_bytes(v_ask@)) by {
        reveal(fixed_text_bytes);
    }
    assert(encode_arg(Arg::Choices(choices_view(v_choices@))) == choice_list_bytes(v_choices@)) by {
        lemma_choice_list_bytes(v_choices@);
    }
    assert(encode_code((0x25u8, seq![Arg::Word(v_a0), Arg::Fixed(v_len, v_ask@), Arg::Choices(choices_view(v_choices@))])) == join(Some(seq![0x25u8]), encode_args(seq![Arg::Word(v_a0), Arg::Fixed(v_len, v_ask@), Arg::Choices(choices_view(v_choices@))])));
}

#[verifier::spinoff_prover]
#[verifier::rlimit(100)]
proof fn lemma_bytes_c26(v_a0: u16, v_len: u16, v_ask: String, v_choices: Vec<Choice>)
    ensures
        ({
            let c = Code::C26 { a0: v_a0, len: v_len, ask: v_ask, choices: v_choices };
            encode_code((code_op(c), code_args(c))) == instruction_bytes(c)
        }),
{
    let c = Code::C26 { a0: v_a0, len: v_len, ask: v_ask, choices: v_choices };
    assert(code_op(c) == 0x26u8);
    assert(code_args(c) == seq![Arg::Word(v_a0), Arg::Fixed(v_len, v_ask@), Arg::Choices(choices_view(v_choices@))]);
    assert(encode_args(Seq::<Arg>::empty()) == Some(Seq::<u8>::empty()));
    assert(encode_args(seq![Arg::Choices(choices_view(v_choices@))]) == join(encode_arg(Arg::Choices(choices_view(v_choices@))), encode_args(Seq::<Arg>::empty()))) by {
        assert(seq![Arg::Choices(choices_view(v_choices@))].drop_first() =~= Seq::<Arg>::empty());
    }
    assert(encode_args(seq![Arg::Fixed(v_len, v_ask@), Arg::Choices(choices_view(v_choices@))]) == join(encode_arg(Arg::Fixed(v_len, v_ask@)), encode_args(seq![Arg::Choices(choices_view(v_choices@))]))) by {
        assert(seq![Arg::Fixed(v_len, v_ask@), Arg::Choices(choices_view(v_choices@))].drop_first() =~= seq![Arg::Choices(choices_view(v_choices@))]);
    }
    assert(encode_args(seq![Arg::Word(v_a0), Arg::Fixed(v_len, v_ask@), Arg::Choices(choices_view(v_choices@))]) == join(encode_arg(Arg::Word(v_a0)), encode_args(seq![Arg::Fixed(v_len, v_ask@), Arg::Choices(choices_view(v_choices@))]))) by {
        assert(seq![Arg::Word(v_a0), Arg::Fixed(v_len, v_ask@), Arg::Choices(choices_view(v_choices@))].drop_first() =~= seq![Arg::Fixed(v_len, v_ask@), Arg::Choices(choices_view(v_choices@))]);
    }
    assert(encode_arg(Arg::Fixed(v_len, v_ask@)) == fixed_text_bytes(v_ask@)) by {
        reveal(fixed_text_bytes);
    }
    assert(encode_arg(Arg::Choices(choices_view(v_choices@))) == choice_list_bytes(v_choices@)) by {
        lemma_choice_list_bytes(v_choices@);
    }
    assert(encode_code((0x26u8, seq![Arg::Word(v_a0), Arg::Fixed(v_len, v_ask@), Arg::Choices(choices_view(v_choices@))])) == join(Some(seq![0x26u8]), encode_args(seq![Arg::Word(v_a0), Arg::Fixed(v_len, v_ask@), Arg::Choices(choices_view(v_choices@))])));
}

#[verifier::spinoff_prover]
#[verifier::rlimit(100)]
proof fn lemma_bytes_c27(v_a0: u16, v_a1: u16, v_len: u16, v_ask: String, v_choices: Vec<Choice>)
    ensures
        ({
            let c = Code::C27 { a0: v_a0, a1: v_a1, len: v_len, ask: v_ask, choices: v_choices };
            encode_code((code_op(c), code_args(c))) == instruction_bytes(c)
        }),
{
    let c = Code::C27 { a0: v_a0, a1: v_a1, len: v_len, ask: v_ask, choices: v_choices };
    assert(code_op(c) == 0x27u8);
    assert(code_args(c) == seq![Arg::Word(v_a0), Arg::Word(v_a1), Arg::Fixed(v_len, v_ask@), Arg::Choices(choices_view(v_choices@))]);
    assert(encode_args(Seq::<Arg>::empty()) == Some(Seq::<u8>::empty()));
    assert(encode_args(seq![Arg::Choices(choices_view(v_choices@))]) == join(encode_arg(Arg::Choices(choices_view(v_choices@))), encode_args(Seq::<Arg>::empty()))) by {
        assert(seq![Arg::Choices(choices_view(v_choices@))].drop_first() =~= Seq::<Arg>::empty());
    }
    assert(encode_args(seq![Arg::Fixed(v_len, v_ask@), Arg::Choices(choices_view(v_choices@))]) == join(encode_arg(Arg::Fixed(v_len, v_ask@)), encode_args(seq![Arg::Choices(choices_view(v_choices@))]))) by {
        assert(seq![Arg::Fixed(v_len, v_ask@), Arg::Choices(choices_view(v_choices@))].drop_first() =~= seq![Arg::Choices(choices_view(v_choices@))]);
    }
    assert(encode_args(seq![Arg::Word(v_a1), Arg::Fixed(v_len, v_ask@), Arg::Choices(choices_view(v_choices@))]) == join(encode_arg(Arg::Word(v_a1)), encode_args(seq![Arg::Fixed(v_len, v_ask@), Arg::Choices(choices_view(v_choices@))]))) by {
        assert(seq![Arg::Word(v_a1), Arg::Fixed(v_len, v_ask@), Arg::Choices(choices_view(v_choices@))].drop_first() =~= seq![Arg::Fixed(v_len, v_ask@), Arg::Choices(choices_view(v_choices@))]);
    }
    assert(encode_args(seq![Arg::Word(v_a0), Arg::Word(v_a1), Arg::Fixed(v_len, v_ask@), Arg::Choices(choices_view(v_choices@))]) == join(encode_arg(Arg::Word(v_a0)), encode_args(seq![Arg::Word(v_a1), Arg::Fixed(v_len, v_ask@), Arg::Choices(choices_view(v_choices@))]))) by {
        assert(seq![Arg::Word(v_a0), Arg::Word(v_a1), Arg::Fixed(v_len, v_ask@), Arg::Choices(choices_view(v_choices@))].drop_first() =~= seq![Arg::Word(v_a1), Arg::Fixed(v_len, v_ask@), Arg::Choices(choices_view(v_choices@))]);
    }
    assert(encode_arg(Arg::Fixed(v_len, v_ask@)) == fixed_text_bytes(v_ask@)) by {
        reveal(fixed_text_bytes);
    }
    assert(encode_arg(Arg::Choices(choices_view(v_choices@))) == choice_list_bytes(v_choices@)) by {
        lemma_choice_list_bytes(v_choices@);
    }
    assert(encode_code((0x27u8, seq![Arg::Word(v_a0), Arg::Word(v_a1), Arg::Fixed(v_len, v_ask@), Arg::Choices(choices_view(v_choices@))])) == join(Some(seq![0x27u8]), encode_args(seq![Arg::Word(v_a0), Arg::Word(v_a1), Arg::Fixed(v_len, v_ask@), Arg::Choices(choices_view(v_choices@))])));
}

#[verifier::spinoff_prover]
#[verifier::rlimit(100)]
proof fn lemma_bytes_c28(v_a0: u16, v_len: u16, v_ask: String, v_choices: Vec<Choice>)
    ensures
        ({
            let c = Code::C28 { a0: v_a0, len: v_len, ask: v_ask, choices: v_choices };
            encode_code((code_op(c), code_args(c))) == instruction_bytes(c)
        }),
{
    let c = Code::C28 { a0: v_a0, len: v_len, ask: v_ask, choices: v_choices };
    assert(code_op(c) == 0x28u8);
    assert(code_args(c) == seq![Arg::Word(v_a0), Arg::Fixed(v_len, v_ask@), Arg::Choices(choices_view(v_choices@))]);
    assert(encode_args(Seq::<Arg>::empty()) == Some(Seq::<u8>::empty()));
    assert(encode_args(seq![Arg::Choices(choices_view(v_choices@))]) == join(encode_arg(Arg::Choices(choices_view(v_choices@))), encode_args(Seq::<Arg>::empty()))) by {
        assert(seq![Arg::Choices(choices_view(v_choices@))].drop_first() =~= Seq::<Arg>::empty());
    }
    assert(encode_args(seq![Arg::Fixed(v_len, v_ask@), Arg::Choices(choices_view(v_choices@))]) == join(encode_arg(Arg::Fixed(v_len, v_ask@)), encode_args(seq![Arg::Choices(choices_view(v_choices@))]))) by {
        assert(seq![Arg::Fixed(v_len, v_ask@), Arg::Choices(choices_view(v_choices@))].drop_first() =~= seq![Arg::Choices(choices_view(v_choices@))]);
    }
    assert(encode_args(seq![Arg::Word(v_a0), Arg::Fixed(v_len, v_ask@), Arg::Choices(choices_view(v_choices@))]) == join(encode_arg(Arg::Word(v_a0)), encode_args(seq![Arg::Fixed(v_len, v_ask@), Arg::Choices(choices_view(v_choices@))]))) by {
        assert(seq![Arg::Word(v_a0), Arg::Fixed(v_len, v_ask@), Arg::Choices(choices_view(v_choices@))].drop_first() =~= seq![Arg::Fixed(v_len, v_ask@), Arg::Choices(choices_view(v_choices@))]);
    }
    assert(encode_arg(Arg::Fixed(v_len, v_ask@)) == fixed_text_bytes(v_ask@)) by {
        reveal(fixed_text_bytes);
    }
    assert(encode_arg(Arg::Choices(choices_view(v_choices@))) == choice_list_bytes(v_choices@)) by {
        lemma_choice_list_bytes(v_choices@);
    }
    assert(encode_code((0x28u8, seq![Arg::Word(v_a0), Arg::Fixed(v_len, v_ask@), Arg::Choices(choices_view(v_choices@))])) == join(Some(seq![0x28u8]), encode_args(seq![Arg::Word(v_a0), Arg::Fixed(v_len, v_ask@), Arg::Choices(choices_view(v_choices@))])));
}

#[verifier::spinoff_prover]
#[verifier::rlimit(100)]
proof fn lemma_bytes_c29(v_a0: u16, v_len: u16, v_ask: String, v_choices: Vec<Choice>)
    ensures
        ({
            let c = Code::C29 { a0: v_a0, len: v_len, ask: v_ask, choices: v_choices };
            encode_code((code_op(c), code_args(c))) == instruction_bytes(c)
        }),
{
    let c = Code::C29 { a0: v_a0, len: v_len, ask: v_ask, choices: v_choices };
    assert(code_op(c) == 0x29u8);
    assert(code_args(c) == seq![Arg::Word(v_a0), Arg::Fixed(v_len, v_ask@), Arg::Choices(choices_view(v_choices@))]);
    assert(encode_args(Seq::<Arg>::empty()) == Some(Seq::<u8>::empty()));
    assert(encode_args(seq![Arg::Choices(choices_view(v_choices@))]) == join(encode_arg(Arg::Choices(choices_view(v_choices@))), encode_args(Seq::<Arg>::empty()))) by {
        assert(seq![Arg::Choices(choices_view(v_choices@))].drop_first() =~= Seq::<Arg>::empty());
    }
    assert(encode_args(seq![Arg::Fixed(v_len, v_ask@), Arg::Choices(choices_view(v_choices@))]) == join(encode_arg(Arg::Fixed(v_len, v_ask@)), encode_args(seq![Arg::Choices(choices_view(v_choices@))]))) by {
        assert(seq![Arg::Fixed(v_len, v_ask@), Arg::Choices(choices_view(v_choices@))].drop_first() =~= seq![Arg::Choices(choices_view(v_choices@))]);
    }
    assert(encode_args(seq![Arg::Word(v_a0), Arg::Fixed(v_len, v_ask@), Arg::Choices(choices_view(v_choices@))]) == join(encode_arg(Arg::Word(v_a0)), encode_args(seq![Arg::Fixed(v_len, v_ask@), Arg::Choices(choices_view(v_choices@))]))) by {
        assert(seq![Arg::Word(v_a0), Arg::Fixed(v_len, v_ask@), Arg::Choices(choices_view(v_choices@))].drop_first() =~= seq![Arg::Fixed(v_len, v_ask@), Arg::Choices(choices_view(v_choices@))]);
    }
    assert(encode_arg(Arg::Fixed(v_len, v_ask@)) == fixed_text_bytes(v_ask@)) by {
        reveal(fixed_text_bytes);
    }
    assert(encode_arg(Arg::Choices(choices_view(v_choices@))) == choice_list_bytes(v_choices@)) by {
        lemma_choice_list_bytes(v_choices@);
    }
    assert(encode_code((0x29u8, seq![Arg::Word(v_a0), Arg::Fixed(v_len, v_ask@), Arg::Choices(choices_view(v_choices@))])) == join(Some(seq![0x29u8]), encode_args(seq![Arg::Word(v_a0), Arg::Fixed(v_len, v_ask@), Arg::Choices(choices_view(v_choices@))])));
}

#[verifier::spinoff_prover]
#[verifier::rlimit(100)]
proof fn lemma_bytes_c2a(v_a0: u16, v_a1: u8)
    ensures
        ({
            let c = Code::C2A { a0: v_a0, a1: v_a1 };
            encode_code((code_op(c), code_args(c))) == instruction_bytes(c)
        }),
{
    let c = Code::C2A { a0: v_a0, a1: v_a1 };
    assert(code_op(c) == 0x2Au8);
    assert(code_args(c) == seq![Arg::Word(v_a0), Arg::Byte(v_a1)]);
    assert(encode_args(Seq::<Arg>::empty()) == Some(Seq::<u8>::empty()));
    assert(encode_args(seq![Arg::Byte(v_a1)]) == join(encode_arg(Arg::Byte(v_a1)), encode_args(Seq::<Arg>::empty()))) by {
        assert(seq![Arg::Byte(v_a1)].drop_first() =~= Seq::<Arg>::empty());
    }
    assert(encode_args(seq![Arg::Word(v_a0), Arg::Byte(v_a1)]) == join(encode_arg(Arg::Word(v_a0)), encode_args(seq![Arg::Byte(v_a1)]))) by {
        assert(seq![Arg::Word(v_a0), Arg::Byte(v_a1)].drop_first() =~= seq![Arg::Byte(v_a1)]);
    }
    assert(encode_code((0x2Au8, seq![Arg::Word(v_a0), Arg::Byte(v_a1)])) == join(Some(seq![0x2Au8]), encode_args(seq![Arg::Word(v_a0), Arg::Byte(v_a1)])));
}

#[verifier::spinoff_prover]
#[verifier::rlimit(100)]
proof fn lemma_bytes_c2b(v_a0: u8)
    ensures
        ({
            let c = Code::C2B { a0: v_a0 };
            encode_code((code_op(c), code_args(c))) == instruction_bytes(c)
        }),
{
    let c = Code::C2B { a0: v_a0 };
    assert(code_op(c) == 0x2Bu8);
    assert(code_args(c) == seq![Arg::Byte(v_a0)]);
    assert(encode_args(Seq::<Arg>::empty()) == Some(Seq::<u8>::empty()));
    assert(encode_args(seq![Arg::Byte(v_a0)]) == join(encode_arg(Arg::Byte(v_a0)), encode_args(Seq::<Arg>::empty()))) by {
        assert(seq![Arg::Byte(v_a0)].drop_first() =~= Seq::<Arg>::empty());
    }
    assert(encode_code((0x2Bu8, seq![Arg::Byte(v_a0)])) == join(Some(seq![0x2Bu8]), encode_args(seq![Arg::Byte(v_a0)])));
}

#[verifier::spinoff_prover]
#[verifier::rlimit(100)]
proof fn lemma_bytes_c2c(v_a0: u8)
    ensures
        ({
            let c = Code::C2C { a0: v_a0 };
            encode_code((code_op(c), code_args(c))) == instruction_bytes(c)
        }),
{
    let c = Code::C2C { a0: v_a0 };
    assert(code_op(c) == 0x2Cu8);
    assert(code_args(c) == seq![Arg::Byte(v_a0)]);
    assert(encode_args(Seq::<Arg>::empty()) == Some(Seq::<u8>::empty()));
    assert(encode_args(seq![Arg::Byte(v_a0)]) == join(encode_arg(Arg::Byte(v_a0)), encode_args(Seq::<Arg>::empty()))) by {
        assert(seq![Arg::Byte(v_a0)].drop_first() =~= Seq::<Arg>::empty());
    }
    assert(encode_code((0x2Cu8, seq![Arg::Byte(v_a0)])) == join(Some(seq![0x2Cu8]), encode_args(seq![Arg::Byte(v_a0)])));
}

#[verifier::spinoff_prover]
#[verifier::rlimit(100)]
proof fn lemma_bytes_c2d(v_a0: u16, v_a1: u16, v_a2: u16, v_a3: u16, v_a4: u8)
    ensures
        ({
            let c = Code::C2D { a0: v_a0, a1: v_a1, a2: v_a2, a3: v_a3, a4: v_a4 };
            encode_code((code_op(c), code_args(c))) == instruction_bytes(c)
        }),
{
    let c = Code::C2D { a0: v_a0, a1: v_a1, a2: v_a2, a3: v_a3, a4: v_a4 };
    assert(code_op(c) == 0x2Du8);
    assert(code_args(c) == seq![Arg::Word(v_a0), Arg::Word(v_a1), Arg::Word(v_a2), Arg::Word(v_a3), Arg::Byte(v_a4)]);
    assert(encode_args(Seq::<Arg>::empty()) == Some(Seq::<u8>::empty()));
    assert(encode_args(seq![Arg::Byte(v_a4)]) == join(encode_arg(Arg::Byte(v_a4)), encode_args(Seq::<Arg>::empty()))) by {
        assert(seq![Arg::Byte(v_a4)].drop_first() =~= Seq::<Arg>::empty());
    }
    assert(encode_args(seq![Arg::Word(v_a3), Arg::Byte(v_a4)]) == join(encode_arg(Arg::Word(v_a3)), encode_args(seq![Arg::Byte(v_a4)]))) by {
        assert(seq![Arg::Word(v_a3), Arg::Byte(v_a4)].drop_first() =~= seq![Arg::Byte(v_a4)]);
    }
    assert(encode_args(seq![Arg::Word(v_a2), Arg::Word(v_a3), Arg::Byte(v_a4)]) == join(encode_arg(Arg::Word(v_a2)), encode_args(seq![Arg::Word(v_a3), Arg::Byte(v_a4)]))) by {
        assert(seq![Arg::Word(v_a2), Arg::Word(v_a3), Arg::Byte(v_a4)].drop_first() =~= seq![Arg::Word(v_a3), Arg::Byte(v_a4)]);
    }
    assert(encode_args(seq![Arg::Word(v_a1), Arg::Word(v_a2), Arg::Word(v_a3), Arg::Byte(v_a4)]) == join(encode_arg(Arg::Word(v_a1)), encode_args(seq![Arg::Word(v_a2), Arg::Word(v_a3), Arg::Byte(v_a4)]))) by {
        assert(seq![Arg::Word(v_a1), Arg::Word(v_a2), Arg::Word(v_a3), Arg::Byte(v_a4)].drop_first() =~= seq![Arg::Word(v_a2), Arg::Word(v_a3), Arg::Byte(v_a4)]);
    }
    assert(encode_args(seq![Arg::Word(v_a0), Arg::Word(v_a1), Arg::Word(v_a2), Arg::Word(v_a3), Arg::Byte(v_a4)]) == join(encode_arg(Arg::Word(v_a0)), encode_args(seq![Arg::Word(v_a1), Arg::Word(v_a2), Arg::Word(v_a3), Arg::Byte(v_a4)]))) by {
        assert(seq![Arg::Word(v_a0), Arg::Word(v_a1), Arg::Word(v_a2), Arg::Word(v_a3), Arg::Byte(v_a4)].drop_first() =~= seq![Arg::Word(v_a1), Arg::Word(v_a2), Arg::Word(v_a3), Arg::Byte(v_a4)]);
    }
    assert(encode_code((0x2Du8, seq![Arg::Word(v_a0), Arg::Word(v_a1), Arg::Word(v_a2), Arg::Word(v_a3), Arg::Byte(v_a4)])) == join(Some(seq![0x2Du8]), encode_args(seq![Arg::Word(v_a0), Arg::Word(v_a1), Arg::Word(v_a2), Arg::Word(v_a3), Arg::Byte(v_a4)])));
}

#[verifier::spinoff_prover]
#[verifier::rlimit(100)]
proof fn lemma_bytes_c2e(v_xstr: String)
    ensures
        ({
            let c = Code::C2E { xstr: v_xstr };
            encode_code((code_op(c), code_args(c))) == instruction_bytes(c)
        }),
{
    let c = Code::C2E { xstr: v_xstr };
    assert(code_op(c) == 0x2Eu8);
    assert(code_args(c) == seq![Arg::EscText(v_xstr@)]);
    assert(encode_args(Seq::<Arg>::empty()) == Some(Seq::<u8>::empty()));
    assert(encode_args(seq![Arg::EscText(v_xstr@)]) == join(encode_arg(Arg::EscText(v_xstr@)), encode_args(Seq::<Arg>::empty()))) by {
        assert(seq![Arg::EscText(v_xstr@)].drop_first() =~= Seq::<Arg>::empty());
    }
    assert(encode_arg(Arg::EscText(v_xstr@)) == esc_text_bytes(v_xstr@)) by {
        reveal(esc_text_bytes);
    }
    assert(encode_code((0x2Eu8, seq![Arg::EscText(v_xstr@)])) == join(Some(seq![0x2Eu8]), encode_args(seq![Arg::EscText(v_xstr@)])));
}

#[verifier::spinoff_prover]
#[verifier::rlimit(100)]
proof fn lemma_bytes_c2f(v_a0: u16)
    ensures
        ({
            let c = Code::C2F { a0: v_a0 };
            encode_code((code_op(c), code_args(c))) == instruction_bytes(c)
        }),
{
    let c = Code::C2F { a0: v_a0 };
    assert(code_op(c) == 0x2Fu8);
    assert(code_args(c) == seq![Arg::Word(v_a0)]);
    assert(encode_args(Seq::<Arg>::empty()) == Some(Seq::<u8>::empty()));
    assert(encode_args(seq![Arg::Word(v_a0)]) == join(encode_arg(Arg::Word(v_a0)), encode_args(Seq::<Arg>::empty()))) by {
        assert(seq![Arg::Word(v_a0)].drop_first() =~= Seq::<Arg>::empty());
    }
    assert(encode_code((0x2Fu8, seq![Arg::Word(v_a0)])) == join(Some(seq![0x2Fu8]), encode_args(seq![Arg::Word(v_a0)])));
}

#[verifier::spinoff_prover]
#[verifier::rlimit(100)]
proof fn lemma_bytes_c30(v_a0: u8)
    ensures
        ({
            let c = Code::C30 { a0: v_a0 };
            encode_code((code_op(c), code_args(c))) == instruction_bytes(c)
        }),
{
    let c = Code::C30 { a0: v_a0 };
    assert(code_op(c) == 0x30u8);
    assert(code_args(c) == seq![Arg::Byte(v_a0)]);
    assert(encode_args(Seq::<Arg>::empty()) == Some(Seq::<u8>::empty()));
    assert(encode_args(seq![Arg::Byte(v_a0)]) == join(encode_arg(Arg::Byte(v_a0)), encode_args(Seq::<Arg>::empty()))) by {
        assert(seq![Arg::Byte(v_a0)].drop_first() =~= Seq::<Arg>::empty());
    }
    assert(encode_code((0x30u8, seq![Arg::Byte(v_a0)])) == join(Some(seq![0x30u8]), encode_args(seq![Arg::Byte(v_a0)])));
}

#[verifier::spinoff_prover]
#[verifier::rlimit(100)]
proof fn lemma_bytes_c31(v_a0: u8)
    ensures
        ({
            let c = Code::C31 { a0: v_a0 };
            encode_code((code_op(c), code_args(c))) == instruction_bytes(c)
        }),
{
    let c = Code::C31 { a0: v_a0 };
    assert(code_op(c) == 0x31u8);
    assert(code_args(c) == seq![Arg::Byte(v_a0)]);
    assert(encode_args(Seq::<Arg>::empty()) == Some(Seq::<u8>::empty()));
    assert(encode_args(seq![Arg::Byte(v_a0)]) == join(encode_arg(Arg::Byte(v_a0)), encode_args(Seq::<Arg>::empty()))) by {
        assert(seq![Arg::Byte(v_a0)].drop_first() =~= Seq::<Arg>::empty());
    }
    assert(encode_code((0x31u8, seq![Arg::Byte(v_a0)])) == join(Some(seq![0x31u8]), encode_args(seq![Arg::Byte(v_a0)])));
}

#[verifier::spinoff_prover]
#[verifier::rlimit(100)]
proof fn lemma_bytes_c32(v_a0: u8)
    ensures
        ({
            let c = Code::C32 { a0: v_a0 };
            encode_code((code_op(c), code_args(c))) == instruction_bytes(c)
        }),
{
    let c = Code::C32 { a0: v_a0 };
    assert(code_op(c) == 0x32u8);
    assert(code_args(c) == seq![Arg::Byte(v_a0)]);
    assert(encode_args(Seq::<Arg>::empty()) == Some(Seq::<u8>::empty()));
    assert(encode_args(seq![Arg::Byte(v_a0)]) == join(encode_arg(Arg::Byte(v_a0)), encode_args(Seq::<Arg>::empty()))) by {
        assert(seq![Arg::Byte(v_a0)].drop_first() =~= Seq::<Arg>::empty());
    }
    assert(encode_code((0x32u8, seq![Arg::Byte(v_a0)])) == join(Some(seq![0x32u8]), encode_args(seq![Arg::Byte(v_a0)])));
}

#[verifier::spinoff_prover]
#[verifier::rlimit(100)]
proof fn lemma_bytes_c33(v_a0: u8)
    ensures
        ({
            let c = Code::C33 { a0: v_a0 };
            encode_code((code_op(c), code_args(c))) == instruction_bytes(c)
        }),
{
    let c = Code::C33 { a0: v_a0 };
    assert(code_op(c) == 0x33u8);
    assert(code_args(c) == seq![Arg::Byte(v_a0)]);
    assert(encode_args(Seq::<Arg>::empty()) == Some(Seq::<u8>::empty()));
    assert(encode_args(seq![Arg::Byte(v_a0)]) == join(encode_arg(Arg::Byte(v_a0)), encode_args(Seq::<Arg>::empty()))) by {
        assert(seq![Arg::Byte(v_a0)].drop_first() =~= Seq::<Arg>::empty());
    }
    assert(encode_code((0x33u8, seq![Arg::Byte(v_a0)])) == join(Some(seq![0x33u8]), encode_args(seq![Arg::Byte(v_a0)])));
}

#[verifier::spinoff_prover]
#[verifier::rlimit(100)]
proof fn lemma_bytes_c34()
    ensures
        ({
            let c = Code::C34 {  };
            encode_code((code_op(c), code_args(c))) == instruction_bytes(c)
        }),
{
    let c = Code::C34 {  };
    assert(code_op(c) == 0x34u8);
    assert(code_args(c) == Seq::<Arg>::empty());
    assert(encode_args(Seq::<Arg>::empty()) == Some(Seq::<u8>::empty()));
    assert(encode_code((0x34u8, Seq::<Arg>::empty())) == join(Some(seq![0x34u8]), encode_args(Seq::<Arg>::empty())));
}

#[verifier::spinoff_prover]
#[verifier::rlimit(100)]
proof fn lemma_bytes_c35(v_a0: u16, v_a1: u16, v_len: u16, v_str: String)
    ensures
        ({
            let c = Code::C35 { a0: v_a0, a1: v_a1, len: v_len, str: v_str };
            encode_code((code_op(c), code_args(c))) == instruction_bytes(c)
        }),
{
    let c = Code::C35 { a0: v_a0, a1: v_a1, len: v_len, str: v_str };
    assert(code_op(c) == 0x35u8);
    assert(code_args(c) == seq![Arg::Word(v_a0), Arg::Word(v_a1), Arg::Fixed(v_len, v_str@)]);
    assert(encode_args(Seq::<Arg>::empty()) == Some(Seq::<u8>::empty()));
    assert(encode_args(seq![Arg::Fixed(v_len, v_str@)]) == join(encode_arg(Arg::Fixed(v_len, v_str@)), encode_args(Seq::<Arg>::empty()))) by {
        assert(seq![Arg::Fixed(v_len, v_str@)].drop_first() =~= Seq::<Arg>::empty());
    }
    assert(encode_args(seq![Arg::Word(v_a1), Arg::Fixed(v_len, v_str@)]) == join(encode_arg(Arg::Word(v_a1)), encode_args(seq![Arg::Fixed(v_len, v_str@)]))) by {
        assert(seq![Arg::Word(v_a1), Arg::Fixed(v_len, v_str@)].drop_first() =~= seq![Arg::Fixed(v_len, v_str@)]);
    }
    assert(encode_args(seq![Arg::Word(v_a0), Arg::Word(v_a1), Arg::Fixed(v_len, v_str@)]) == join(encode_arg(Arg::Word(v_a0)), encode_args(seq![Arg::Word(v_a1), Arg::Fixed(v_len, v_str@)]))) by {
        assert(seq![Arg::Word(v_a0), Arg::Word(v_a1), Arg::Fixed(v_len, v_str@)].drop_first() =~= seq![Arg::Word(v_a1), Arg::Fixed(v_len, v_str@)]);
    }
    assert(encode_arg(Arg::Fixed(v_len, v_str@)) == fixed_text_bytes(v_str@)) by {
        reveal(fixed_text_bytes);
    }
    assert(encode_code((0x35u8, seq![Arg::Word(v_a0), Arg::Word(v_a1), Arg::Fixed(v_len, v_str@)])) == join(Some(seq![0x35u8]), encode_args(seq![Arg::Word(v_a0), Arg::Word(v_a1), Arg::Fixed(v_len, v_str@)])));
}

#[verifier::spinoff_prover]
#[verifier::rlimit(100)]
proof fn lemma_bytes_c36(v_a0: u16, v_a1: u16, v_a2: u16, v_a3: u16, v_a4: u16)
    ensures
        ({
            let c = Code::C36 { a0: v_a0, a1: v_a1, a2: v_a2, a3: v_a3, a4: v_a4 };
            encode_code((code_op(c), code_args(c))) == instruction_bytes(c)
        }),
{
    let c = Code::C36 { a0: v_a0, a1: v_a1, a2: v_a2, a3: v_a3, a4: v_a4 };
    assert(code_op(c) == 0x36u8);
    assert(code_args(c) == seq![Arg::Word(v_a0), Arg::Word(v_a1), Arg::Word(v_a2), Arg::Word(v_a3), Arg::Word(v_a4)]);
    assert(encode_args(Seq::<Arg>::empty()) == Some(Seq::<u8>::empty()));
    assert(encode_args(seq![Arg::Word(v_a4)]) == join(encode_arg(Arg::Word(v_a4)), encode_args(Seq::<Arg>::empty()))) by {
        assert(seq![Arg::Word(v_a4)].drop_first() =~= Seq::<Arg>::empty());
    }
    assert(encode_args(seq![Arg::Word(v_a3), Arg::Word(v_a4)]) == join(encode_arg(Arg::Word(v_a3)), encode_args(seq![Arg::Word(v_a4)]))) by {
        assert(seq![Arg::Word(v_a3), Arg::Word(v_a4)].drop_first() =~= seq![Arg::Word(v_a4)]);
    }
    assert(encode_args(seq![Arg::Word(v_a2), Arg::Word(v_a3), Arg::Word(v_a4)]) == join(encode_arg(Arg::Word(v_a2)), encode_args(seq![Arg::Word(v_a3), Arg::Word(v_a4)]))) by {
        assert(seq![Arg::Word(v_a2), Arg::Word(v_a3), Arg::Word(v_a4)].drop_first() =~= seq![Arg::Word(v_a3), Arg::Word(v_a4)]);
    }
    assert(encode_args(seq![Arg::Word(v_a1), Arg::Word(v_a2), Arg::Word(v_a3), Arg::Word(v_a4)]) == join(encode_arg(Arg::Word(v_a1)), encode_args(seq![Arg::Word(v_a2), Arg::Word(v_a3), Arg::Word(v_a4)]))) by {
        assert(seq![Arg::Word(v_a1), Arg::Word(v_a2), Arg::Word(v_a3), Arg::Word(v_a4)].drop_first() =~= seq![Arg::Word(v_a2), Arg::Word(v_a3), Arg::Word(v_a4)]);
    }
    assert(encode_args(seq![Arg::Word(v_a0), Arg::Word(v_a1), Arg::Word(v_a2), Arg::Word(v_a3), Arg::Word(v_a4)]) == join(encode_arg(Arg::Word(v_a0)), encode_args(seq![Arg::Word(v_a1), Arg::Word(v_a2), Arg::Word(v_a3), Arg::Word(v_a4)]))) by {
        assert(seq![Arg::Word(v_a0), Arg::Word(v_a1), Arg::Word(v_a2), Arg::Word(v_a3), Arg::Word(v_a4)].drop_first() =~= seq![Arg::Word(v_a1), Arg::Word(v_a2), Arg::Word(v_a3), Arg::Word(v_a4)]);
    }
    assert(encode_code((0x36u8, seq![Arg::Word(v_a0), Arg::Word(v_a1), Arg::Word(v_a2), Arg::Word(v_a3), Arg::Word(v_a4)])) == join(Some(seq![0x36u8]), encode_args(seq![Arg::Word(v_a0), Arg::Word(v_a1), Arg::Word(v_a2), Arg::Word(v_a3), Arg::Word(v_a4)])));
}

#[verifier::spinoff_prover]
#[verifier::rlimit(100)]
proof fn lemma_bytes_c37(v_a0: u16, v_a1: u16, v_a2: u16, v_a3: u16, v_a4: u16)
    ensures
        ({
            let c = Code::C37 { a0: v_a0, a1: v_a1, a2: v_a2, a3: v_a3, a4: v_a4 };
            encode_code((code_op(c), code_args(c))) == instruction_bytes(c)
        }),
{
    let c = Code::C37 { a0: v_a0, a1: v_a1, a2: v_a2, a3: v_a3, a4: v_a4 };
    assert(code_op(c) == 0x37u8);
    assert(code_args(c) == seq![Arg::Word(v_a0), Arg::Word(v_a1), Arg::Word(v_a2), Arg::Word(v_a3), Arg::Word(v_a4)]);
    assert(encode_args(Seq::<Arg>::empty()) == Some(Seq::<u8>::empty()));
    assert(encode_args(seq![Arg::Word(v_a4)]) == join(encode_arg(Arg::Word(v_a4)), encode_args(Seq::<Arg>::empty()))) by {
        assert(seq![Arg::Word(v_a4)].drop_first() =~= Seq::<Arg>::empty());
    }
    assert(encode_args(seq![Arg::Word(v_a3), Arg::Word(v_a4)]) == join(encode_arg(Arg::Word(v_a3)), encode_args(seq![Arg::Word(v_a4)]))) by {
        assert(seq![Arg::Word(v_a3), Arg::Word(v_a4)].drop_first() =~= seq![Arg::Word(v_a4)]);
    }
    assert(encode_args(seq![Arg::Word(v_a2), Arg::Word(v_a3), Arg::Word(v_a4)]) == join(encode_arg(Arg::Word(v_a2)), encode_args(seq![Arg::Word(v_a3), Arg::Word(v_a4)]))) by {
        assert(seq![Arg::Word(v_a2), Arg::Word(v_a3), Arg::Word(v_a4)].drop_first() =~= seq![Arg::Word(v_a3), Arg::Word(v_a4)]);
    }
    assert(encode_args(seq![Arg::Word(v_a1), Arg::Word(v_a2), Arg::Word(v_a3), Arg::Word(v_a4)]) == join(encode_arg(Arg::Word(v_a1)), encode_args(seq![Arg::Word(v_a2), Arg::Word(v_a3), Arg::Word(v_a4)]))) by {
        assert(seq![Arg::Word(v_a1), Arg::Word(v_a2), Arg::Word(v_a3), Arg::Word(v_a4)].drop_first() =~= seq![Arg::Word(v_a2), Arg::Word(v_a3), Arg::Word(v_a4)]);
    }
    assert(encode_args(seq![Arg::Word(v_a0), Arg::Word(v_a1), Arg::Word(v_a2), Arg::Word(v_a3), Arg::Word(v_a4)]) == join(encode_arg(Arg::Word(v_a0)), encode_args(seq![Arg::Word(v_a1), Arg::Word(v_a2), Arg::Word(v_a3), Arg::Word(v_a4)]))) by {
        assert(seq![Arg::Word(v_a0), Arg::Word(v_a1), Arg::Word(v_a2), Arg::Word(v_a3), Arg::Word(v_a4)].drop_first() =~= seq![Arg::Word(v_a1), Arg::Word(v_a2), Arg::Word(v_a3), Arg::Word(v_a4)]);
    }
    assert(encode_code((0x37u8, seq![Arg::Word(v_a0), Arg::Word(v_a1), Arg::Word(v_a2), Arg::Word(v_a3), Arg::Word(v_a4)])) == join(Some(seq![0x37u8]), encode_args(seq![Arg::Word(v_a0), Arg::Word(v_a1), Arg::Word(v_a2), Arg::Word(v_a3), Arg::Word(v_a4)])));
}

#[verifier::spinoff_prover]
#[verifier::rlimit(100)]
proof fn lemma_bytes_c38(v_a0: u16, v_a1: u16, v_a2: u16)
    ensures
        ({
            let c = Code::C38 { a0: v_a0, a1: v_a1, a2: v_a2 };
            encode_code((code_op(c), code_args(c))) == instruction_bytes(c)
        }),
{
    let c = Code::C38 { a0: v_a0, a1: v_a1, a2: v_a2 };
    assert(code_op(c) == 0x38u8);
    assert(code_args(c) == seq![Arg::Word(v_a0), Arg::Word(v_a1), Arg::Word(v_a2)]);
    assert(encode_args(Seq::<Arg>::empty()) == Some(Seq::<u8>::empty()));
    assert(encode_args(seq![Arg::Word(v_a2)]) == join(encode_arg(Arg::Word(v_a2)), encode_args(Seq::<Arg>::empty()))) by {
        assert(seq![Arg::Word(v_a2)].drop_first() =~= Seq::<Arg>::empty());
    }
    assert(encode_args(seq![Arg::Word(v_a1), Arg::Word(v_a2)]) == join(encode_arg(Arg::Word(v_a1)), encode_args(seq![Arg::Word(v_a2)]))) by {
        assert(seq![Arg::Word(v_a1), Arg::Word(v_a2)].drop_first() =~= seq![Arg::Word(v_a2)]);
    }
    assert(encode_args(seq![Arg::Word(v_a0), Arg::Word(v_a1), Arg::Word(v_a2)]) == join(encode_arg(Arg::Word(v_a0)), encode_args(seq![Arg::Word(v_a1), Arg::Word(v_a2)]))) by {
        assert(seq![Arg::Word(v_a0), Arg::Word(v_a1), Arg::Word(v_a2)].drop_first() =~= seq![Arg::Word(v_a1), Arg::Word(v_a2)]);
    }
    assert(encode_code((0x38u8, seq![Arg::Word(v_a0), Arg::Word(v_a1), Arg::Word(v_a2)])) == join(Some(seq![0x38u8]), encode_args(seq![Arg::Word(v_a0), Arg::Word(v_a1), Arg::Word(v_a2)])));
}

#[verifier::spinoff_prover]
#[verifier::rlimit(100)]
proof fn lemma_bytes_c39(v_a0: u16, v_a1: u16, v_a2: u16)
    ensures
        ({
            let c = Code::C39 { a0: v_a0, a1: v_a1, a2: v_a2 };
            encode_code((code_op(c), code_args(c))) == instruction_bytes(c)
        }),
{
    let c = Code::C39 { a0: v_a0, a1: v_a1, a2: v_a2 };
    assert(code_op(c) == 0x39u8);
    assert(code_args(c) == seq![Arg::Word(v_a0), Arg::Word(v_a1), Arg::Word(v_a2)]);
    assert(encode_args(Seq::<Arg>::empty()) == Some(Seq::<u8>::empty()));
    assert(encode_args(seq![Arg::Word(v_a2)]) == join(encode_arg(Arg::Word(v_a2)), encode_args(Seq::<Arg>::empty()))) by {
        assert(seq![Arg::Word(v_a2)].drop_first() =~= Seq::<Arg>::empty());
    }
    assert(encode_args(seq![Arg::Word(v_a1), Arg::Word(v_a2)]) == join(encode_arg(Arg::Word(v_a1)), encode_args(seq![Arg::Word(v_a2)]))) by {
        assert(seq![Arg::Word(v_a1), Arg::Word(v_a2)].drop_first() =~= seq![Arg::Word(v_a2)]);
    }
    assert(encode_args(seq![Arg::Word(v_a0), Arg::Word(v_a1), Arg::Word(v_a2)]) == join(encode_arg(Arg::Word(v_a0)), encode_args(seq![Arg::Word(v_a1), Arg::Word(v_a2)]))) by {
        assert(seq![Arg::Word(v_a0), Arg::Word(v_a1), Arg::Word(v_a2)].drop_first() =~= seq![Arg::Word(v_a1), Arg::Word(v_a2)]);
    }
    assert(encode_code((0x39u8, seq![Arg::Word(v_a0), Arg::Word(v_a1), Arg::Word(v_a2)])) == join(Some(seq![0x39u8]), encode_args(seq![Arg::Word(v_a0), Arg::Word(v_a1), Arg::Word(v_a2)])));
}

#[verifier::spinoff_prover]
#[verifier::rlimit(100)]
proof fn lemma_bytes_c3a(v_a0: u16, v_a1: u16)
    ensures
        ({
            let c = Code::C3A { a0: v_a0, a1: v_a1 };
            encode_code((code_op(c), code_args(c))) == instruction_bytes(c)
        }),
{
    let c = Code::C3A { a0: v_a0, a1: v_a1 };
    assert(code_op(c) == 0x3Au8);
    assert(code_args(c) == seq![Arg::Word(v_a0), Arg::Word(v_a1)]);
    assert(encode_args(Seq::<Arg>::empty()) == Some(Seq::<u8>::empty()));
    assert(encode_args(seq![Arg::Word(v_a1)]) == join(encode_arg(Arg::Word(v_a1)), encode_args(Seq::<Arg>::empty()))) by {
        assert(seq![Arg::Word(v_a1)].drop_first() =~= Seq::<Arg>::empty());
    }
    assert(encode_args(seq![Arg::Word(v_a0), Arg::Word(v_a1)]) == join(encode_arg(Arg::Word(v_a0)), encode_args(seq![Arg::Word(v_a1)]))) by {
        assert(seq![Arg::Word(v_a0), Arg::Word(v_a1)].drop_first() =~= seq![Arg::Word(v_a1)]);
    }
    assert(encode_code((0x3Au8, seq![Arg::Word(v_a0), Arg::Word(v_a1)])) == join(Some(seq![0x3Au8]), encode_args(seq![Arg::Word(v_a0), Arg::Word(v_a1)])));
}

#[verifier::spinoff_prover]
#[verifier::rlimit(100)]
proof fn lemma_bytes_c3b(v_a0: u16, v_len: u16, v_str: String)
    ensures
        ({
            let c = Code::C3B { a0: v_a0, len: v_len, str: v_str };
            encode_code((code_op(c), code_args(c))) == instruction_bytes(c)
        }),
{
    let c = Code::C3B { a0: v_a0, len: v_len, str: v_str };
    assert(code_op(c) == 0x3Bu8);
    assert(code_args(c) == seq![Arg::Word(v_a0), Arg::Fixed(v_len, v_str@)]);
    assert(encode_args(Seq::<Arg>::empty()) == Some(Seq::<u8>::empty()));
    assert(encode_args(seq![Arg::Fixed(v_len, v_str@)]) == join(encode_arg(Arg::Fixed(v_len, v_str@)), encode_args(Seq::<Arg>::empty()))) by {
        assert(seq![Arg::Fixed(v_len, v_str@)].drop_first() =~= Seq::<Arg>::empty());
    }
    assert(encode_args(seq![Arg::Word(v_a0), Arg::Fixed(v_len, v_str@)]) == join(encode_arg(Arg::Word(v_a0)), encode_args(seq![Arg::Fixed(v_len, v_str@)]))) by {
        assert(seq![Arg::Word(v_a0), Arg::Fixed(v_len, v_str@)].drop_first() =~= seq![Arg::Fixed(v_len, v_str@)]);
    }
    assert(encode_arg(Arg::Fixed(v_len, v_str@)) == fixed_text_bytes(v_str@)) by {
        reveal(fixed_text_bytes);
    }
    assert(encode_code((0x3Bu8, seq![Arg::Word(v_a0), Arg::Fixed(v_len, v_str@)])) == join(Some(seq![0x3Bu8]), encode_args(seq![Arg::Word(v_a0), Arg::Fixed(v_len, v_str@)])));
}

#[verifier::spinoff_prover]
#[verifier::rlimit(100)]
proof fn lemma_bytes_c3c(v_jump: u16, v_a1: u16)
    ensures
        ({
            let c = Code::C3C { jump: v_jump, a1: v_a1 };
            encode_code((code_op(c), code_args(c))) == instruction_bytes(c)
        }),
{
    let c = Code::C3C { jump: v_jump, a1: v_a1 };
    assert(code_op(c) == 0x3Cu8);
    assert(code_args(c) == seq![Arg::Word(v_jump), Arg::Word(v_a1)]);
    assert(encode_args(Seq::<Arg>::empty()) == Some(Seq::<u8>::empty()));
    assert(encode_args(seq![Arg::Word(v_a1)]) == join(encode_arg(Arg::Word(v_a1)), encode_args(Seq::<Arg>::empty()))) by {
        assert(seq![Arg::Word(v_a1)].drop_first() =~= Seq::<Arg>::empty());
    }
    assert(encode_args(seq![Arg::Word(v_jump), Arg::Word(v_a1)]) == join(encode_arg(Arg::Word(v_jump)), encode_args(seq![Arg::Word(v_a1)]))) by {
        assert(seq![Arg::Word(v_jump), Arg::Word(v_a1)].drop_first() =~= seq![Arg::Word(v_a1)]);
    }
    assert(encode_code((0x3Cu8, seq![Arg::Word(v_jump), Arg::Word(v_a1)])) == join(Some(seq![0x3Cu8]), encode_args(seq![Arg::Word(v_jump), Arg::Word(v_a1)])));
}

#[verifier::spinoff_prover]
#[verifier::rlimit(100)]
proof fn lemma_bytes_c3d(v_a0: u8)
    ensures
        ({
            let c = Code::C3D { a0: v_a0 };
            encode_code((code_op(c), code_args(c))) == instruction_bytes(c)
        }),
{
    let c = Code::C3D { a0: v_a0 };
    assert(code_op(c) == 0x3Du8);
    assert(code_args(c) == seq![Arg::Byte(v_a0)]);
    assert(encode_args(Seq::<Arg>::empty()) == Some(Seq::<u8>::empty()));
    assert(encode_args(seq![Arg::Byte(v_a0)]) == join(encode_arg(Arg::Byte(v_a0)), encode_args(Seq::<Arg>::empty()))) by {
        assert(seq![Arg::Byte(v_a0)].drop_first() =~= Seq::<Arg>::empty());
    }
    assert(encode_code((0x3Du8, seq![Arg::Byte(v_a0)])) == join(Some(seq![0x3Du8]), encode_args(seq![Arg::Byte(v_a0)])));
}

#[verifier::spinoff_prover]
#[verifier::rlimit(100)]
proof fn lemma_bytes_c3e(v_a0: u8)
    ensures
        ({
            let c = Code::C3E { a0: v_a0 };
            encode_code((code_op(c), code_args(c))) == instruction_bytes(c)
        }),
{
    let c = Code::C3E { a0: v_a0 };
    assert(code_op(c) == 0x3Eu8);
    assert(code_args(c) == seq![Arg::Byte(v_a0)]);
    assert(encode_args(Seq::<Arg>::empty()) == Some(Seq::<u8>::empty()));
    assert(encode_args(seq![Arg::Byte(v_a0)]) == join(encode_arg(Arg::Byte(v_a0)), encode_args(Seq::<Arg>::empty()))) by {
        assert(seq![Arg::Byte(v_a0)].drop_first() =~= Seq::<Arg>::empty());
    }
    assert(encode_code((0x3Eu8, seq![Arg::Byte(v_a0)])) == join(Some(seq![0x3Eu8]), encode_args(seq![Arg::Byte(v_a0)])));
}

#[verifier::spinoff_prover]
#[verifier::rlimit(100)]
proof fn lemma_bytes_c3f(v_a0: u8)
    ensures
        ({
            let c = Code::C3F { a0: v_a0 };
            encode_code((code_op(c), code_args(c))) == instruction_bytes(c)
        }),
{
    let c = Code::C3F { a0: v_a0 };
    assert(code_op(c) == 0x3Fu8);
    assert(code_args(c) == seq![Arg::Byte(v_a0)]);
    assert(encode_args(Seq::<Arg>::empty()) == Some(Seq::<u8>::empty()));
    assert(encode_args(seq![Arg::Byte(v_a0)]) == join(encode_arg(Arg::Byte(v_a0)), encode_args(Seq::<Arg>::empty()))) by {
        assert(seq![Arg::Byte(v_a0)].drop_first() =~= Seq::<Arg>::empty());
    }
    assert(encode_code((0x3Fu8, seq![Arg::Byte(v_a0)])) == join(Some(seq![0x3Fu8]), encode_args(seq![Arg::Byte(v_a0)])));
}

#[verifier::spinoff_prover]
#[verifier::rlimit(100)]
proof fn lemma_bytes_c40(v_a0: u8)
    ensures
        ({
            let c = Code::C40 { a0: v_a0 };
            encode_code((code_op(c), code_args(c))) == instruction_bytes(c)
        }),
{
    let c = Code::C40 { a0: v_a0 };
    assert(code_op(c) == 0x40u8);
    assert(code_args(c) == seq![Arg::Byte(v_a0)]);
    assert(encode_args(Seq::<Arg>::empty()) == Some(Seq::<u8>::empty()));
    assert(encode_args(seq![Arg::Byte(v_a0)]) == join(encode_arg(Arg::Byte(v_a0)), encode_args(Seq::<Arg>::empty()))) by {
        assert(seq![Arg::Byte(v_a0)].drop_first() =~= Seq::<Arg>::empty());
    }
    assert(encode_code((0x40u8, seq![Arg::Byte(v_a0)])) == join(Some(seq![0x40u8]), encode_args(seq![Arg::Byte(v_a0)])));
}

#[verifier::spinoff_prover]
#[verifier::rlimit(100)]
proof fn lemma_bytes_c41(v_a0: u8)
    ensures
        ({
            let c = Code::C41 { a0: v_a0 };
            encode_code((code_op(c), code_args(c))) == instruction_bytes(c)
        }),
{
    let c = Code::C41 { a0: v_a0 };
    assert(code_op(c) == 0x41u8);
    assert(code_args(c) == seq![Arg::Byte(v_a0)]);
    assert(encode_args(Seq::<Arg>::empty()) == Some(Seq::<u8>::empty()));
    assert(encode_args(seq![Arg::Byte(v_a0)]) == join(encode_arg(Arg::Byte(v_a0)), encode_args(Seq::<Arg>::empty()))) by {
        assert(seq![Arg::Byte(v_a0)].drop_first() =~= Seq::<Arg>::empty());
    }
    assert(encode_code((0x41u8, seq![Arg::Byte(v_a0)])) == join(Some(seq![0x41u8]), encode_args(seq![Arg::Byte(v_a0)])));
}

#[verifier::spinoff_prover]
#[verifier::rlimit(100)]
proof fn lemma_bytes_c42(v_a0: u16)
    ensures
        ({
            let c = Code::C42 { a0: v_a0 };
            encode_code((code_op(c), code_args(c))) == instruction_bytes(c)
        }),
{
    let c = Code::C42 { a0: v_a0 };
    assert(code_op(c) == 0x42u8);
    assert(code_args(c) == seq![Arg::Word(v_a0)]);
    assert(encode_args(Seq::<Arg>::empty()) == Some(Seq::<u8>::empty()));
    assert(encode_args(seq![Arg::Word(v_a0)]) == join(encode_arg(Arg::Word(v_a0)), encode_args(Seq::<Arg>::empty()))) by {
        assert(seq![Arg::Word(v_a0)].drop_first() =~= Seq::<Arg>::empty());
    }
    assert(encode_code((0x42u8, seq![Arg::Word(v_a0)])) == join(Some(seq![0x42u8]), encode_args(seq![Arg::Word(v_a0)])));
}

#[verifier::spinoff_prover]
#[verifier::rlimit(100)]
proof fn lemma_bytes_c43(v_a0: u16)
    ensures
        ({
            let c = Code::C43 { a0: v_a0 };
            encode_code((code_op(c), code_args(c))) == instruction_bytes(c)
        }),
{
    let c = Code::C43 { a0: v_a0 };
    assert(code_op(c) == 0x43u8);
    assert(code_args(c) == seq![Arg::Word(v_a0)]);
    assert(encode_args(Seq::<Arg>::empty()) == Some(Seq::<u8>::empty()));
    assert(encode_args(seq![Arg::Word(v_a0)]) == join(encode_arg(Arg::Word(v_a0)), encode_args(Seq::<Arg>::empty()))) by {
        assert(seq![Arg::Word(v_a0)].drop_first() =~= Seq::<Arg>::empty());
    }
    assert(encode_code((0x43u8, seq![Arg::Word(v_a0)])) == join(Some(seq![0x43u8]), encode_args(seq![Arg::Word(v_a0)])));
}

#[verifier::spinoff_prover]
#[verifier::rlimit(100)]
proof fn lemma_bytes_c44(v_a0: u16, v_a1: u16)
    ensures
        ({
            let c = Code::C44 { a0: v_a0, a1: v_a1 };
            encode_code((code_op(c), code_args(c))) == instruction_bytes(c)
        }),
{
    let c = Code::C44 { a0: v_a0, a1: v_a1 };
    assert(code_op(c) == 0x44u8);
    assert(code_args(c) == seq![Arg::Word(v_a0), Arg::Word(v_a1)]);
    assert(encode_args(Seq::<Arg>::empty()) == Some(Seq::<u8>::empty()));
    assert(encode_args(seq![Arg::Word(v_a1)]) == join(encode_arg(Arg::Word(v_a1)), encode_args(Seq::<Arg>::empty()))) by {
        assert(seq![Arg::Word(v_a1)].drop_first() =~= Seq::<Arg>::empty());
    }
    assert(encode_args(seq![Arg::Word(v_a0), Arg::Word(v_a1)]) == join(encode_arg(Arg::Word(v_a0)), encode_args(seq![Arg::Word(v_a1)]))) by {
        assert(seq![Arg::Word(v_a0), Arg::Word(v_a1)].drop_first() =~= seq![Arg::Word(v_a1)]);
    }
    assert(encode_code((0x44u8, seq![Arg::Word(v_a0), Arg::Word(v_a1)])) == join(Some(seq![0x44u8]), encode_args(seq![Arg::Word(v_a0), Arg::Word(v_a1)])));
}

#[verifier::spinoff_prover]
#[verifier::rlimit(100)]
proof fn lemma_bytes_c45(v_a0: u8)
    ensures
        ({
            let c = Code::C45 { a0: v_a0 };
            encode_code((code_op(c), code_args(c))) == instruction_bytes(c)
        }),
{
    let c = Code::C45 { a0: v_a0 };
    assert(code_op(c) == 0x45u8);
    assert(code_args(c) == seq![Arg::Byte(v_a0)]);
    assert(encode_args(Seq::<Arg>::empty()) == Some(Seq::<u8>::empty()));
    assert(encode_args(seq![Arg::Byte(v_a0)]) == join(encode_arg(Arg::Byte(v_a0)), encode_args(Seq::<Arg>::empty()))) by {
        assert(seq![Arg::Byte(v_a0)].drop_first() =~= Seq::<Arg>::empty());
    }
    assert(encode_code((0x45u8, seq![Arg::Byte(v_a0)])) == join(Some(seq![0x45u8]), encode_args(seq![Arg::Byte(v_a0)])));
}

#[verifier::spinoff_prover]
#[verifier::rlimit(100)]
proof fn lemma_bytes_c46()
    ensures
        ({
            let c = Code::C46 {  };
            encode_code((code_op(c), code_args(c))) == instruction_bytes(c)
        }),
{
    let c = Code::C46 {  };
    assert(code_op(c) == 0x46u8);
    assert(code_args(c) == Seq::<Arg>::empty());
    assert(encode_args(Seq::<Arg>::empty()) == Some(Seq::<u8>::empty()));
    assert(encode_code((0x46u8, Seq::<Arg>::empty())) == join(Some(seq![0x46u8]), encode_args(Seq::<Arg>::empty())));
}

#[verifier::spinoff_prover]
#[verifier::rlimit(100)]
proof fn lemma_bytes_c47(v_a0: u8)
    ensures
        ({
            let c = Code::C47 { a0: v_a0 };
            encode_code((code_op(c), code_args(c))) == instruction_bytes(c)
        }),
{
    let c = Code::C47 { a0: v_a0 };
    assert(code_op(c) == 0x47u8);
    assert(code_args(c) == seq![Arg::Byte(v_a0)]);
    assert(encode_args(Seq::<Arg>::empty()) == Some(Seq::<u8>::empty()));
    assert(encode_args(seq![Arg::Byte(v_a0)]) == join(encode_arg(Arg::Byte(v_a0)), encode_args(Seq::<Arg>::empty()))) by {
        assert(seq![Arg::Byte(v_a0)].drop_first() =~= Seq::<Arg>::empty());
    }
    assert(encode_code((0x47u8, seq![Arg::Byte(v_a0)])) == join(Some(seq![0x47u8]), encode_args(seq![Arg::Byte(v_a0)])));
}

#[verifier::spinoff_prover]
#[verifier::rlimit(100)]
proof fn lemma_bytes_c48(v_a0: u8)
    ensures
        ({
            let c = Code::C48 { a0: v_a0 };
            encode_code((code_op(c), code_args(c))) == instruction_bytes(c)
        }),
{
    let c = Code::C48 { a0: v_a0 };
    assert(code_op(c) == 0x48u8);
    assert(code_args(c) == seq![Arg::Byte(v_a0)]);
    assert(encode_args(Seq::<Arg>::empty()) == Some(Seq::<u8>::empty()));
    assert(encode_args(seq![Arg::Byte(v_a0)]) == join(encode_arg(Arg::Byte(v_a0)), encode_args(Seq::<Arg>::empty()))) by {
        assert(seq![Arg::Byte(v_a0)].drop_first() =~= Seq::<Arg>::empty());
    }
    assert(encode_code((0x48u8, seq![Arg::Byte(v_a0)])) == join(Some(seq![0x48u8]), encode_args(seq![Arg::Byte(v_a0)])));
}

#[verifier::spinoff_prover]
#[verifier::rlimit(100)]
proof fn lemma_bytes_c49(v_a0: u16)
    ensures
        ({
            let c = Code::C49 { a0: v_a0 };
            encode_code((code_op(c), code_args(c))) == instruction_bytes(c)
        }),
{
    let c = Code::C49 { a0: v_a0 };
    assert(code_op(c) == 0x49u8);
    assert(code_args(c) == seq![Arg::Word(v_a0)]);
    assert(encode_args(Seq::<Arg>::empty()) == Some(Seq::<u8>::empty()));
    assert(encode_args(seq![Arg::Word(v_a0)]) == join(encode_arg(Arg::Word(v_a0)), encode_args(Seq::<Arg>::empty()))) by {
        assert(seq![Arg::Word(v_a0)].drop_first() =~= Seq::<Arg>::empty());
    }
    assert(encode_code((0x49u8, seq![Arg::Word(v_a0)])) == join(Some(seq![0x49u8]), encode_args(seq![Arg::Word(v_a0)])));
}

#[verifier::spinoff_prover]
#[verifier::rlimit(100)]
proof fn lemma_bytes_c4a(v_a0: u16, v_a1: u8)
    ensures
        ({
            let c = Code::C4A { a0: v_a0, a1: v_a1 };
            encode_code((code_op(c), code_args(c))) == instruction_bytes(c)
        }),
{
    let c = Code::C4A { a0: v_a0, a1: v_a1 };
    assert(code_op(c) == 0x4Au8);
    assert(code_args(c) == seq![Arg::Word(v_a0), Arg::Byte(v_a1)]);
    assert(encode_args(Seq::<Arg>::empty()) == Some(Seq::<u8>::empty()));
    assert(encode_args(seq![Arg::Byte(v_a1)]) == join(encode_arg(Arg::Byte(v_a1)), encode_args(Seq::<Arg>::empty()))) by {
        assert(seq![Arg::Byte(v_a1)].drop_first() =~= Seq::<Arg>::empty());
    }
    assert(encode_args(seq![Arg::Word(v_a0), Arg::Byte(v_a1)]) == join(encode_arg(Arg::Word(v_a0)), encode_args(seq![Arg::Byte(v_a1)]))) by {
        assert(seq![Arg::Word(v_a0), Arg::Byte(v_a1)].drop_first() =~= seq![Arg::Byte(v_a1)]);
    }
    assert(encode_code((0x4Au8, seq![Arg::Word(v_a0), Arg::Byte(v_a1)])) == join(Some(seq![0x4Au8]), encode_args(seq![Arg::Word(v_a0), Arg::Byte(v_a1)])));
}

#[verifier::spinoff_prover]
#[verifier::rlimit(100)]
proof fn lemma_bytes_c4b(v_a0: u16, v_a1: u8)
    ensures
        ({
            let c = Code::C4B { a0: v_a0, a1: v_a1 };
            encode_code((code_op(c), code_args(c))) == instruction_bytes(c)
        }),
{
    let c = Code::C4B { a0: v_a0, a1: v_a1 };
    assert(code_op(c) == 0x4Bu8);
    assert(code_args(c) == seq![Arg::Word(v_a0), Arg::Byte(v_a1)]);
    assert(encode_args(Seq::<Arg>::empty()) == Some(Seq::<u8>::empty()));
    assert(encode_args(seq![Arg::Byte(v_a1)]) == join(encode_arg(Arg::Byte(v_a1)), encode_args(Seq::<Arg>::empty()))) by {
        assert(seq![Arg::Byte(v_a1)].drop_first() =~= Seq::<Arg>::empty());
    }
    assert(encode_args(seq![Arg::Word(v_a0), Arg::Byte(v_a1)]) == join(encode_arg(Arg::Word(v_a0)), encode_args(seq![Arg::Byte(v_a1)]))) by {
        assert(seq![Arg::Word(v_a0), Arg::Byte(v_a1)].drop_first() =~= seq![Arg::Byte(v_a1)]);
    }
    assert(encode_code((0x4Bu8, seq![Arg::Word(v_a0), Arg::Byte(v_a1)])) == join(Some(seq![0x4Bu8]), encode_args(seq![Arg::Word(v_a0), Arg::Byte(v_a1)])));
}

#[verifier::spinoff_prover]
#[verifier::rlimit(100)]
proof fn lemma_bytes_c4c(v_a0: u8)
    ensures
        ({
            let c = Code::C4C { a0: v_a0 };
            encode_code((code_op(c), code_args(c))) == instruction_bytes(c)
        }),
{
    let c = Code::C4C { a0: v_a0 };
    assert(code_op(c) == 0x4Cu8);
    assert(code_args(c) == seq![Arg::Byte(v_a0)]);
    assert(encode_args(Seq::<Arg>::empty()) == Some(Seq::<u8>::empty()));
    assert(encode_args(seq![Arg::Byte(v_a0)]) == join(encode_arg(Arg::Byte(v_a0)), encode_args(Seq::<Arg>::empty()))) by {
        assert(seq![Arg::Byte(v_a0)].drop_first() =~= Seq::<Arg>::empty());
    }
    assert(encode_code((0x4Cu8, seq![Arg::Byte(v_a0)])) == join(Some(seq![0x4Cu8]), encode_args(seq![Arg::Byte(v_a0)])));
}

#[verifier::spinoff_prover]
#[verifier::rlimit(100)]
proof fn lemma_bytes_c4d(v_a0: u8)
    ensures
        ({
            let c = Code::C4D { a0: v_a0 };
            encode_code((code_op(c), code_args(c))) == instruction_bytes(c)
        }),
{
    let c = Code::C4D { a0: v_a0 };
    assert(code_op(c) == 0x4Du8);
    assert(code_args(c) == seq![Arg::Byte(v_a0)]);
    assert(encode_args(Seq::<Arg>::empty()) == Some(Seq::<u8>::empty()));
    assert(encode_args(seq![Arg::Byte(v_a0)]) == join(encode_arg(Arg::Byte(v_a0)), encode_args(Seq::<Arg>::empty()))) by {
        assert(seq![Arg::Byte(v_a0)].drop_first() =~= Seq::<Arg>::empty());
    }
    assert(encode_code((0x4Du8, seq![Arg::Byte(v_a0)])) == join(Some(seq![0x4Du8]), encode_args(seq![Arg::Byte(v_a0)])));
}

#[verifier::spinoff_prover]
#[verifier::rlimit(100)]
proof fn lemma_bytes_c4e()
    ensures
        ({
            let c = Code::C4E {  };
            encode_code((code_op(c), code_args(c))) == instruction_bytes(c)
        }),
{
    let c = Code::C4E {  };
    assert(code_op(c) == 0x4Eu8);
    assert(code_args(c) == Seq::<Arg>::empty());
    assert(encode_args(Seq::<Arg>::empty()) == Some(Seq::<u8>::empty()));
    assert(encode_code((0x4Eu8, Seq::<Arg>::empty())) == join(Some(seq![0x4Eu8]), encode_args(Seq::<Arg>::empty())));
}

#[verifier::spinoff_prover]
#[verifier::rlimit(100)]
proof fn lemma_bytes_c4f(v_a0: u16)
    ensures
        ({
            let c = Code::C4F { a0: v_a0 };
            encode_code((code_op(c), code_args(c))) == instruction_bytes(c)
        }),
{
    let c = Code::C4F { a0: v_a0 };
    assert(code_op(c) == 0x4Fu8);
    assert(code_args(c) == seq![Arg::Word(v_a0)]);
    assert(encode_args(Seq::<Arg>::empty()) == Some(Seq::<u8>::empty()));
    assert(encode_args(seq![Arg::Word(v_a0)]) == join(encode_arg(Arg::Word(v_a0)), encode_args(Seq::<Arg>::empty()))) by {
        assert(seq![Arg::Word(v_a0)].drop_first() =~= Seq::<Arg>::empty());
    }
    assert(encode_code((0x4Fu8, seq![Arg::Word(v_a0)])) == join(Some(seq![0x4Fu8]), encode_args(seq![Arg::Word(v_a0)])));
}

#[verifier::spinoff_prover]
#[verifier::rlimit(100)]
proof fn lemma_bytes_c50(v_a0: u16, v_a1: u32)
    ensures
        ({
            let c = Code::C50 { a0: v_a0, a1: v_a1 };
            encode_code((code_op(c), code_args(c))) == instruction_bytes(c)
        }),
{
    let c = Code::C50 { a0: v_a0, a1: v_a1 };
    assert(code_op(c) == 0x50u8);
    assert(code_args(c) == seq![Arg::Word(v_a0), Arg::Dword(v_a1)]);
    assert(encode_args(Seq::<Arg>::empty()) == Some(Seq::<u8>::empty()));
    assert(encode_args(seq![Arg::Dword(v_a1)]) == join(encode_arg(Arg::Dword(v_a1)), encode_args(Seq::<Arg>::empty()))) by {
        assert(seq![Arg::Dword(v_a1)].drop_first() =~= Seq::<Arg>::empty());
    }
    assert(encode_args(seq![Arg::Word(v_a0), Arg::Dword(v_a1)]) == join(encode_arg(Arg::Word(v_a0)), encode_args(seq![Arg::Dword(v_a1)]))) by {
        assert(seq![Arg::Word(v_a0), Arg::Dword(v_a1)].drop_first() =~= seq![Arg::Dword(v_a1)]);
    }
    assert(encode_code((0x50u8, seq![Arg::Word(v_a0), Arg::Dword(v_a1)])) == join(Some(seq![0x50u8]), encode_args(seq![Arg::Word(v_a0), Arg::Dword(v_a1)])));
}

#[verifier::spinoff_prover]
#[verifier::rlimit(100)]
proof fn lemma_bytes_c51()
    ensures
        ({
            let c = Code::C51 {  };
            encode_code((code_op(c), code_args(c))) == instruction_bytes(c)
        }),
{
    let c = Code::C51 {  };
    assert(code_op(c) == 0x51u8);
    assert(code_args(c) == Seq::<Arg>::empty());
    assert(encode_args(Seq::<Arg>::empty()) == Some(Seq::<u8>::empty()));
    assert(encode_code((0x51u8, Seq::<Arg>::empty())) == join(Some(seq![0x51u8]), encode_args(Seq::<Arg>::empty())));
}

#[verifier::spinoff_prover]
#[verifier::rlimit(100)]
proof fn lemma_bytes_c52(v_a0: u16, v_len: u16, v_str: String)
    ensures
        ({
            let c = Code::C52 { a0: v_a0, len: v_len, str: v_str };
            encode_code((code_op(c), code_args(c))) == instruction_bytes(c)
        }),
{
    let c = Code::C52 { a0: v_a0, len: v_len, str: v_str };
    assert(code_op(c) == 0x52u8);
    assert(code_args(c) == seq![Arg::Word(v_a0), Arg::Fixed(v_len, v_str@)]);
    assert(encode_args(Seq::<Arg>::empty()) == Some(Seq::<u8>::empty()));
    assert(encode_args(seq![Arg::Fixed(v_len, v_str@)]) == join(encode_arg(Arg::Fixed(v_len, v_str@)), encode_args(Seq::<Arg>::empty()))) by {
        assert(seq![Arg::Fixed(v_len, v_str@)].drop_first() =~= Seq::<Arg>::empty());
    }
    assert(encode_args(seq![Arg::Word(v_a0), Arg::Fixed(v_len, v_str@)]) == join(encode_arg(Arg::Word(v_a0)), encode_args(seq![Arg::Fixed(v_len, v_str@)]))) by {
        assert(seq![Arg::Word(v_a0), Arg::Fixed(v_len, v_str@)].drop_first() =~= seq![Arg::Fixed(v_len, v_str@)]);
    }
    assert(encode_arg(Arg::Fixed(v_len, v_str@)) == fixed_text_bytes(v_str@)) by {
        reveal(fixed_text_bytes);
    }
    assert(encode_code((0x52u8, seq![Arg::Word(v_a0), Arg::Fixed(v_len, v_str@)])) == join(Some(seq![0x52u8]), encode_args(seq![Arg::Word(v_a0), Arg::Fixed(v_len, v_str@)])));
}

#[verifier::spinoff_prover]
#[verifier::rlimit(100)]
proof fn lemma_bytes_c53(v_a0: u16)
    ensures
        ({
            let c = Code::C53 { a0: v_a0 };
            encode_code((code_op(c), code_args(c))) == instruction_bytes(c)
        }),
{
    let c = Code::C53 { a0: v_a0 };
    assert(code_op(c) == 0x53u8);
    assert(code_args(c) == seq![Arg::Word(v_a0)]);
    assert(encode_args(Seq::<Arg>::empty()) == Some(Seq::<u8>::empty()));
    assert(encode_args(seq![Arg::Word(v_a0)]) == join(encode_arg(Arg::Word(v_a0)), encode_args(Seq::<Arg>::empty()))) by {
        assert(seq![Arg::Word(v_a0)].drop_first() =~= Seq::<Arg>::empty());
    }
    assert(encode_code((0x53u8, seq![Arg::Word(v_a0)])) == join(Some(seq![0x53u8]), encode_args(seq![Arg::Word(v_a0)])));
}

#[verifier::spinoff_prover]
#[verifier::rlimit(100)]
proof fn lemma_bytes_c54(v_xstr: String)
    ensures
        ({
            let c = Code::C54 { xstr: v_xstr };
            encode_code((code_op(c), code_args(c))) == instruction_bytes(c)
        }),
{
    let c = Code::C54 { xstr: v_xstr };
    assert(code_op(c) == 0x54u8);
    assert(code_args(c) == seq![Arg::EscText(v_xstr@)]);
    assert(encode_args(Seq::<Arg>::empty()) == Some(Seq::<u8>::empty()));
    assert(encode_args(seq![Arg::EscText(v_xstr@)]) == join(encode_arg(Arg::EscText(v_xstr@)), encode_args(Seq::<Arg>::empty()))) by {
        assert(seq![Arg::EscText(v_xstr@)].drop_first() =~= Seq::<Arg>::empty());
    }
    assert(encode_arg(Arg::EscText(v_xstr@)) == esc_text_bytes(v_xstr@)) by {
        reveal(esc_text_bytes);
    }
    assert(encode_code((0x54u8, seq![Arg::EscText(v_xstr@)])) == join(Some(seq![0x54u8]), encode_args(seq![Arg::EscText(v_xstr@)])));
}

#[verifier::spinoff_prover]
#[verifier::rlimit(100)]
proof fn lemma_bytes_c55()
    ensures
        ({
            let c = Code::C55 {  };
            encode_code((code_op(c), code_args(c))) == instruction_bytes(c)
        }),
{
    let c = Code::C55 {  };
    assert(code_op(c) == 0x55u8);
    assert(code_args(c) == Seq::<Arg>::empty());
    assert(encode_args(Seq::<Arg>::empty()) == Some(Seq::<u8>::empty()));
    assert(encode_code((0x55u8, Seq::<Arg>::empty())) == join(Some(seq![0x55u8]), encode_args(Seq::<Arg>::empty())));
}

#[verifier::spinoff_prover]
#[verifier::rlimit(100)]
proof fn lemma_bytes_c56(v_a0: u8)
    ensures
        ({
            let c = Code::C56 { a0: v_a0 };
            encode_code((code_op(c), code_args(c))) == instruction_bytes(c)
        }),
{
    let c = Code::C56 { a0: v_a0 };
    assert(code_op(c) == 0x56u8);
    assert(code_args(c) == seq![Arg::Byte(v_a0)]);
    assert(encode_args(Seq::<Arg>::empty()) == Some(Seq::<u8>::empty()));
    assert(encode_args(seq![Arg::Byte(v_a0)]) == join(encode_arg(Arg::Byte(v_a0)), encode_args(Seq::<Arg>::empty()))) by {
        assert(seq![Arg::Byte(v_a0)].drop_first() =~= Seq::<Arg>::empty());
    }
    assert(encode_code((0x56u8, seq![Arg::Byte(v_a0)])) == join(Some(seq![0x56u8]), encode_args(seq![Arg::Byte(v_a0)])));
}

#[verifier::spinoff_prover]
#[verifier::rlimit(100)]
proof fn lemma_bytes_c57(v_a0: u16)
    ensures
        ({
            let c = Code::C57 { a0: v_a0 };
            encode_code((code_op(c), code_args(c))) == instruction_bytes(c)
        }),
{
    let c = Code::C57 { a0: v_a0 };
    assert(code_op(c) == 0x57u8);
    assert(code_args(c) == seq![Arg::Word(v_a0)]);
    assert(encode_args(Seq::<Arg>::empty()) == Some(Seq::<u8>::empty()));
    assert(encode_args(seq![Arg::Word(v_a0)]) == join(encode_arg(Arg::Word(v_a0)), encode_args(Seq::<Arg>::empty()))) by {
        assert(seq![Arg::Word(v_a0)].drop_first() =~= Seq::<Arg>::empty());
    }
    assert(encode_code((0x57u8, seq![Arg::Word(v_a0)])) == join(Some(seq![0x57u8]), encode_args(seq![Arg::Word(v_a0)])));
}

#[verifier::spinoff_prover]
#[verifier::rlimit(100)]
proof fn lemma_bytes_c58(v_a0: u16)
    ensures
        ({
            let c = Code::C58 { a0: v_a0 };
            encode_code((code_op(c), code_args(c))) == instruction_bytes(c)
        }),
{
    let c = Code::C58 { a0: v_a0 };
    assert(code_op(c) == 0x58u8);
    assert(code_args(c) == seq![Arg::Word(v_a0)]);
    assert(encode_args(Seq::<Arg>::empty()) == Some(Seq::<u8>::empty()));
    assert(encode_args(seq![Arg::Word(v_a0)]) == join(encode_arg(Arg::Word(v_a0)), encode_args(Seq::<Arg>::empty()))) by {
        assert(seq![Arg::Word(v_a0)].drop_first() =~= Seq::<Arg>::empty());
    }
    assert(encode_code((0x58u8, seq![Arg::Word(v_a0)])) == join(Some(seq![0x58u8]), encode_args(seq![Arg::Word(v_a0)])));
}

#[verifier::spinoff_prover]
#[verifier::rlimit(100)]
proof fn lemma_bytes_c59(v_a0: u16)
    ensures
        ({
            let c = Code::C59 { a0: v_a0 };
            encode_code((code_op(c), code_args(c))) == instruction_bytes(c)
        }),
{
    let c = Code::C59 { a0: v_a0 };
    assert(code_op(c) == 0x59u8);
    assert(code_args(c) == seq![Arg::Word(v_a0)]);
    assert(encode_args(Seq::<Arg>::empty()) == Some(Seq::<u8>::empty()));
    assert(encode_args(seq![Arg::Word(v_a0)]) == join(encode_arg(Arg::Word(v_a0)), encode_args(Seq::<Arg>::empty()))) by {
        assert(seq![Arg::Word(v_a0)].drop_first() =~= Seq::<Arg>::empty());
    }
    assert(encode_code((0x59u8, seq![Arg::Word(v_a0)])) == join(Some(seq![0x59u8]), encode_args(seq![Arg::Word(v_a0)])));
}

#[verifier::spinoff_prover]
#[verifier::rlimit(100)]
proof fn lemma_bytes_c5a()
    ensures
        ({
            let c = Code::C5A {  };
            encode_code((code_op(c), code_args(c))) == instruction_bytes(c)
        }),
{
    let c = Code::C5A {  };
    assert(code_op(c) == 0x5Au8);
    assert(code_args(c) == Seq::<Arg>::empty());
    assert(encode_args(Seq::<Arg>::empty()) == Some(Seq::<u8>::empty()));
    assert(encode_code((0x5Au8, Seq::<Arg>::empty())) == join(Some(seq![0x5Au8]), encode_args(Seq::<Arg>::empty())));
}

#[verifier::spinoff_prover]
#[verifier::rlimit(100)]
proof fn lemma_bytes_c5b(v_a0: u16, v_a1: u8)
    ensures
        ({
            let c = Code::C5B { a0: v_a0, a1: v_a1 };
            encode_code((code_op(c), code_args(c))) == instruction_bytes(c)
        }),
{
    let c = Code::C5B { a0: v_a0, a1: v_a1 };
    assert(code_op(c) == 0x5Bu8);
    assert(code_args(c) == seq![Arg::Word(v_a0), Arg::Byte(v_a1)]);
    assert(encode_args(Seq::<Arg>::empty()) == Some(Seq::<u8>::empty()));
    assert(encode_args(seq![Arg::Byte(v_a1)]) == join(encode_arg(Arg::Byte(v_a1)), encode_args(Seq::<Arg>::empty()))) by {
        assert(seq![Arg::Byte(v_a1)].drop_first() =~= Seq::<Arg>::empty());
    }
    assert(encode_args(seq![Arg::Word(v_a0), Arg::Byte(v_a1)]) == join(encode_arg(Arg::Word(v_a0)), encode_args(seq![Arg::Byte(v_a1)]))) by {
        assert(seq![Arg::Word(v_a0), Arg::Byte(v_a1)].drop_first() =~= seq![Arg::Byte(v_a1)]);
    }
    assert(encode_code((0x5Bu8, seq![Arg::Word(v_a0), Arg::Byte(v_a1)])) == join(Some(seq![0x5Bu8]), encode_args(seq![Arg::Word(v_a0), Arg::Byte(v_a1)])));
}

#[verifier::spinoff_prover]
#[verifier::rlimit(100)]
proof fn lemma_bytes_c5c(v_a0: u16, v_a1: u8)
    ensures
        ({
            let c = Code::C5C { a0: v_a0, a1: v_a1 };
            encode_code((code_op(c), code_args(c))) == instruction_bytes(c)
        }),
{
    let c = Code::C5C { a0: v_a0, a1: v_a1 };
    assert(code_op(c) == 0x5Cu8);
    assert(code_args(c) == seq![Arg::Word(v_a0), Arg::Byte(v_a1)]);
    assert(encode_args(Seq::<Arg>::empty()) == Some(Seq::<u8>::empty()));
    assert(encode_args(seq![Arg::Byte(v_a1)]) == join(encode_arg(Arg::Byte(v_a1)), encode_args(Seq::<Arg>::empty()))) by {
        assert(seq![Arg::Byte(v_a1)].drop_first() =~= Seq::<Arg>::empty());
    }
    assert(encode_args(seq![Arg::Word(v_a0), Arg::Byte(v_a1)]) == join(encode_arg(Arg::Word(v_a0)), encode_args(seq![Arg::Byte(v_a1)]))) by {
        assert(seq![Arg::Word(v_a0), Arg::Byte(v_a1)].drop_first() =~= seq![Arg::Byte(v_a1)]);
    }
    assert(encode_code((0x5Cu8, seq![Arg::Word(v_a0), Arg::Byte(v_a1)])) == join(Some(seq![0x5Cu8]), encode_args(seq![Arg::Word(v_a0), Arg::Byte(v_a1)])));
}

#[verifier::spinoff_prover]
#[verifier::rlimit(100)]
proof fn lemma_bytes_c5d(v_a0: u16, v_a1: u8)
    ensures
        ({
            let c = Code::C5D { a0: v_a0, a1: v_a1 };
            encode_code((code_op(c), code_args(c))) == instruction_bytes(c)
        }),
{
    let c = Code::C5D { a0: v_a0, a1: v_a1 };
    assert(code_op(c) == 0x5Du8);
    assert(code_args(c) == seq![Arg::Word(v_a0), Arg::Byte(v_a1)]);
    assert(encode_args(Seq::<Arg>::empty()) == Some(Seq::<u8>::empty()));
    assert(encode_args(seq![Arg::Byte(v_a1)]) == join(encode_arg(Arg::Byte(v_a1)), encode_args(Seq::<Arg>::empty()))) by {
        assert(seq![Arg::Byte(v_a1)].drop_first() =~= Seq::<Arg>::empty());
    }
    assert(encode_args(seq![Arg::Word(v_a0), Arg::Byte(v_a1)]) == join(encode_arg(Arg::Word(v_a0)), encode_args(seq![Arg::Byte(v_a1)]))) by {
        assert(seq![Arg::Word(v_a0), Arg::Byte(v_a1)].drop_first() =~= seq![Arg::Byte(v_a1)]);
    }
    assert(encode_code((0x5Du8, seq![Arg::Word(v_a0), Arg::Byte(v_a1)])) == join(Some(seq![0x5Du8]), encode_args(seq![Arg::Word(v_a0), Arg::Byte(v_a1)])));
}

#[verifier::spinoff_prover]
#[verifier::rlimit(100)]
proof fn lemma_bytes_c5e(v_a0: u8)
    ensures
        ({
            let c = Code::C5E { a0: v_a0 };
            encode_code((code_op(c), code_args(c))) == instruction_bytes(c)
        }),
{
    let c = Code::C5E { a0: v_a0 };
    assert(code_op(c) == 0x5Eu8);
    assert(code_args(c) == seq![Arg::Byte(v_a0)]);
    assert(encode_args(Seq::<Arg>::empty()) == Some(Seq::<u8>::empty()));
    assert(encode_args(seq![Arg::Byte(v_a0)]) == join(encode_arg(Arg::Byte(v_a0)), encode_args(Seq::<Arg>::empty()))) by {
        assert(seq![Arg::Byte(v_a0)].drop_first() =~= Seq::<Arg>::empty());
    }
    assert(encode_code((0x5Eu8, seq![Arg::Byte(v_a0)])) == join(Some(seq![0x5Eu8]), encode_args(seq![Arg::Byte(v_a0)])));
}

#[verifier::spinoff_prover]
#[verifier::rlimit(100)]
proof fn lemma_bytes_c5f(v_a0: u8)
    ensures
        ({
            let c = Code::C5F { a0: v_a0 };
            encode_code((code_op(c), code_args(c))) == instruction_bytes(c)
        }),
{
    let c = Code::C5F { a0: v_a0 };
    assert(code_op(c) == 0x5Fu8);
    assert(code_args(c) == seq![Arg::Byte(v_a0)]);
    assert(encode_args(Seq::<Arg>::empty()) == Some(Seq::<u8>::empty()));
    assert(encode_args(seq![Arg::Byte(v_a0)]) == join(encode_arg(Arg::Byte(v_a0)), encode_args(Seq::<Arg>::empty()))) by {
        assert(seq![Arg::Byte(v_a0)].drop_first() =~= Seq::<Arg>::empty());
    }
    assert(encode_code((0x5Fu8, seq![Arg::Byte(v_a0)])) == join(Some(seq![0x5Fu8]), encode_args(seq![Arg::Byte(v_a0)])));
}

#[verifier::spinoff_prover]
#[verifier::rlimit(100)]
proof fn lemma_bytes_c60(v_a0: u16)
    ensures
        ({
            let c = Code::C60 { a0: v_a0 };
            encode_code((code_op(c), code_args(c))) == instruction_bytes(c)
        }),
{
    let c = Code::C60 { a0: v_a0 };
    assert(code_op(c) == 0x60u8);
    assert(code_args(c) == seq![Arg::Word(v_a0)]);
    assert(encode_args(Seq::<Arg>::empty()) == Some(Seq::<u8>::empty()));
    assert(encode_args(seq![Arg::Word(v_a0)]) == join(encode_arg(Arg::Word(v_a0)), encode_args(Seq::<Arg>::empty()))) by {
        assert(seq![Arg::Word(v_a0)].drop_first() =~= Seq::<Arg>::empty());
    }
    assert(encode_code((0x60u8, seq![Arg::Word(v_a0)])) == join(Some(seq![0x60u8]), encode_args(seq![Arg::Word(v_a0)])));
}

#[verifier::spinoff_prover]
#[verifier::rlimit(100)]
proof fn lemma_bytes_c61(v_a0: u8)
    ensures
        ({
            let c = Code::C61 { a0: v_a0 };
            encode_code((code_op(c), code_args(c))) == instruction_bytes(c)
        }),
{
    let c = Code::C61 { a0: v_a0 };
    assert(code_op(c) == 0x61u8);
    assert(code_args(c) == seq![Arg::Byte(v_a0)]);
    assert(encode_args(Seq::<Arg>::empty()) == Some(Seq::<u8>::empty()));
    assert(encode_args(seq![Arg::Byte(v_a0)]) == join(encode_arg(Arg::Byte(v_a0)), encode_args(Seq::<Arg>::empty()))) by {
        assert(seq![Arg::Byte(v_a0)].drop_first() =~= Seq::<Arg>::empty());
    }
    assert(encode_code((0x61u8, seq![Arg::Byte(v_a0)])) == join(Some(seq![0x61u8]), encode_args(seq![Arg::Byte(v_a0)])));
}

#[verifier::spinoff_prover]
#[verifier::rlimit(100)]
proof fn lemma_bytes_c62(v_a0: u16, v_a1: u8)
    ensures
        ({
            let c = Code::C62 { a0: v_a0, a1: v_a1 };
            encode_code((code_op(c), code_args(c))) == instruction_bytes(c)
        }),
{
    let c = Code::C62 { a0: v_a0, a1: v_a1 };
    assert(code_op(c) == 0x62u8);
    assert(code_args(c) == seq![Arg::Word(v_a0), Arg::Byte(v_a1)]);
    assert(encode_args(Seq::<Arg>::empty()) == Some(Seq::<u8>::empty()));
    assert(encode_args(seq![Arg::Byte(v_a1)]) == join(encode_arg(Arg::Byte(v_a1)), encode_args(Seq::<Arg>::empty()))) by {
        assert(seq![Arg::Byte(v_a1)].drop_first() =~= Seq::<Arg>::empty());
    }
    assert(encode_args(seq![Arg::Word(v_a0), Arg::Byte(v_a1)]) == join(encode_arg(Arg::Word(v_a0)), encode_args(seq![Arg::Byte(v_a1)]))) by {
        assert(seq![Arg::Word(v_a0), Arg::Byte(v_a1)].drop_first() =~= seq![Arg::Byte(v_a1)]);
    }
    assert(encode_code((0x62u8, seq![Arg::Word(v_a0), Arg::Byte(v_a1)])) == join(Some(seq![0x62u8]), encode_args(seq![Arg::Word(v_a0), Arg::Byte(v_a1)])));
}

#[verifier::spinoff_prover]
#[verifier::rlimit(100)]
proof fn lemma_bytes_c63(v_a0: u16, v_a1: u8)
    ensures
        ({
            let c = Code::C63 { a0: v_a0, a1: v_a1 };
            encode_code((code_op(c), code_args(c))) == instruction_bytes(c)
        }),
{
    let c = Code::C63 { a0: v_a0, a1: v_a1 };
    assert(code_op(c) == 0x63u8);
    assert(code_args(c) == seq![Arg::Word(v_a0), Arg::Byte(v_a1)]);
    assert(encode_args(Seq::<Arg>::empty()) == Some(Seq::<u8>::empty()));
    assert(encode_args(seq![Arg::Byte(v_a1)]) == join(encode_arg(Arg::Byte(v_a1)), encode_args(Seq::<Arg>::empty()))) by {
        assert(seq![Arg::Byte(v_a1)].drop_first() =~= Seq::<Arg>::empty());
    }
    assert(encode_args(seq![Arg::Word(v_a0), Arg::Byte(v_a1)]) == join(encode_arg(Arg::Word(v_a0)), encode_args(seq![Arg::Byte(v_a1)]))) by {
        assert(seq![Arg::Word(v_a0), Arg::Byte(v_a1)].drop_first() =~= seq![Arg::Byte(v_a1)]);
    }
    assert(encode_code((0x63u8, seq![Arg::Word(v_a0), Arg::Byte(v_a1)])) == join(Some(seq![0x63u8]), encode_args(seq![Arg::Word(v_a0), Arg::Byte(v_a1)])));
}

#[verifier::spinoff_prover]
#[verifier::rlimit(100)]
proof fn lemma_bytes_c64(v_a0: u16, v_a1: u16, v_a2: u16, v_a3: u16, v_a4: u16, v_a5: u16, v_a6: u8)
    ensures
        ({
            let c = Code::C64 { a0: v_a0, a1: v_a1, a2: v_a2, a3: v_a3, a4: v_a4, a5: v_a5, a6: v_a6 };
            encode_code((code_op(c), code_args(c))) == instruction_bytes(c)
        }),
{
    let c = Code::C64 { a0: v_a0, a1: v_a1, a2: v_a2, a3: v_a3, a4: v_a4, a5: v_a5, a6: v_a6 };
    assert(code_op(c) == 0x64u8);
    assert(code_args(c) == seq![Arg::Word(v_a0), Arg::Word(v_a1), Arg::Word(v_a2), Arg::Word(v_a3), Arg::Word(v_a4), Arg::Word(v_a5), Arg::Byte(v_a6)]);
    assert(encode_args(Seq::<Arg>::empty()) == Some(Seq::<u8>::empty()));
    assert(encode_args(seq![Arg::Byte(v_a6)]) == join(encode_arg(Arg::Byte(v_a6)), encode_args(Seq::<Arg>::empty()))) by {
        assert(seq![Arg::Byte(v_a6)].drop_first() =~= Seq::<Arg>::empty());
    }
    assert(encode_args(seq![Arg::Word(v_a5), Arg::Byte(v_a6)]) == join(encode_arg(Arg::Word(v_a5)), encode_args(seq![Arg::Byte(v_a6)]))) by {
        assert(seq![Arg::Word(v_a5), Arg::Byte(v_a6)].drop_first() =~= seq![Arg::Byte(v_a6)]);
    }
    assert(encode_args(seq![Arg::Word(v_a4), Arg::Word(v_a5), Arg::Byte(v_a6)]) == join(encode_arg(Arg::Word(v_a4)), encode_args(seq![Arg::Word(v_a5), Arg::Byte(v_a6)]))) by {
        assert(seq![Arg::Word(v_a4), Arg::Word(v_a5), Arg::Byte(v_a6)].drop_first() =~= seq![Arg::Word(v_a5), Arg::Byte(v_a6)]);
    }
    assert(encode_args(seq![Arg::Word(v_a3), Arg::Word(v_a4), Arg::Word(v_a5), Arg::Byte(v_a6)]) == join(encode_arg(Arg::Word(v_a3)), encode_args(seq![Arg::Word(v_a4), Arg::Word(v_a5), Arg::Byte(v_a6)]))) by {
        assert(seq![Arg::Word(v_a3), Arg::Word(v_a4), Arg::Word(v_a5), Arg::Byte(v_a6)].drop_first() =~= seq![Arg::Word(v_a4), Arg::Word(v_a5), Arg::Byte(v_a6)]);
    }
    assert(encode_args(seq![Arg::Word(v_a2), Arg::Word(v_a3), Arg::Word(v_a4), Arg::Word(v_a5), Arg::Byte(v_a6)]) == join(encode_arg(Arg::Word(v_a2)), encode_args(seq![Arg::Word(v_a3), Arg::Word(v_a4), Arg::Word(v_a5), Arg::Byte(v_a6)]))) by {
        assert(seq![Arg::Word(v_a2), Arg::Word(v_a3), Arg::Word(v_a4), Arg::Word(v_a5), Arg::Byte(v_a6)].drop_first() =~= seq![Arg::Word(v_a3), Arg::Word(v_a4), Arg::Word(v_a5), Arg::Byte(v_a6)]);
    }
    assert(encode_args(seq![Arg::Word(v_a1), Arg::Word(v_a2), Arg::Word(v_a3), Arg::Word(v_a4), Arg::Word(v_a5), Arg::Byte(v_a6)]) == join(encode_arg(Arg::Word(v_a1)), encode_args(seq![Arg::Word(v_a2), Arg::Word(v_a3), Arg::Word(v_a4), Arg::Word(v_a5), Arg::Byte(v_a6)]))) by {
        assert(seq![Arg::Word(v_a1), Arg::Word(v_a2), Arg::Word(v_a3), Arg::Word(v_a4), Arg::Word(v_a5), Arg::Byte(v_a6)].drop_first() =~= seq![Arg::Word(v_a2), Arg::Word(v_a3), Arg::Word(v_a4), Arg::Word(v_a5), Arg::Byte(v_a6)]);
    }
    assert(encode_args(seq![Arg::Word(v_a0), Arg::Word(v_a1), Arg::Word(v_a2), Arg::Word(v_a3), Arg::Word(v_a4), Arg::Word(v_a5), Arg::Byte(v_a6)]) == join(encode_arg(Arg::Word(v_a0)), encode_args(seq![Arg::Word(v_a1), Arg::Word(v_a2), Arg::Word(v_a3), Arg::Word(v_a4), Arg::Word(v_a5), Arg::Byte(v_a6)]))) by {
        assert(seq![Arg::Word(v_a0), Arg::Word(v_a1), Arg::Word(v_a2), Arg::Word(v_a3), Arg::Word(v_a4), Arg::Word(v_a5), Arg::Byte(v_a6)].drop_first() =~= seq![Arg::Word(v_a1), Arg::Word(v_a2), Arg::Word(v_a3), Arg::Word(v_a4), Arg::Word(v_a5), Arg::Byte(v_a6)]);
    }
    assert(encode_code((0x64u8, seq![Arg::Word(v_a0), Arg::Word(v_a1), Arg::Word(v_a2), Arg::Word(v_a3), Arg::Word(v_a4), Arg::Word(v_a5), Arg::Byte(v_a6)])) == join(Some(seq![0x64u8]), encode_args(seq![Arg::Word(v_a0), Arg::Word(v_a1), Arg::Word(v_a2), Arg::Word(v_a3), Arg::Word(v_a4), Arg::Word(v_a5), Arg::Byte(v_a6)])));
}

#[verifier::spinoff_prover]
#[verifier::rlimit(100)]
proof fn lemma_bytes_c65(v_a0: u16)
    ensures
        ({
            let c = Code::C65 { a0: v_a0 };
            encode_code((code_op(c), code_args(c))) == instruction_bytes(c)
        }),
{
    let c = Code::C65 { a0: v_a0 };
    assert(code_op(c) == 0x65u8);
    assert(code_args(c) == seq![Arg::Word(v_a0)]);
    assert(encode_args(Seq::<Arg>::empty()) == Some(Seq::<u8>::empty()));
    assert(encode_args(seq![Arg::Word(v_a0)]) == join(encode_arg(Arg::Word(v_a0)), encode_args(Seq::<Arg>::empty()))) by {
        assert(seq![Arg::Word(v_a0)].drop_first() =~= Seq::<Arg>::empty());
    }
    assert(encode_code((0x65u8, seq![Arg::Word(v_a0)])) == join(Some(seq![0x65u8]), encode_args(seq![Arg::Word(v_a0)])));
}

#[verifier::spinoff_prover]
#[verifier::rlimit(100)]
proof fn lemma_bytes_c66(v_a0: u8, v_a1: u32, v_a2: u32)
    ensures
        ({
            let c = Code::C66 { a0: v_a0, a1: v_a1, a2: v_a2 };
            encode_code((code_op(c), code_args(c))) == instruction_bytes(c)
        }),
{
    let c = Code::C66 { a0: v_a0, a1: v_a1, a2: v_a2 };
    assert(code_op(c) == 0x66u8);
    assert(code_args(c) == seq![Arg::Byte(v_a0), Arg::Dword(v_a1), Arg::Dword(v_a2)]);
    assert(encode_args(Seq::<Arg>::empty()) == Some(Seq::<u8>::empty()));
    assert(encode_args(seq![Arg::Dword(v_a2)]) == join(encode_arg(Arg::Dword(v_a2)), encode_args(Seq::<Arg>::empty()))) by {
        assert(seq![Arg::Dword(v_a2)].drop_first() =~= Seq::<Arg>::empty());
    }
    assert(encode_args(seq![Arg::Dword(v_a1), Arg::Dword(v_a2)]) == join(encode_arg(Arg::Dword(v_a1)), encode_args(seq![Arg::Dword(v_a2)]))) by {
        assert(seq![Arg::Dword(v_a1), Arg::Dword(v_a2)].drop_first() =~= seq![Arg::Dword(v_a2)]);
    }
    assert(encode_args(seq![Arg::Byte(v_a0), Arg::Dword(v_a1), Arg::Dword(v_a2)]) == join(encode_arg(Arg::Byte(v_a0)), encode_args(seq![Arg::Dword(v_a1), Arg::Dword(v_a2)]))) by {
        assert(seq![Arg::Byte(v_a0), Arg::Dword(v_a1), Arg::Dword(v_a2)].drop_first() =~= seq![Arg::Dword(v_a1), Arg::Dword(v_a2)]);
    }
    assert(encode_code((0x66u8, seq![Arg::Byte(v_a0), Arg::Dword(v_a1), Arg::Dword(v_a2)])) == join(Some(seq![0x66u8]), encode_args(seq![Arg::Byte(v_a0), Arg::Dword(v_a1), Arg::Dword(v_a2)])));
}

#[verifier::spinoff_prover]
#[verifier::rlimit(100)]
proof fn lemma_bytes_c67()
    ensures
        ({
            let c = Code::C67 {  };
            encode_code((code_op(c), code_args(c))) == instruction_bytes(c)
        }),
{
    let c = Code::C67 {  };
    assert(code_op(c) == 0x67u8);
    assert(code_args(c) == Seq::<Arg>::empty());
    assert(encode_args(Seq::<Arg>::empty()) == Some(Seq::<u8>::empty()));
    assert(encode_code((0x67u8, Seq::<Arg>::empty())) == join(Some(seq![0x67u8]), encode_args(Seq::<Arg>::empty())));
}

#[verifier::spinoff_prover]
#[verifier::rlimit(100)]
proof fn lemma_bytes_end()
    ensures
        ({
            let c = Code::End {  };
            encode_code((code_op(c), code_args(c))) == instruction_bytes(c)
        }),
{
    let c = Code::End {  };
    assert(code_op(c) == 0xFFu8);
    assert(code_args(c) == Seq::<Arg>::empty());
    assert(encode_args(Seq::<Arg>::empty()) == Some(Seq::<u8>::empty()));
    assert(encode_code((0xFFu8, Seq::<Arg>::empty())) == join(Some(seq![0xFFu8]), encode_args(Seq::<Arg>::empty())));
}

/// Every instruction is written as the format lays it out: its opcode, then
/// its fields in the order they are declared (see `instruction_bytes`).
pub proof fn lemma_instruction_bytes(c: Code)
    ensures
        encode_code((code_op(c), code_args(c))) == instruction_bytes(c),
{
    match c {
        Code::C00 {  } => lemma_bytes_c00(),
        Code::C01 { a0: v_a0 } => lemma_bytes_c01(v_a0),
        Code::C02 { a0: v_a0 } => lemma_bytes_c02(v_a0),
        Code::C03 { a0: v_a0 } => lemma_bytes_c03(v_a0),
        Code::C04 {  } => lemma_bytes_c04(),
        Code::C05 {  } => lemma_bytes_c05(),
        Code::C06 {  } => lemma_bytes_c06(),
        Code::C07 { a0: v_a0 } => lemma_bytes_c07(v_a0),
        Code::C08 { xstr: v_xstr } => lemma_bytes_c08(v_xstr),
        Code::C09 { xstr: v_xstr } => lemma_bytes_c09(v_xstr),
        Code::C0A { a0: v_a0, a1: v_a1, len: v_len, str: v_str } => lemma_bytes_c0a(v_a0, v_a1, v_len, v_str),
        Code::C0B {  } => lemma_bytes_c0b(),
        Code::C0C {  } => lemma_bytes_c0c(),
        Code::C0D {  } => lemma_bytes_c0d(),
        Code::C0E { a0: v_a0 } => lemma_bytes_c0e(v_a0),
        Code::C0F {  } => lemma_bytes_c0f(),
        Code::C10 {  } => lemma_bytes_c10(),
        Code::C11 {  } => lemma_bytes_c11(),
        Code::C12 {  } => lemma_bytes_c12(),
        Code::C13 { a0: v_a0, a1: v_a1 } => lemma_bytes_c13(v_a0, v_a1),
        Code::C14 { a0: v_a0 } => lemma_bytes_c14(v_a0),
        Code::C15 { a0: v_a0 } => lemma_bytes_c15(v_a0),
        Code::C16 { a0: v_a0, a1: v_a1, a2: v_a2 } => lemma_bytes_c16(v_a0, v_a1, v_a2),
        Code::C17 { str: v_str, a0: v_a0 } => lemma_bytes_c17(v_str, v_a0),
        Code::C18 { a0: v_a0, a1: v_a1, a2: v_a2 } => lemma_bytes_c18(v_a0, v_a1, v_a2),
        Code::C19 { a0: v_a0, a1: v_a1, a2: v_a2, a3: v_a3 } => lemma_bytes_c19(v_a0, v_a1, v_a2, v_a3),
        Code::C1A { a0: v_a0, a1: v_a1 } => lemma_bytes_c1a(v_a0, v_a1),
        Code::C1B { a0: v_a0, a1: v_a1 } => lemma_bytes_c1b(v_a0, v_a1),
        Code::C1C { a0: v_a0, a1: v_a1 } => lemma_bytes_c1c(v_a0, v_a1),
        Code::C1D { a0: v_a0, a1: v_a1 } => lemma_bytes_c1d(v_a0, v_a1),
        Code::C1E { a0: v_a0, a1: v_a1, a2: v_a2, a3: v_a3, a4: v_a4 } => lemma_bytes_c1e(v_a0, v_a1, v_a2, v_a3, v_a4),
        Code::C1F { a0: v_a0, a1: v_a1, a2: v_a2 } => lemma_bytes_c1f(v_a0, v_a1, v_a2),
        Code::C20 { a0: v_a0, a1: v_a1 } => lemma_bytes_c20(v_a0, v_a1),
        Code::C21 { a0: v_a0, a1: v_a1 } => lemma_bytes_c21(v_a0, v_a1),
        Code::C22 { a0: v_a0, a1: v_a1 } => lemma_bytes_c22(v_a0, v_a1),
        Code::C23 { a0: v_a0, a1: v_a1 } => lemma_bytes_c23(v_a0, v_a1),
        Code::C24 { a0: v_a0, a1: v_a1, len: v_len, ask: v_ask, choices: v_choices } => lemma_bytes_c24(v_a0, v_a1, v_len, v_ask, v_choices),
        Code::C25 { a0: v_a0, len: v_len, ask: v_ask, choices: v_choices } => lemma_bytes_c25(v_a0, v_len, v_ask, v_choices),
        Code::C26 { a0: v_a0, len: v_len, ask: v_ask, choices: v_choices } => lemma_bytes_c26(v_a0, v_len, v_ask, v_choices),
        Code::C27 { a0: v_a0, a1: v_a1, len: v_len, ask: v_ask, choices: v_choices } => lemma_bytes_c27(v_a0, v_a1, v_len, v_ask, v_choices),
        Code::C28 { a0: v_a0, len: v_len, ask: v_ask, choices: v_choices } => lemma_bytes_c28(v_a0, v_len, v_ask, v_choices),
        Code::C29 { a0: v_a0, len: v_len, ask: v_ask, choices: v_choices } => lemma_bytes_c29(v_a0, v_len, v_ask, v_choices),
        Code::C2A { a0: v_a0, a1: v_a1 } => lemma_bytes_c2a(v_a0, v_a1),
        Code::C2B { a0: v_a0 } => lemma_bytes_c2b(v_a0),
        Code::C2C { a0: v_a0 } => lemma_bytes_c2c(v_a0),
        Code::C2D { a0: v_a0, a1: v_a1, a2: v_a2, a3: v_a3, a4: v_a4 } => lemma_bytes_c2d(v_a0, v_a1, v_a2, v_a3, v_a4),
        Code::C2E { xstr: v_xstr } => lemma_bytes_c2e(v_xstr),
        Code::C2F { a0: v_a0 } => lemma_bytes_c2f(v_a0),
        Code::C30 { a0: v_a0 } => lemma_bytes_c30(v_a0),
        Code::C31 { a0: v_a0 } => lemma_bytes_c31(v_a0),
        Code::C32 { a0: v_a0 } => lemma_bytes_c32(v_a0),
        Code::C33 { a0: v_a0 } => lemma_bytes_c33(v_a0),
        Code::C34 {  } => lemma_bytes_c34(),
        Code::C35 { a0: v_a0, a1: v_a1, len: v_len, str: v_str } => lemma_bytes_c35(v_a0, v_a1, v_len, v_str),
        Code::C36 { a0: v_a0, a1: v_a1, a2: v_a2, a3: v_a3, a4: v_a4 } => lemma_bytes_c36(v_a0, v_a1, v_a2, v_a3, v_a4),
        Code::C37 { a0: v_a0, a1: v_a1, a2: v_a2, a3: v_a3, a4: v_a4 } => lemma_bytes_c37(v_a0, v_a1, v_a2, v_a3, v_a4),
        Code::C38 { a0: v_a0, a1: v_a1, a2: v_a2 } => lemma_bytes_c38(v_a0, v_a1, v_a2),
        Code::C39 { a0: v_a0, a1: v_a1, a2: v_a2 } => lemma_bytes_c39(v_a0, v_a1, v_a2),
        Code::C3A { a0: v_a0, a1: v_a1 } => lemma_bytes_c3a(v_a0, v_a1),
        Code::C3B { a0: v_a0, len: v_len, str: v_str } => lemma_bytes_c3b(v_a0, v_len, v_str),
        Code::C3C { jump: v_jump, a1: v_a1 } => lemma_bytes_c3c(v_jump, v_a1),
        Code::C3D { a0: v_a0 } => lemma_bytes_c3d(v_a0),
        Code::C3E { a0: v_a0 } => lemma_bytes_c3e(v_a0),
        Code::C3F { a0: v_a0 } => lemma_bytes_c3f(v_a0),
        Code::C40 { a0: v_a0 } => lemma_bytes_c40(v_a0),
        Code::C41 { a0: v_a0 } => lemma_bytes_c41(v_a0),
        Code::C42 { a0: v_a0 } => lemma_bytes_c42(v_a0),
        Code::C43 { a0: v_a0 } => lemma_bytes_c43(v_a0),
        Code::C44 { a0: v_a0, a1: v_a1 } => lemma_bytes_c44(v_a0, v_a1),
        Code::C45 { a0: v_a0 } => lemma_bytes_c45(v_a0),
        Code::C46 {  } => lemma_bytes_c46(),
        Code::C47 { a0: v_a0 } => lemma_bytes_c47(v_a0),
        Code::C48 { a0: v_a0 } => lemma_bytes_c48(v_a0),
        Code::C49 { a0: v_a0 } => lemma_bytes_c49(v_a0),
        Code::C4A { a0: v_a0, a1: v_a1 } => lemma_bytes_c4a(v_a0, v_a1),
        Code::C4B { a0: v_a0, a1: v_a1 } => lemma_bytes_c4b(v_a0, v_a1),
        Code::C4C { a0: v_a0 } => lemma_bytes_c4c(v_a0),
        Code::C4D { a0: v_a0 } => lemma_bytes_c4d(v_a0),
        Code::C4E {  } => lemma_bytes_c4e(),
        Code::C4F { a0: v_a0 } => lemma_bytes_c4f(v_a0),
        Code::C50 { a0: v_a0, a1: v_a1 } => lemma_bytes_c50(v_a0, v_a1),
        Code::C51 {  } => lemma_bytes_c51(),
        Code::C52 { a0: v_a0, len: v_len, str: v_str } => lemma_bytes_c52(v_a0, v_len, v_str),
        Code::C53 { a0: v_a0 } => lemma_bytes_c53(v_a0),
        Code::C54 { xstr: v_xstr } => lemma_bytes_c54(v_xstr),
        Code::C55 {  } => lemma_bytes_c55(),
        Code::C56 { a0: v_a0 } => lemma_bytes_c56(v_a0),
        Code::C57 { a0: v_a0 } => lemma_bytes_c57(v_a0),
        Code::C58 { a0: v_a0 } => lemma_bytes_c58(v_a0),
        Code::C59 { a0: v_a0 } => lemma_bytes_c59(v_a0),
        Code::C5A {  } => lemma_bytes_c5a(),
        Code::C5B { a0: v_a0, a1: v_a1 } => lemma_bytes_c5b(v_a0, v_a1),
        Code::C5C { a0: v_a0, a1: v_a1 } => lemma_bytes_c5c(v_a0, v_a1),
        Code::C5D { a0: v_a0, a1: v_a1 } => lemma_bytes_c5d(v_a0, v_a1),
        Code::C5E { a0: v_a0 } => lemma_bytes_c5e(v_a0),
        Code::C5F { a0: v_a0 } => lemma_bytes_c5f(v_a0),
        Code::C60 { a0: v_a0 } => lemma_bytes_c60(v_a0),
        Code::C61 { a0: v_a0 } => lemma_bytes_c61(v_a0),
        Code::C62 { a0: v_a0, a1: v_a1 } => lemma_bytes_c62(v_a0, v_a1),
        Code::C63 { a0: v_a0, a1: v_a1 } => lemma_bytes_c63(v_a0, v_a1),
        Code::C64 { a0: v_a0, a1: v_a1, a2: v_a2, a3: v_a3, a4: v_a4, a5: v_a5, a6: v_a6 } => lemma_bytes_c64(v_a0, v_a1, v_a2, v_a3, v_a4, v_a5, v_a6),
        Code::C65 { a0: v_a0 } => lemma_bytes_c65(v_a0),
        Code::C66 { a0: v_a0, a1: v_a1, a2: v_a2 } => lemma_bytes_c66(v_a0, v_a1, v_a2),
        Code::C67 {  } => lemma_bytes_c67(),
        Code::End {  } => lemma_bytes_end(),
    }
}

/// Decoding what encoding writes gives the instruction back, for every
/// instruction whose choice lists have the lengths the format fixes and
/// whose texts come back unchanged: the opcode is followed by operands of
/// the kinds its layout names, and they read back as the instruction's own
/// values, ending where its bytes end.
pub proof fn lemma_instruction_decodes(c: Code, rest: Seq<u8>)
    requires
        choice_counts(c),
        forall|i: int| 0 <= i < code_args(c).len() ==> arg_round_trips(#[trigger] code_args(c)[i]),
    ensures
        instruction_bytes(c) matches Some(t) && t[0] == code_op(c) && (layout(code_op(c)) matches Some(ks)
            && parse_args(t + rest, 1, ks) == Some((code_args(c), t.len() as int))),
{
    lemma_instruction_bytes(c);
    lemma_code_fits(c);
    lemma_code_round_trip(code_op(c), code_args(c), rest);
}

/// The operand values of an instruction with the choice counts the format
/// fixes have the kinds of its opcode's layout.
#[verifier::spinoff_prover]
#[verifier::rlimit(100)]
proof fn lemma_code_fits(c: Code)
    requires
        choice_counts(c),
    ensures
        layout(code_op(c)) is Some,
        args_fit(code_args(c), layout(code_op(c))->0),
{
    let args = code_args(c);
    let ks = layout(code_op(c))->0;
    assert forall|i: int| 0 <= i < args.len() implies #[trigger] arg_fits(args[i], ks[i]) by {
        match c {
            Code::C24 { choices: v, .. } => { assert(choices_view(v@).len() == v@.len()); },
            Code::C25 { choices: v, .. } => { assert(choices_view(v@).len() == v@.len()); },
            Code::C26 { choices: v, .. } => { assert(choices_view(v@).len() == v@.len()); },
            Code::C27 { choices: v, .. } => { assert(choices_view(v@).len() == v@.len()); },
            Code::C28 { choices: v, .. } => { assert(choices_view(v@).len() == v@.len()); },
            Code::C29 { choices: v, .. } => { assert(choices_view(v@).len() == v@.len()); },
            _ => {},
        }
    }
}

} // verus!
