//! Event scripts (`stageXX.bin`).
//!
//! A script file starts with a table of `(index, offset)` pairs of
//! little-endian 32-bit words, ended by a pair of zeros. The instructions of
//! entry `i` start at `offset + 0x2000` and run up to and including the end
//! instruction `FF`. Besides the instructions, decoding records for each
//! entry the instruction numbers of its `3C` jumps (`start_3c`) and the
//! numbers of the instructions that begin where the latest jump lands
//! (`end_3c`); a text instruction `08`, `09`, `2E` or `54` clears both lists.
//! Encoding writes the table, pads it with zeros to 0x2000 bytes, writes the
//! instructions, rewrites the distance of each recorded jump, and pads the
//! whole image to a multiple of 0x800 bytes.

use vstd::prelude::*;
use crate::code::{
    args_fit, args_view, arg_fits, choices_view, code_args, code_from_args, code_op, code_to_args, layout,
    layout_of, Arg, ChoiceV, Choice, Code, Field, Kind,
};
use crate::cursor::{
    le16, le32, pad_count, u16_at, u32_at, write_at, zero_from, zeros, ByteCursor, CursorHelper,
    WriterHelper,
};
use crate::text::{
    encode_shift_jis, escaped_text_bytes, get_bytes_string, markup_clean, script_bytes_to_text,
    shift_jis_decoded, shift_jis_encoded, text_to_script_bytes, unescape_scan,
};

verus! {

/// Where the instructions of a script entry start, past the table.
pub const REFERENCE: u64 = 0x2000;

// ---------------------------------------------------------------------------
// Decoding
// ---------------------------------------------------------------------------

/// A fixed-length text at `p`: the 16-bit length without its flag bit, the
/// text, and the position past it. `None` where the input ends first.
pub open spec fn parse_fixed(b: Seq<u8>, p: int) -> Option<(u16, Seq<char>, int)> {
    if p + 2 <= b.len() {
        let l = (u16_at(b, p) % 32768) as u16;
        if p + 2 + l <= b.len() {
            Some((l, script_bytes_to_text(b.subrange(p + 2, p + 2 + l)), p + 2 + l))
        } else {
            None
        }
    } else {
        None
    }
}

/// One choice at `p`: a fixed-length text and two words.
pub open spec fn parse_choice(b: Seq<u8>, p: int) -> Option<(ChoiceV, int)> {
    match parse_fixed(b, p) {
        Some((l, s, q)) => if q + 4 <= b.len() {
            Some(((l, s, u16_at(b, q), u16_at(b, q + 2)), q + 4))
        } else {
            None
        },
        None => None,
    }
}

/// `n` choices at `p`.
pub open spec fn parse_choices(b: Seq<u8>, p: int, n: nat) -> Option<(Seq<ChoiceV>, int)>
    decreases n,
{
    if n == 0 {
        Some((Seq::empty(), p))
    } else {
        match parse_choice(b, p) {
            Some((c, q)) => match parse_choices(b, q, (n - 1) as nat) {
                Some((cs, r)) => Some((seq![c] + cs, r)),
                None => None,
            },
            None => None,
        }
    }
}

/// A zero-terminated text at `p` and the position past its terminator.
pub open spec fn parse_zero_text(b: Seq<u8>, p: int) -> Option<(Seq<char>, int)> {
    if zero_from(b, p) < b.len() {
        Some((shift_jis_decoded(b.subrange(p, zero_from(b, p))), zero_from(b, p) + 1))
    } else {
        None
    }
}

/// One operand of kind `k` at `p`, and the position past it.
pub open spec fn parse_arg(b: Seq<u8>, p: int, k: Kind) -> Option<(Arg, int)> {
    match k {
        Kind::Byte => if p + 1 <= b.len() {
            Some((Arg::Byte(b[p]), p + 1))
        } else {
            None
        },
        Kind::Word => if p + 2 <= b.len() {
            Some((Arg::Word(u16_at(b, p)), p + 2))
        } else {
            None
        },
        Kind::Dword => if p + 4 <= b.len() {
            Some((Arg::Dword(u32_at(b, p)), p + 4))
        } else {
            None
        },
        Kind::Text => match parse_zero_text(b, p) {
            Some((s, q)) => Some((Arg::Text(s), q)),
            None => None,
        },
        Kind::EscText => match parse_zero_text(b, p) {
            Some((s, q)) => Some((Arg::EscText(s), q)),
            None => None,
        },
        Kind::Fixed => match parse_fixed(b, p) {
            Some((l, s, q)) => Some((Arg::Fixed(l, s), q)),
            None => None,
        },
        Kind::Choices(n) => match parse_choices(b, p, n as nat) {
            Some((cs, q)) => Some((Arg::Choices(cs), q)),
            None => None,
        },
    }
}

/// The operands of the kinds `ks`, one after the other from `p`.
pub open spec fn parse_args(b: Seq<u8>, p: int, ks: Seq<Kind>) -> Option<(Seq<Arg>, int)>
    decreases ks.len(),
{
    if ks.len() == 0 {
        Some((Seq::empty(), p))
    } else {
        match parse_arg(b, p, ks[0]) {
            Some((a, q)) => match parse_args(b, q, ks.drop_first()) {
                Some((r, e)) => Some((seq![a] + r, e)),
                None => None,
            },
            None => None,
        }
    }
}

/// The state of the decoding loop over one script entry.
pub struct DecodeState {
    /// The position of the next instruction.
    pub pos: int,
    /// The number of loop rounds so far.
    pub n: int,
    /// The instructions so far, as opcode and operand values.
    pub codes: Seq<(u8, Seq<Arg>)>,
    /// The recorded jump instructions.
    pub starts: Seq<u32>,
    /// The recorded landing instructions.
    pub ends: Seq<u32>,
    /// Where the latest jump lands.
    pub pos_end: int,
    /// The bytes that were no opcode: the position past each, and the byte.
    pub skipped: Seq<(int, u8)>,
}

/// The state before the first instruction at `start`.
pub open spec fn decode_start(start: int) -> DecodeState {
    DecodeState {
        pos: start,
        n: 0,
        codes: Seq::empty(),
        starts: Seq::empty(),
        ends: Seq::empty(),
        pos_end: 0xFFFF_FFFF_FFFF_FFFF,
        skipped: Seq::empty(),
    }
}

/// The opcodes of the text instructions that clear the jump records.
pub open spec fn clears_jumps(op: u8) -> bool {
    op == 0x08 || op == 0x09 || op == 0x2E || op == 0x54
}

/// The first operand as a word (the distance of a jump).
pub open spec fn first_word(args: Seq<Arg>) -> int {
    if args.len() > 0 {
        match args[0] {
            Arg::Word(w) => w as int,
            _ => 0,
        }
    } else {
        0
    }
}

proof fn lemma_parse_choices_bounds(b: Seq<u8>, p: int, n: nat)
    requires
        0 <= p <= b.len(),
    ensures
        parse_choices(b, p, n) matches Some((cs, q)) ==> p <= q <= b.len() && cs.len() == n,
    decreases n,
{
    if n > 0 {
        if let Some((c, q)) = parse_choice(b, p) {
            lemma_parse_choices_bounds(b, q, (n - 1) as nat);
        }
    }
}

proof fn lemma_parse_arg_bounds(b: Seq<u8>, p: int, k: Kind)
    requires
        0 <= p <= b.len(),
    ensures
        parse_arg(b, p, k) matches Some((a, q)) ==> p < q <= b.len() || (p <= q <= b.len() && k is Choices),
        parse_arg(b, p, k) matches Some((a, q)) ==> arg_fits(a, k),
{
    if let Kind::Choices(n) = k {
        lemma_parse_choices_bounds(b, p, n as nat);
    }
    if k is Text || k is EscText {
        crate::cursor::lemma_zero_from_bounds(b, p);
    }
}

/// Parsing operands moves forward and stays within the input, and the values
/// have the kinds asked for.
pub proof fn lemma_parse_args_bounds(b: Seq<u8>, p: int, ks: Seq<Kind>)
    requires
        0 <= p <= b.len(),
    ensures
        parse_args(b, p, ks) matches Some((args, q)) ==> p <= q <= b.len() && args_fit(args, ks),
    decreases ks.len(),
{
    if ks.len() > 0 {
        lemma_parse_arg_bounds(b, p, ks[0]);
        if let Some((a, q)) = parse_arg(b, p, ks[0]) {
            lemma_parse_args_bounds(b, q, ks.drop_first());
            if let Some((r, e)) = parse_args(b, q, ks.drop_first()) {
                let all = seq![a] + r;
                assert forall|i: int| 0 <= i < all.len() implies #[trigger] arg_fits(all[i], ks[i]) by {
                    if i > 0 {
                        assert(all[i] == r[i - 1]);
                        assert(ks[i] == ks.drop_first()[i - 1]);
                        assert(arg_fits(r[i - 1], ks.drop_first()[i - 1]));
                    }
                }
            }
        }
    }
}

/// The decoding loop from state `st` up to and including the end
/// instruction: `None` where the reader runs out of input or a
/// counter overflows.
pub open spec fn decode_from(b: Seq<u8>, st: DecodeState) -> Option<DecodeState>
    decreases b.len() - st.pos,
    when 0 <= st.pos
{
    let ends1 = if st.pos == st.pos_end {
        st.ends.push(st.n as u32)
    } else {
        st.ends
    };
    if st.pos >= b.len() {
        None
    } else {
        let op = b[st.pos];
        match layout(op) {
            None => if st.n >= 0xFFFF_FFFF {
                None
            } else {
                decode_from(
                    b,
                    DecodeState {
                        pos: st.pos + 1,
                        n: st.n + 1,
                        ends: ends1,
                        skipped: st.skipped.push((st.pos + 1, op)),
                        ..st
                    },
                )
            },
            Some(ks) => match parse_args(b, st.pos + 1, ks) {
                None => None,
                Some((args, q)) => {
                    let codes = st.codes.push((op, args));
                    let starts = if clears_jumps(op) {
                        Seq::empty()
                    } else if op == 0x3C {
                        st.starts.push(st.n as u32)
                    } else {
                        st.starts
                    };
                    let ends = if clears_jumps(op) {
                        Seq::empty()
                    } else {
                        ends1
                    };
                    let pos_end = if op == 0x3C {
                        first_word(args) + st.pos + 1
                    } else {
                        st.pos_end
                    };
                    let next = DecodeState { pos: q, n: st.n + 1, codes, starts, ends, pos_end, ..st };
                    if op == 0xFF {
                        Some(DecodeState { n: st.n, ..next })
                    } else if pos_end > 0xFFFF_FFFF_FFFF_FFFF || st.n >= 0xFFFF_FFFF {
                        None
                    } else {
                        proof {
                            lemma_parse_args_bounds(b, st.pos + 1, ks);
                        }
                        decode_from(b, next)
                    }
                },
            },
        }
    }
}

/// A byte that is no opcode, met while decoding: the position past it and
/// the byte.
#[derive(Debug, PartialEq, Eq)]
pub struct UnknownOpcode {
    pub position: u64,
    pub opcode: u8,
}

/// The values of unknown opcodes.
pub open spec fn unknown_view(s: Seq<UnknownOpcode>) -> Seq<(int, u8)> {
    s.map_values(|u: UnknownOpcode| (u.position as int, u.opcode))
}

/// The values of instructions.
pub open spec fn codes_view(s: Seq<Code>) -> Seq<(u8, Seq<Arg>)> {
    s.map_values(|c: Code| (code_op(c), code_args(c)))
}

/// The decoded form of one script entry.
#[derive(Debug, PartialEq, Eq)]
pub struct Content {
    pub idx: u32,
    pub offset: u32,
    pub codes: Vec<Code>,
    pub start_3c: Vec<u32>,
    pub end_3c: Vec<u32>,
}

/// One script entry as a value.
pub struct ContentV {
    pub idx: u32,
    pub offset: u32,
    pub codes: Seq<(u8, Seq<Arg>)>,
    pub starts: Seq<u32>,
    pub ends: Seq<u32>,
}

impl View for Content {
    type V = ContentV;

    open spec fn view(&self) -> ContentV {
        ContentV {
            idx: self.idx,
            offset: self.offset,
            codes: codes_view(self.codes@),
            starts: self.start_3c@,
            ends: self.end_3c@,
        }
    }
}

/// The values of a list of entries.
pub open spec fn contents_view(s: Seq<Content>) -> Seq<ContentV> {
    s.map_values(|c: Content| c@)
}

/// A decoded script: its entries, and the bytes that were no opcode.
#[derive(Debug, PartialEq, Eq)]
pub struct ScriptYsV {
    pub contents: Vec<Content>,
    pub unknown: Vec<UnknownOpcode>,
}

/// A decoded script as a value.
pub struct ScriptV {
    pub contents: Seq<ContentV>,
    pub unknown: Seq<(int, u8)>,
}

impl View for ScriptYsV {
    type V = ScriptV;

    open spec fn view(&self) -> ScriptV {
        ScriptV { contents: contents_view(self.contents@), unknown: unknown_view(self.unknown@) }
    }
}

/// The table of `(index, offset)` pairs at `p`, up to the pair of zeros.
pub open spec fn parse_table(b: Seq<u8>, p: int) -> Option<Seq<(u32, u32)>>
    decreases b.len() - p,
{
    if 0 <= p && p + 8 <= b.len() {
        let idx = u32_at(b, p);
        let off = u32_at(b, p + 4);
        if idx == 0 && off == 0 {
            Some(Seq::empty())
        } else {
            match parse_table(b, p + 8) {
                Some(r) => Some(seq![(idx, off)] + r),
                None => None,
            }
        }
    } else {
        None
    }
}

/// The entries of the table, each decoded from its offset plus 0x2000.
pub open spec fn decode_entries(b: Seq<u8>, table: Seq<(u32, u32)>) -> Option<ScriptV>
    decreases table.len(),
{
    if table.len() == 0 {
        Some(ScriptV { contents: Seq::empty(), unknown: Seq::empty() })
    } else {
        let (idx, off) = table[0];
        match decode_from(b, decode_start(off + 0x2000)) {
            None => None,
            Some(st) => match decode_entries(b, table.drop_first()) {
                None => None,
                Some(rest) => Some(
                    ScriptV {
                        contents: seq![
                            ContentV {
                                idx,
                                offset: off,
                                codes: st.codes,
                                starts: st.starts,
                                ends: st.ends,
                            },
                        ] + rest.contents,
                        unknown: st.skipped + rest.unknown,
                    },
                ),
            },
        }
    }
}

/// The script decoded from a file image; `None` where the reader
/// runs past the end of the input.
pub open spec fn decode_script(b: Seq<u8>) -> Option<ScriptV> {
    match parse_table(b, 0) {
        Some(table) => decode_entries(b, table),
        None => None,
    }
}

/// The table read from `p` holds the pairs at `p`, `p + 8`, ... in order,
/// none of them two zeros, and ends at the first pair of zeros.
proof fn lemma_table_pairs(b: Seq<u8>, p: int)
    requires
        0 <= p,
    ensures
        parse_table(b, p) matches Some(t) ==> {
            &&& p + 8 * t.len() + 8 <= b.len()
            &&& u32_at(b, p + 8 * t.len()) == 0 && u32_at(b, p + 8 * t.len() + 4) == 0
            &&& forall|k: int|
                0 <= k < t.len() ==> #[trigger] t[k] == (u32_at(b, p + 8 * k), u32_at(b, p + 8 * k + 4))
                    && !(t[k].0 == 0 && t[k].1 == 0)
        },
    decreases b.len() - p,
{
    if 0 <= p && p + 8 <= b.len() {
        let idx = u32_at(b, p);
        let off = u32_at(b, p + 4);
        if !(idx == 0 && off == 0) {
            lemma_table_pairs(b, p + 8);
            if let Some(r) = parse_table(b, p + 8) {
                let t = seq![(idx, off)] + r;
                assert forall|k: int| 0 <= k < t.len() implies #[trigger] t[k] == (
                    u32_at(b, p + 8 * k),
                    u32_at(b, p + 8 * k + 4),
                ) && !(t[k].0 == 0 && t[k].1 == 0) by {
                    if k > 0 {
                        assert(t[k] == r[k - 1]);
                        assert(p + 8 + 8 * (k - 1) == p + 8 * k);
                    }
                }
            }
        }
    }
}

/// The entry for a table pair, from the state that decoding its
/// instructions ends in.
pub open spec fn entry_of(pair: (u32, u32), st: DecodeState) -> ContentV {
    ContentV { idx: pair.0, offset: pair.1, codes: st.codes, starts: st.starts, ends: st.ends }
}

/// The state that decoding the instructions of a table pair ends in.
#[verifier::opaque]
pub open spec fn entry_state(b: Seq<u8>, pair: (u32, u32)) -> Option<DecodeState> {
    decode_from(b, decode_start(pair.1 + 0x2000))
}

#[verifier::spinoff_prover]
#[verifier::rlimit(100)]
proof fn lemma_entries_each(b: Seq<u8>, table: Seq<(u32, u32)>)
    ensures
        decode_entries(b, table) matches Some(sv) ==> {
            &&& sv.contents.len() == table.len()
            &&& forall|k: int| 0 <= k < table.len() ==> #[trigger] entry_state(b, table[k]) is Some
            &&& forall|k: int|
                0 <= k < table.len() ==> #[trigger] sv.contents[k] == entry_of(
                    table[k],
                    entry_state(b, table[k])->0,
                )
        },
    decreases table.len(),
{
    reveal(entry_state);
    if table.len() > 0 {
        lemma_entries_each(b, table.drop_first());
        if let Some(sv) = decode_entries(b, table) {
            let rest = decode_entries(b, table.drop_first())->0;
            assert(entry_state(b, table[0]) is Some);
            let st = entry_state(b, table[0])->0;
            assert(sv.contents =~= seq![entry_of(table[0], st)] + rest.contents);
            assert(sv.contents.len() == table.len());
            assert forall|k: int| 0 <= k < table.len() implies #[trigger] entry_state(b, table[k]) is Some by {
                if k > 0 {
                    assert(table[k] == table.drop_first()[k - 1]);
                }
            }
            assert forall|k: int| 0 <= k < table.len() implies #[trigger] sv.contents[k] == entry_of(
                table[k],
                entry_state(b, table[k])->0,
            ) by {
                if k > 0 {
                    assert(sv.contents[k] == rest.contents[k - 1]);
                    assert(table[k] == table.drop_first()[k - 1]);
                }
            }
        }
    }
}

proof fn lemma_entries_some(b: Seq<u8>, table: Seq<(u32, u32)>)
    requires
        forall|k: int| 0 <= k < table.len() ==> #[trigger] entry_state(b, table[k]) is Some,
    ensures
        decode_entries(b, table) is Some,
    decreases table.len(),
{
    reveal(entry_state);
    if table.len() > 0 {
        assert forall|k: int| 0 <= k < table.drop_first().len() implies #[trigger] entry_state(
            b,
            table.drop_first()[k],
        ) is Some by {
            assert(table.drop_first()[k] == table[k + 1]);
        }
        lemma_entries_some(b, table.drop_first());
        assert(entry_state(b, table[0]) is Some);
    }
}

/// A decoded script has one entry per pair of its table, in order: the
/// table holds the pairs at 0, 8, 16, ... up to the first pair of zeros
/// (a pair with one zero word is kept), and entry `k` is the pair's index
/// and offset with the instructions and jump records that the decoding loop
/// gives from the pair's offset plus 0x2000.
pub proof fn lemma_decoded_entries(b: Seq<u8>)
    ensures
        decode_script(b) matches Some(sv) ==> (parse_table(b, 0) matches Some(t) && {
            &&& 8 * t.len() + 8 <= b.len()
            &&& u32_at(b, 8 * (t.len() as int)) == 0 && u32_at(b, 8 * (t.len() as int) + 4) == 0
            &&& sv.contents.len() == t.len()
            &&& forall|k: int|
                0 <= k < t.len() ==> #[trigger] t[k] == (u32_at(b, 8 * k), u32_at(b, 8 * k + 4))
                    && !(t[k].0 == 0 && t[k].1 == 0)
            &&& forall|k: int| 0 <= k < t.len() ==> #[trigger] entry_state(b, t[k]) is Some
            &&& forall|k: int|
                0 <= k < t.len() ==> #[trigger] sv.contents[k] == entry_of(t[k], entry_state(b, t[k])->0)
        }),
{
    lemma_table_pairs(b, 0);
    if let Some(t) = parse_table(b, 0) {
        lemma_entries_each(b, t);
        assert forall|k: int| 0 <= k < t.len() implies #[trigger] t[k] == (u32_at(b, 8 * k), u32_at(b, 8 * k + 4))
            && !(t[k].0 == 0 && t[k].1 == 0) by {
            assert(0 + 8 * k == 8 * k);
        }
    }
}

/// Why a script image could not be decoded.
#[derive(Debug, PartialEq, Eq)]
pub enum DecodeError {
    /// The image ends inside the table, an instruction or a text, or an
    /// entry holds more than `u32::MAX` rounds.
    Truncated,
}

fn read_fixed(r: &mut ByteCursor) -> (res: Option<(u16, String)>)
    requires
        old(r).pos() <= old(r).bytes().len(),
    ensures
        final(r).bytes() == old(r).bytes(),
        final(r).pos() <= final(r).bytes().len(),
        match res {
            Some((l, s)) => parse_fixed(old(r).bytes(), old(r).pos()) == Some((l, s@, final(r).pos())),
            None => parse_fixed(old(r).bytes(), old(r).pos()) is None,
        },
{
    if r.len() - r.position() < 2 {
        return None;
    }
    let raw = r.read_u16();
    let l = raw & 0x7fff;
    assert(l == raw % 32768) by (bit_vector)
        requires
            l == raw & 0x7fff,
    ;
    if (l as usize) > r.len() - r.position() {
        return None;
    }
    let s = r.read_fixed_shift_jis(l as usize);
    Some((l, s))
}

fn read_zero_text(r: &mut ByteCursor) -> (res: Option<String>)
    requires
        old(r).pos() <= old(r).bytes().len(),
    ensures
        final(r).bytes() == old(r).bytes(),
        final(r).pos() <= final(r).bytes().len(),
        match res {
            Some(s) => parse_zero_text(old(r).bytes(), old(r).pos()) == Some((s@, final(r).pos())),
            None => parse_zero_text(old(r).bytes(), old(r).pos()) is None,
        },
{
    match r.terminator_from(r.position()) {
        None => None,
        Some(_) => Some(r.read_shift_jis()),
    }
}

fn read_choices(r: &mut ByteCursor, n: u8) -> (res: Option<Vec<Choice>>)
    requires
        old(r).pos() <= old(r).bytes().len(),
    ensures
        final(r).bytes() == old(r).bytes(),
        final(r).pos() <= final(r).bytes().len(),
        match res {
            Some(cs) => parse_choices(old(r).bytes(), old(r).pos(), n as nat) == Some(
                (crate::code::choices_view(cs@), final(r).pos()),
            ),
            None => parse_choices(old(r).bytes(), old(r).pos(), n as nat) is None,
        },
{
    let ghost b = r.bytes();
    let ghost p0 = r.pos();
    let mut cs: Vec<Choice> = Vec::new();
    let mut i: u8 = 0;
    while i < n
        invariant
            i <= n,
            b == old(r).bytes(),
            p0 == old(r).pos(),
            r.bytes() == b,
            r.pos() <= b.len(),
            match parse_choices(b, r.pos(), (n - i) as nat) {
                Some((rest, e)) => parse_choices(b, p0, n as nat) == Some(
                    (crate::code::choices_view(cs@) + rest, e),
                ),
                None => parse_choices(b, p0, n as nat) is None,
            },
        decreases n - i,
    {
        let ghost p = r.pos();
        let (l, s) = match read_fixed(r) {
            None => {
                return None;
            },
            Some(v) => v,
        };
        if r.len() - r.position() < 4 {
            return None;
        }
        let e0 = r.read_u16();
        let e1 = r.read_u16();
        let ghost before = crate::code::choices_view(cs@);
        let c = Choice { len: l, choice: s, end_0: e0, end_1: e1 };
        cs.push(c);
        assert(crate::code::choices_view(cs@) =~= before.push(c@));
        assert forall|rest: Seq<ChoiceV>| #![auto] before + (seq![c@] + rest) == crate::code::choices_view(cs@) + rest by {
            assert(before + (seq![c@] + rest) =~= before.push(c@) + rest);
        }
        i = i + 1;
    }
    assert(crate::code::choices_view(cs@) + Seq::<ChoiceV>::empty() =~= crate::code::choices_view(cs@));
    Some(cs)
}

fn read_arg(r: &mut ByteCursor, k: Kind) -> (res: Option<Field>)
    requires
        old(r).pos() <= old(r).bytes().len(),
    ensures
        final(r).bytes() == old(r).bytes(),
        final(r).pos() <= final(r).bytes().len(),
        match res {
            Some(f) => parse_arg(old(r).bytes(), old(r).pos(), k) == Some((f@, final(r).pos())),
            None => parse_arg(old(r).bytes(), old(r).pos(), k) is None,
        },
{
    let rem = r.len() - r.position();
    match k {
        Kind::Byte => if rem >= 1 {
            Some(Field::Byte(r.read_u8()))
        } else {
            None
        },
        Kind::Word => if rem >= 2 {
            Some(Field::Word(r.read_u16()))
        } else {
            None
        },
        Kind::Dword => if rem >= 4 {
            Some(Field::Dword(r.read_u32()))
        } else {
            None
        },
        Kind::Text => match read_zero_text(r) {
            Some(s) => Some(Field::Text(s)),
            None => None,
        },
        Kind::EscText => match read_zero_text(r) {
            Some(s) => Some(Field::EscText(s)),
            None => None,
        },
        Kind::Fixed => match read_fixed(r) {
            Some((l, s)) => Some(Field::Fixed(l, s)),
            None => None,
        },
        Kind::Choices(n) => match read_choices(r, n) {
            Some(cs) => Some(Field::Choices(cs)),
            None => None,
        },
    }
}

fn read_args(r: &mut ByteCursor, ks: &Vec<Kind>) -> (res: Option<Vec<Field>>)
    requires
        old(r).pos() <= old(r).bytes().len(),
    ensures
        final(r).bytes() == old(r).bytes(),
        final(r).pos() <= final(r).bytes().len(),
        match res {
            Some(fs) => parse_args(old(r).bytes(), old(r).pos(), ks@) == Some(
                (args_view(fs@), final(r).pos()),
            ),
            None => parse_args(old(r).bytes(), old(r).pos(), ks@) is None,
        },
{
    let ghost b = r.bytes();
    let ghost p0 = r.pos();
    let mut fs: Vec<Field> = Vec::new();
    let mut i: usize = 0;
    assert(ks@.skip(0) =~= ks@);
    while i < ks.len()
        invariant
            i <= ks@.len(),
            b == old(r).bytes(),
            p0 == old(r).pos(),
            r.bytes() == b,
            r.pos() <= b.len(),
            match parse_args(b, r.pos(), ks@.skip(i as int)) {
                Some((rest, e)) => parse_args(b, p0, ks@) == Some((args_view(fs@) + rest, e)),
                None => parse_args(b, p0, ks@) is None,
            },
        decreases ks@.len() - i,
    {
        assert(ks@.skip(i as int).drop_first() =~= ks@.skip(i + 1));
        let f = match read_arg(r, ks[i]) {
            None => {
                return None;
            },
            Some(f) => f,
        };
        let ghost before = args_view(fs@);
        fs.push(f);
        assert(args_view(fs@) =~= before.push(f@));
        assert forall|rest: Seq<Arg>| #![auto] before + (seq![f@] + rest) == args_view(fs@) + rest by {
            assert(before + (seq![f@] + rest) =~= before.push(f@) + rest);
        }
        i = i + 1;
    }
    assert(ks@.skip(ks@.len() as int) =~= Seq::<Kind>::empty());
    assert(args_view(fs@) + Seq::<Arg>::empty() =~= args_view(fs@));
    Some(fs)
}

/// The exec state of the decoding loop as a value.
pub open spec fn state_of(
    pos: int,
    n: u32,
    codes: Seq<Code>,
    starts: Seq<u32>,
    ends: Seq<u32>,
    pos_end: u64,
    skipped: Seq<UnknownOpcode>,
) -> DecodeState {
    DecodeState {
        pos,
        n: n as int,
        codes: codes_view(codes),
        starts,
        ends,
        pos_end: pos_end as int,
        skipped: unknown_view(skipped),
    }
}

/// Decodes the instructions from the position of `reader` up to and
/// including the end instruction, with the jump records and the bytes that
/// were no opcode.
#[verifier::rlimit(50)]
fn decode(reader: &mut ByteCursor) -> (res: Result<
    (Vec<Code>, Vec<u32>, Vec<u32>, Vec<UnknownOpcode>),
    DecodeError,
>)
    requires
        old(reader).pos() <= old(reader).bytes().len(),
    ensures
        final(reader).bytes() == old(reader).bytes(),
        match res {
            Ok((codes, starts, ends, skipped)) => decode_from(
                old(reader).bytes(),
                decode_start(old(reader).pos()),
            ) == Some(
                DecodeState {
                    pos: final(reader).pos(),
                    n: decode_from(old(reader).bytes(), decode_start(old(reader).pos()))->0.n,
                    codes: codes_view(codes@),
                    starts: starts@,
                    ends: ends@,
                    pos_end: decode_from(
                        old(reader).bytes(),
                        decode_start(old(reader).pos()),
                    )->0.pos_end,
                    skipped: unknown_view(skipped@),
                },
            ),
            Err(_) => decode_from(old(reader).bytes(), decode_start(old(reader).pos())) is None,
        },
{
    let ghost b = reader.bytes();
    let ghost start = reader.pos();
    let mut codes: Vec<Code> = Vec::new();
    let mut start_3c: Vec<u32> = Vec::new();
    let mut end_3c: Vec<u32> = Vec::new();
    let mut skipped: Vec<UnknownOpcode> = Vec::new();
    let mut pos_end: u64 = 0xFFFF_FFFF_FFFF_FFFF;
    let mut n: u32 = 0;
    assert(codes_view(codes@) =~= Seq::empty());
    assert(unknown_view(skipped@) =~= Seq::empty());
    assert(state_of(start, n, codes@, start_3c@, end_3c@, pos_end, skipped@) == decode_start(start));
    loop
        invariant
            b == old(reader).bytes(),
            start == old(reader).pos(),
            reader.bytes() == b,
            reader.pos() <= b.len(),
            decode_from(b, decode_start(start)) == decode_from(
                b,
                state_of(reader.pos(), n, codes@, start_3c@, end_3c@, pos_end, skipped@),
            ),
        decreases b.len() - reader.pos(),
    {
        let ghost st = state_of(reader.pos(), n, codes@, start_3c@, end_3c@, pos_end, skipped@);
        let pos = reader.position();
        if pos as u64 == pos_end {
            end_3c.push(n);
        }
        if pos >= reader.len() {
            return Err(DecodeError::Truncated);
        }
        let op = reader.read_u8();
        match layout_of(op) {
            None => {
                if n == 0xFFFF_FFFF {
                    return Err(DecodeError::Truncated);
                }
                let ghost before = unknown_view(skipped@);
                skipped.push(UnknownOpcode { position: (pos + 1) as u64, opcode: op });
                assert(unknown_view(skipped@) =~= before.push(((pos + 1) as int, op)));
                n = n + 1;
            },
            Some(ks) => {
                let fields = match read_args(reader, &ks) {
                    None => {
                        return Err(DecodeError::Truncated);
                    },
                    Some(fs) => fs,
                };
                proof {
                    lemma_parse_args_bounds(b, pos + 1, ks@);
                }
                let a0: u16 = if fields.len() > 0 {
                    match &fields[0] {
                        Field::Word(w) => *w,
                        _ => 0,
                    }
                } else {
                    0
                };
                assert(first_word(args_view(fields@)) == a0 as int);
                let ghost args = args_view(fields@);
                let code = code_from_args(op, fields);
                let ghost before = codes_view(codes@);
                codes.push(code);
                assert(codes_view(codes@) =~= before.push((op, args)));
                if op == 0x08 || op == 0x09 || op == 0x2E || op == 0x54 {
                    start_3c.clear();
                    end_3c.clear();
                } else if op == 0x3C {
                    start_3c.push(n);
                }
                if op == 0xFF {
                    return Ok((codes, start_3c, end_3c, skipped));
                }
                if op == 0x3C {
                    if pos as u64 > 0xFFFF_FFFF_FFFF_FFFE - a0 as u64 {
                        return Err(DecodeError::Truncated);
                    }
                    pos_end = a0 as u64 + pos as u64 + 1;
                }
                if n == 0xFFFF_FFFF {
                    return Err(DecodeError::Truncated);
                }
                n = n + 1;
            },
        }
    }
}

impl ScriptYsV {
    /// Decodes a script file image: the decoded entries are `decode_script`
    /// of the bytes. `Err` exactly where that is `None`: the table has no
    /// pair of zeros before the end, an entry's instructions run past the end
    /// of the image, or a counter overflows. On those inputs the reader has
    /// nothing left to read, and `Err` is returned in place of a panic.
    pub fn new(buffer: &[u8]) -> (res: Result<ScriptYsV, DecodeError>)
        ensures
            match res {
                Ok(s) => decode_script(buffer@) == Some(s@),
                Err(_) => decode_script(buffer@) is None,
            },
    {
        let mut reader = ByteCursor::from_slice(buffer);
        let ghost b = buffer@;
        // The table of entries.
        let mut table: Vec<(u32, u32)> = Vec::new();
        assert(table@ + Seq::<(u32, u32)>::empty() =~= table@);
        loop
            invariant_except_break
                match parse_table(b, reader.pos()) {
                    Some(rest) => parse_table(b, 0) == Some(table@ + rest),
                    None => parse_table(b, 0) is None,
                },
            invariant
                b == buffer@,
                reader.bytes() == b,
                reader.pos() <= b.len(),
            ensures
                parse_table(b, 0) == Some(table@),
            decreases b.len() - reader.pos(),
        {
            if reader.len() - reader.position() < 8 {
                return Err(DecodeError::Truncated);
            }
            let idx = reader.read_u32();
            let offset = reader.read_u32();
            if idx == 0 && offset == 0 {
                assert(table@ + Seq::<(u32, u32)>::empty() =~= table@);
                break;
            }
            let ghost before = table@;
            table.push((idx, offset));
            assert forall|rest: Seq<(u32, u32)>| #![auto] before + (seq![(idx, offset)] + rest) == table@ + rest by {
                assert(before + (seq![(idx, offset)] + rest) =~= table@ + rest);
            }
        }
        assert(parse_table(b, 0) == Some(table@));
        // The entries.
        let mut contents: Vec<Content> = Vec::new();
        let mut unknown: Vec<UnknownOpcode> = Vec::new();
        let mut i: usize = 0;
        assert(table@.skip(0) =~= table@);
        while i < table.len()
            invariant
                i <= table@.len(),
                b == buffer@,
                reader.bytes() == b,
                parse_table(b, 0) == Some(table@),
                match decode_entries(b, table@.skip(i as int)) {
                    Some(rest) => decode_script(b) == Some(
                        ScriptV {
                            contents: contents_view(contents@) + rest.contents,
                            unknown: unknown_view(unknown@) + rest.unknown,
                        },
                    ),
                    None => decode_script(b) is None,
                },
            decreases table@.len() - i,
        {
            let (idx, offset) = table[i];
            assert(table@.skip(i as int)[0] == (idx, offset));
            assert(table@.skip(i as int).drop_first() =~= table@.skip(i + 1));
            let start = offset as u64 + REFERENCE;
            if start >= reader.len() as u64 {
                assert(decode_from(b, decode_start(offset + 0x2000)) is None);
                return Err(DecodeError::Truncated);
            }
            reader.seek(start as usize);
            let (codes, start_3c, end_3c, skipped) = match decode(&mut reader) {
                Err(e) => {
                    return Err(e);
                },
                Ok(r) => r,
            };
            let ghost cbefore = contents_view(contents@);
            let ghost ubefore = unknown_view(unknown@);
            let content = Content { idx, offset, codes, start_3c, end_3c };
            let ghost cv = content@;
            contents.push(content);
            assert(contents_view(contents@) =~= cbefore.push(cv));
            let mut skipped = skipped;
            let ghost sk = unknown_view(skipped@);
            unknown.append(&mut skipped);
            assert(unknown_view(unknown@) =~= ubefore + sk);
            proof {
                let st = decode_from(b, decode_start(offset + 0x2000))->0;
                assert(cv == ContentV { idx, offset, codes: st.codes, starts: st.starts, ends: st.ends });
                if let Some(rest) = decode_entries(b, table@.skip(i + 1)) {
                    assert(cbefore + (seq![cv] + rest.contents) =~= contents_view(contents@) + rest.contents);
                    assert(ubefore + (sk + rest.unknown) =~= unknown_view(unknown@) + rest.unknown);
                }
            }
            i = i + 1;
        }
        assert(table@.skip(table@.len() as int) =~= Seq::<(u32, u32)>::empty());
        assert(contents_view(contents@) + Seq::<ContentV>::empty() =~= contents_view(contents@));
        assert(unknown_view(unknown@) + Seq::<(int, u8)>::empty() =~= unknown_view(unknown@));
        Ok(ScriptYsV { contents, unknown })
    }
}


// ---------------------------------------------------------------------------
// Encoding
// ---------------------------------------------------------------------------

/// The stored length of a fixed-length text of `n` bytes: its low 15 bits
/// with the flag bit set, as `(n as u16) | 0x8000`.
pub open spec fn flagged_len(n: int) -> u16 {
    ((n % 32768) + 32768) as u16
}

/// A fixed-length text as script bytes: flagged length, then the bytes.
pub open spec fn encode_fixed(s: Seq<char>) -> Option<Seq<u8>> {
    match text_to_script_bytes(s) {
        Some(t) => Some(le16(flagged_len(t.len() as int)) + t),
        None => None,
    }
}

/// The choices as script bytes (all of them, whatever their number).
pub open spec fn encode_choices(cs: Seq<ChoiceV>) -> Option<Seq<u8>>
    decreases cs.len(),
{
    if cs.len() == 0 {
        Some(Seq::empty())
    } else {
        match encode_fixed(cs[0].1) {
            None => None,
            Some(t) => match encode_choices(cs.drop_first()) {
                None => None,
                Some(r) => Some(t + le16(cs[0].2) + le16(cs[0].3) + r),
            },
        }
    }
}

/// One operand as script bytes. Plain texts are written with Shift-JIS;
/// other texts have their markup turned back into control codes first.
pub open spec fn encode_arg(a: Arg) -> Option<Seq<u8>> {
    match a {
        Arg::Byte(v) => Some(seq![v]),
        Arg::Word(v) => Some(le16(v)),
        Arg::Dword(v) => Some(le32(v)),
        Arg::Text(s) => Some(shift_jis_encoded(s) + seq![0u8]),
        Arg::EscText(s) => match text_to_script_bytes(s) {
            Some(t) => Some(t + seq![0u8]),
            None => None,
        },
        Arg::Fixed(_, s) => encode_fixed(s),
        Arg::Choices(cs) => encode_choices(cs),
    }
}

/// The operands as script bytes, one after the other.
pub open spec fn encode_args(args: Seq<Arg>) -> Option<Seq<u8>>
    decreases args.len(),
{
    if args.len() == 0 {
        Some(Seq::empty())
    } else {
        match encode_arg(args[0]) {
            None => None,
            Some(t) => match encode_args(args.drop_first()) {
                None => None,
                Some(r) => Some(t + r),
            },
        }
    }
}

/// One instruction as script bytes: the opcode, then the operands.
pub open spec fn encode_code(c: (u8, Seq<Arg>)) -> Option<Seq<u8>> {
    match encode_args(c.1) {
        Some(t) => Some(seq![c.0] + t),
        None => None,
    }
}

/// The bytes of each instruction.
pub open spec fn encode_codes(cs: Seq<(u8, Seq<Arg>)>) -> Option<Seq<Seq<u8>>>
    decreases cs.len(),
{
    if cs.len() == 0 {
        Some(Seq::empty())
    } else {
        match encode_code(cs[0]) {
            None => None,
            Some(t) => match encode_codes(cs.drop_first()) {
                None => None,
                Some(r) => Some(seq![t] + r),
            },
        }
    }
}

/// The pieces one after the other.
pub open spec fn concat(ss: Seq<Seq<u8>>) -> Seq<u8>
    decreases ss.len(),
{
    if ss.len() == 0 {
        Seq::empty()
    } else {
        concat(ss.drop_last()) + ss.last()
    }
}

/// How often `v` occurs in `s`.
pub open spec fn count(s: Seq<u32>, v: int) -> nat
    decreases s.len(),
{
    if s.len() == 0 {
        0
    } else {
        count(s.drop_last(), v) + (if s.last() == v {
            1nat
        } else {
            0nat
        })
    }
}

/// The positions recorded for the first `n` instructions written from
/// `off`: for each instruction number in order, its position once for every
/// time the number occurs in `list`.
pub open spec fn marks(list: Seq<u32>, off: int, pieces: Seq<Seq<u8>>, n: nat) -> Seq<int>
    decreases n,
{
    if n == 0 {
        Seq::empty()
    } else {
        marks(list, off, pieces, (n - 1) as nat) + Seq::new(
            count(list, n - 1),
            |i: int| off + concat(pieces.take(n - 1)).len(),
        )
    }
}

/// The buffer after rewriting the first `k` jump distances: the 16-bit word
/// after a jump's opcode becomes the distance from the byte after the opcode
/// to its landing position. `None` where a landing position is not past its
/// jump, or a write would run past `usize::MAX`.
pub open spec fn apply_patches(buf: Seq<u8>, s: Seq<int>, e: Seq<int>, k: nat) -> Option<Seq<u8>>
    decreases k,
{
    if k == 0 {
        Some(buf)
    } else {
        match apply_patches(buf, s, e, (k - 1) as nat) {
            None => None,
            Some(b) => {
                let st = s[k - 1];
                let en = e[k - 1];
                if en < st + 1 || st + 3 > usize::MAX {
                    None
                } else {
                    Some(write_at(b, st + 1, le16(((en - st - 1) % 65536) as u16)))
                }
            },
        }
    }
}

/// The patch `j` is not overwritten by a later one among the first `m`: no
/// later jump's word shares a byte with its word.
pub open spec fn patch_kept(s: Seq<int>, m: int, j: int) -> bool {
    forall|k: int| j < k < m ==> #[trigger] s[k] + 1 >= s[j] + 3 || s[k] + 3 <= s[j] + 1
}

/// The word after the `j`-th jump's opcode in `r` is the distance from the
/// byte after that opcode to the `j`-th landing, mod 2^16.
pub open spec fn patch_at(r: Seq<u8>, s: Seq<int>, e: Seq<int>, j: int) -> bool {
    s[j] + 3 <= r.len() && u16_at(r, s[j] + 1) == ((e[j] - s[j] - 1) % 65536) as u16
}

/// Rewriting jump distances writes every one of them: after the first `m`
/// patches, the word after each jump's opcode is the distance from the byte
/// after that opcode to its landing, mod 2^16 (unless a later patch writes
/// over the same bytes), and every other byte of the buffer is unchanged.
pub proof fn lemma_patches_written(buf: Seq<u8>, s: Seq<int>, e: Seq<int>, m: nat)
    requires
        m <= s.len(),
        m <= e.len(),
        forall|j: int| 0 <= j < m ==> 0 <= #[trigger] s[j],
    ensures
        apply_patches(buf, s, e, m) matches Some(r) ==> {
            &&& r.len() >= buf.len()
            &&& forall|j: int| 0 <= j < m && patch_kept(s, m as int, j) ==> #[trigger] patch_at(r, s, e, j)
            &&& forall|i: int|
                0 <= i < buf.len() && (forall|j: int| 0 <= j < m ==> i < #[trigger] s[j] + 1 || i >= s[j] + 3)
                    ==> #[trigger] r[i] == buf[i]
        },
    decreases m,
{
    if m > 0 {
        lemma_patches_written(buf, s, e, (m - 1) as nat);
        if let Some(r) = apply_patches(buf, s, e, m) {
            let prev = apply_patches(buf, s, e, (m - 1) as nat)->0;
            let t = m - 1;
            let w = ((e[t] - s[t] - 1) % 65536) as u16;
            let q = s[t] + 1;
            assert(r == write_at(prev, q, le16(w)));
            crate::cursor::lemma_write_at_bytes(prev, q, le16(w));
            crate::cursor::lemma_read_after_write_u16(prev, q, w);
            assert(le16(w).len() == 2);
            assert(r.len() >= prev.len() && r.len() >= s[t] + 3);
            assert forall|j: int| 0 <= j < m && patch_kept(s, m as int, j) implies #[trigger] patch_at(
                r,
                s,
                e,
                j,
            ) by {
                if j < t {
                    assert(patch_kept(s, t, j));
                    assert(patch_at(prev, s, e, j));
                    assert(s[t] + 1 >= s[j] + 3 || s[t] + 3 <= s[j] + 1);
                    let i = s[j] + 1;
                    assert(u16_at(prev, s[j] + 1) == ((e[j] - s[j] - 1) % 65536) as u16);
                    assert(s[j] + 3 <= prev.len());
                    assert(r[i] == prev[i]);
                    assert(r[i + 1] == prev[i + 1]);
                }
            }
            assert forall|i: int|
                0 <= i < buf.len() && (forall|j: int| 0 <= j < m ==> i < #[trigger] s[j] + 1 || i >= s[j] + 3)
                    implies #[trigger] r[i] == buf[i] by {
                assert(forall|j: int| 0 <= j < t ==> i < #[trigger] s[j] + 1 || i >= s[j] + 3);
                assert(i < s[t] + 1 || i >= s[t] + 3);
                assert(prev[i] == buf[i]);
            }
        }
    }
}

/// The script buffer and position after writing one entry at `off`.
pub open spec fn write_entry(buf: Seq<u8>, off: int, c: ContentV) -> Option<(Seq<u8>, int)> {
    if c.codes.len() >= 0x1_0000_0000 {
        None
    } else {
        match encode_codes(c.codes) {
            None => None,
            Some(pieces) => {
                let all = concat(pieces);
                if off + all.len() > usize::MAX {
                    None
                } else {
                    let b1 = write_at(buf, off, all);
                    let s = marks(c.starts, off, pieces, pieces.len());
                    let e = marks(c.ends, off, pieces, pieces.len());
                    if s.len() == e.len() {
                        match apply_patches(b1, s, e, s.len()) {
                            None => None,
                            Some(b2) => Some((b2, off + all.len())),
                        }
                    } else {
                        Some((b1, off + all.len()))
                    }
                }
            },
        }
    }
}

/// Writing an entry rewrites every paired jump: where the recorded jumps and
/// landings pair up, the word after the opcode of the `j`-th recorded jump
/// (in instruction order) holds the distance from the byte after that opcode
/// to the `j`-th recorded landing, mod 2^16, unless a later jump's word
/// shares its bytes; the other bytes are the encoded instructions.
pub proof fn lemma_entry_jumps_written(buf: Seq<u8>, off: int, c: ContentV)
    requires
        0 <= off <= buf.len(),
    ensures
        write_entry(buf, off, c) matches Some((b2, p)) ==> (encode_codes(c.codes) matches Some(pieces) && {
            let s = marks(c.starts, off, pieces, pieces.len());
            let e = marks(c.ends, off, pieces, pieces.len());
            &&& p == off + concat(pieces).len()
            &&& s.len() == e.len() ==> forall|j: int|
                0 <= j < s.len() && patch_kept(s, s.len() as int, j) ==> #[trigger] patch_at(b2, s, e, j)
            &&& forall|i: int|
                0 <= i < concat(pieces).len() && (s.len() != e.len() || forall|j: int|
                    0 <= j < s.len() ==> off + i < #[trigger] s[j] + 1 || off + i >= s[j] + 3) ==> #[trigger] b2[off
                    + i] == concat(pieces)[i]
        }),
{
    if let Some((b2, p)) = write_entry(buf, off, c) {
        let pieces = encode_codes(c.codes)->0;
        let all = concat(pieces);
        let b1 = write_at(buf, off, all);
        crate::cursor::lemma_write_at_bytes(buf, off, all);
        let s = marks(c.starts, off, pieces, pieces.len());
        let e = marks(c.ends, off, pieces, pieces.len());
        lemma_marks_nonneg(c.starts, off, pieces, pieces.len());
        if s.len() == e.len() {
            lemma_patches_written(b1, s, e, s.len());
        }
        assert forall|i: int|
            0 <= i < all.len() && (s.len() != e.len() || forall|j: int|
                0 <= j < s.len() ==> off + i < #[trigger] s[j] + 1 || off + i >= s[j] + 3) implies #[trigger] b2[off
            + i] == all[i] by {
            assert(b1[off + i] == all[i]);
        }
    }
}

/// The table and the script buffer after writing entries.
pub struct ImageState {
    pub header: Seq<u8>,
    pub script: Seq<u8>,
    pub pos: int,
}

/// The table and script buffer after writing the entries `cs` in order.
pub open spec fn write_entries(cs: Seq<ContentV>) -> Option<ImageState>
    decreases cs.len(),
{
    if cs.len() == 0 {
        Some(ImageState { header: Seq::empty(), script: Seq::empty(), pos: 0 })
    } else {
        match write_entries(cs.drop_last()) {
            None => None,
            Some(st) => {
                let c = cs.last();
                if st.header.len() + 8 > usize::MAX {
                    None
                } else {
                    match write_entry(st.script, st.pos, c) {
                        None => None,
                        Some((b, p)) => Some(
                            ImageState {
                                header: st.header + le32(c.idx) + le32(
                                    (st.pos % 0x1_0000_0000) as u32,
                                ),
                                script: b,
                                pos: p,
                            },
                        ),
                    }
                }
            },
        }
    }
}

/// The file image of a script: the table padded with zeros to a multiple of
/// 0x2000 bytes, the script buffer, and zeros up to a multiple of 0x800
/// bytes. `None` where the image cannot be written (a text that does not
/// convert, a jump that does not land past itself, more than `u32::MAX`
/// instructions in an entry) or the image would not fit in memory.
pub open spec fn bin_image(cs: Seq<ContentV>) -> Option<Seq<u8>> {
    match write_entries(cs) {
        None => None,
        Some(st) => {
            let h = st.header;
            let hp = h + zeros(pad_count(h.len() as int, 0x2000) as nat);
            if h.len() + 0x2000 > usize::MAX || hp.len() + st.script.len() + 0x800 > usize::MAX {
                None
            } else {
                let all = hp + st.script;
                Some(all + zeros(pad_count(all.len() as int, 0x800) as nat))
            }
        },
    }
}

/// Why a script could not be written.
#[derive(Debug, PartialEq, Eq)]
pub enum EncodeError {
    /// A text does not convert, a jump does not land past itself, an entry
    /// holds more than `u32::MAX` instructions, or the image does not fit in
    /// memory.
    Unencodable,
}

fn encode_fixed_exec(s: &String) -> (r: Option<Vec<u8>>)
    ensures
        match r {
            Some(v) => encode_fixed(s@) == Some(v@),
            None => encode_fixed(s@) is None,
        },
{
    match get_bytes_string(s) {
        None => None,
        Some(mut t) => {
            let len = ((t.len() % 32768) as u16) + 32768;
            let mut out: Vec<u8> = Vec::new();
            out.push((len % 256) as u8);
            out.push((len / 256) as u8);
            let ghost tv = t@;
            out.append(&mut t);
            assert(out@ =~= le16(flagged_len(tv.len() as int)) + tv);
            Some(out)
        },
    }
}

fn push_le16(out: &mut Vec<u8>, v: u16)
    ensures
        final(out)@ == old(out)@ + le16(v),
{
    out.push((v % 256) as u8);
    out.push((v / 256) as u8);
    assert(final(out)@ =~= old(out)@ + le16(v));
}

fn encode_choices_exec(cs: &Vec<Choice>) -> (r: Option<Vec<u8>>)
    ensures
        match r {
            Some(v) => encode_choices(crate::code::choices_view(cs@)) == Some(v@),
            None => encode_choices(crate::code::choices_view(cs@)) is None,
        },
{
    let ghost all = crate::code::choices_view(cs@);
    let mut out: Vec<u8> = Vec::new();
    let mut i: usize = 0;
    assert(all.skip(0) =~= all);
    while i < cs.len()
        invariant
            i <= cs@.len(),
            all == crate::code::choices_view(cs@),
            match encode_choices(all.skip(i as int)) {
                Some(r) => encode_choices(all) == Some(out@ + r),
                None => encode_choices(all) is None,
            },
        decreases cs@.len() - i,
    {
        assert(all.skip(i as int)[0] == cs@[i as int]@);
        assert(all.skip(i as int).drop_first() =~= all.skip(i + 1));
        let c = &cs[i];
        let mut t = match encode_fixed_exec(&c.choice) {
            None => {
                return None;
            },
            Some(t) => t,
        };
        let ghost before = out@;
        let ghost piece = t@ + le16(c.end_0) + le16(c.end_1);
        out.append(&mut t);
        push_le16(&mut out, c.end_0);
        push_le16(&mut out, c.end_1);
        assert(out@ =~= before + piece);
        assert forall|r: Seq<u8>| #![auto] before + (piece + r) == out@ + r by {
            assert(before + (piece + r) =~= out@ + r);
        }
        i = i + 1;
    }
    assert(all.skip(cs@.len() as int) =~= Seq::<ChoiceV>::empty());
    assert(out@ + Seq::<u8>::empty() =~= out@);
    Some(out)
}

fn encode_field(f: &Field) -> (r: Option<Vec<u8>>)
    ensures
        match r {
            Some(v) => encode_arg(f@) == Some(v@),
            None => encode_arg(f@) is None,
        },
{
    match f {
        Field::Byte(v) => {
            let out = vec![*v];
            assert(out@ =~= seq![*v]);
            Some(out)
        },
        Field::Word(v) => {
            let mut out: Vec<u8> = Vec::new();
            push_le16(&mut out, *v);
            assert(out@ =~= le16(*v));
            Some(out)
        },
        Field::Dword(v) => {
            let x = *v;
            let out = vec![
                (x % 256) as u8,
                ((x / 256) % 256) as u8,
                ((x / 65536) % 256) as u8,
                (x / 16777216) as u8,
            ];
            assert(out@ =~= le32(x));
            Some(out)
        },
        Field::Text(s) => {
            let mut out = encode_shift_jis(s.as_str());
            let ghost t = out@;
            out.push(0);
            assert(out@ =~= t + seq![0u8]);
            Some(out)
        },
        Field::EscText(s) => match get_bytes_string(s) {
            None => None,
            Some(mut out) => {
                let ghost t = out@;
                out.push(0);
                assert(out@ =~= t + seq![0u8]);
                Some(out)
            },
        },
        Field::Fixed(_, s) => encode_fixed_exec(s),
        Field::Choices(cs) => encode_choices_exec(cs),
    }
}

/// The bytes of one instruction; `None` where one of its texts does not
/// convert.
pub fn encode_code_bytes(c: &Code) -> (r: Option<Vec<u8>>)
    ensures
        match r {
            Some(v) => encode_code((code_op(*c), code_args(*c))) == Some(v@),
            None => encode_code((code_op(*c), code_args(*c))) is None,
        },
{
    let (op, fields) = code_to_args(c);
    let ghost all = args_view(fields@);
    let mut out: Vec<u8> = vec![op];
    let mut i: usize = 0;
    assert(all.skip(0) =~= all);
    while i < fields.len()
        invariant
            i <= fields@.len(),
            all == args_view(fields@),
            all == code_args(*c),
            op == code_op(*c),
            out@.len() >= 1,
            out@[0] == op,
            match encode_args(all.skip(i as int)) {
                Some(r) => encode_args(all) == Some(out@.drop_first() + r),
                None => encode_args(all) is None,
            },
        decreases fields@.len() - i,
    {
        assert(all.skip(i as int)[0] == fields@[i as int]@);
        assert(all.skip(i as int).drop_first() =~= all.skip(i + 1));
        let mut t = match encode_field(&fields[i]) {
            None => {
                return None;
            },
            Some(t) => t,
        };
        let ghost before = out@;
        let ghost tv = t@;
        out.append(&mut t);
        assert(out@ =~= before + tv);
        assert forall|r: Seq<u8>| #![auto] before.drop_first() + (tv + r) == out@.drop_first() + r by {
            assert(before.drop_first() + (tv + r) =~= out@.drop_first() + r);
        }
        i = i + 1;
    }
    assert(all.skip(fields@.len() as int) =~= Seq::<Arg>::empty());
    assert(seq![op] + (out@.drop_first() + Seq::<u8>::empty()) =~= out@);
    Some(out)
}


proof fn lemma_concat_take(ss: Seq<Seq<u8>>, n: int)
    requires
        0 <= n < ss.len(),
    ensures
        concat(ss.take(n + 1)) == concat(ss.take(n)) + ss[n],
{
    assert(ss.take(n + 1).drop_last() =~= ss.take(n));
}

proof fn lemma_concat_prefix_len(ss: Seq<Seq<u8>>, n: int)
    requires
        0 <= n <= ss.len(),
    ensures
        concat(ss.take(n)).len() <= concat(ss).len(),
    decreases ss.len() - n,
{
    if n < ss.len() {
        lemma_concat_take(ss, n);
        lemma_concat_prefix_len(ss, n + 1);
    } else {
        assert(ss.take(n) =~= ss);
    }
}

proof fn lemma_patches_none(buf: Seq<u8>, s: Seq<int>, e: Seq<int>, k: nat, k2: nat)
    requires
        k <= k2,
        apply_patches(buf, s, e, k) is None,
    ensures
        apply_patches(buf, s, e, k2) is None,
    decreases k2,
{
    if k2 > k {
        lemma_patches_none(buf, s, e, k, (k2 - 1) as nat);
    }
}

proof fn lemma_patches_len(buf: Seq<u8>, s: Seq<int>, e: Seq<int>, k: nat)
    requires
        forall|i: int| 0 <= i < s.len() ==> s[i] >= 0,
        k <= s.len(),
    ensures
        apply_patches(buf, s, e, k) matches Some(b) ==> b.len() >= buf.len(),
    decreases k,
{
    if k > 0 {
        lemma_patches_len(buf, s, e, (k - 1) as nat);
        if let Some(b) = apply_patches(buf, s, e, (k - 1) as nat) {
            let st = s[k - 1];
            crate::cursor::lemma_write_at_len(b, st + 1, le16(((e[k - 1] - st - 1) % 65536) as u16));
        }
    }
}

proof fn lemma_count_take(s: Seq<u32>, j: int, v: int)
    requires
        0 <= j < s.len(),
    ensures
        count(s.take(j + 1), v) == count(s.take(j), v) + (if s[j] == v {
            1nat
        } else {
            0nat
        }),
{
    assert(s.take(j + 1).drop_last() =~= s.take(j));
}

proof fn lemma_marks_nonneg(list: Seq<u32>, off: int, pieces: Seq<Seq<u8>>, n: nat)
    requires
        off >= 0,
    ensures
        forall|i: int| 0 <= i < marks(list, off, pieces, n).len() ==> #[trigger] marks(list, off, pieces, n)[i] >= 0,
    decreases n,
{
    if n > 0 {
        lemma_marks_nonneg(list, off, pieces, (n - 1) as nat);
        let m = marks(list, off, pieces, n);
        let prev = marks(list, off, pieces, (n - 1) as nat);
        assert forall|i: int| 0 <= i < m.len() implies #[trigger] m[i] >= 0 by {
            if i < prev.len() {
                assert(m[i] == prev[i]);
            }
        }
    }
}

proof fn lemma_write_entry_pos(buf: Seq<u8>, off: int, c: ContentV)
    requires
        0 <= off <= buf.len(),
    ensures
        write_entry(buf, off, c) matches Some((b, p)) ==> 0 <= p <= b.len(),
{
    if let Some(pieces) = encode_codes(c.codes) {
        let all = concat(pieces);
        crate::cursor::lemma_write_at_len(buf, off, all);
        let b1 = write_at(buf, off, all);
        let s = marks(c.starts, off, pieces, pieces.len());
        let e = marks(c.ends, off, pieces, pieces.len());
        lemma_marks_nonneg(c.starts, off, pieces, pieces.len());
        lemma_patches_len(b1, s, e, s.len());
    }
}

/// The values of positions.
pub open spec fn positions_view(s: Seq<usize>) -> Seq<int> {
    s.map_values(|x: usize| x as int)
}

/// The values of byte buffers.
pub open spec fn pieces_view(s: Seq<Vec<u8>>) -> Seq<Seq<u8>> {
    s.map_values(|v: Vec<u8>| v@)
}

fn record_marks(list: &Vec<u32>, n: usize, p: usize, out: &mut Vec<usize>)
    ensures
        positions_view(final(out)@) == positions_view(old(out)@) + Seq::new(
            count(list@, n as int),
            |i: int| p as int,
        ),
{
    let ghost base = positions_view(out@);
    let mut j: usize = 0;
    assert(list@.take(0) =~= Seq::<u32>::empty());
    assert(positions_view(out@) =~= base + Seq::new(count(list@.take(0), n as int), |i: int| p as int));
    while j < list.len()
        invariant
            j <= list@.len(),
            base == positions_view(old(out)@),
            positions_view(out@) == base + Seq::new(count(list@.take(j as int), n as int), |i: int| p as int),
        decreases list@.len() - j,
    {
        proof {
            lemma_count_take(list@, j as int, n as int);
        }
        if list[j] as u64 == n as u64 {
            let ghost before = positions_view(out@);
            out.push(p);
            assert(positions_view(out@) =~= before.push(p as int));
            assert(positions_view(out@) =~= base + Seq::new(count(list@.take(j + 1), n as int), |i: int| p as int));
        } else {
            assert(Seq::new(count(list@.take(j + 1), n as int), |i: int| p as int) =~= Seq::new(count(list@.take(j as int), n as int), |i: int| p as int));
        }
        j = j + 1;
    }
    assert(list@.take(list@.len() as int) =~= list@);
}

/// Writes one entry's instructions at the position of `script`, rewrites its
/// jump distances, and leaves the position past the instructions.
#[verifier::rlimit(50)]
fn write_entry_exec(script: &mut ByteCursor, c: &Content) -> (ok: bool)
    requires
        old(script).pos() <= old(script).bytes().len(),
    ensures
        ok ==> write_entry(old(script).bytes(), old(script).pos(), c@) == Some(
            (final(script).bytes(), final(script).pos()),
        ),
        !ok ==> write_entry(old(script).bytes(), old(script).pos(), c@) is None,
        ok ==> final(script).pos() <= final(script).bytes().len(),
{
    let ghost b0 = script.bytes();
    let ghost cv = c@;
    if c.codes.len() as u64 >= 0x1_0000_0000 {
        return false;
    }
    // The bytes of each instruction.
    let mut pieces: Vec<Vec<u8>> = Vec::new();
    let mut i: usize = 0;
    assert(cv.codes.skip(0) =~= cv.codes);
    assert(pieces_view(pieces@) + Seq::<Seq<u8>>::empty() =~= pieces_view(pieces@));
    while i < c.codes.len()
        invariant
            i <= c.codes@.len(),
            cv == c@,
            match encode_codes(cv.codes.skip(i as int)) {
                Some(r) => encode_codes(cv.codes) == Some(pieces_view(pieces@) + r),
                None => encode_codes(cv.codes) is None,
            },
        decreases c.codes@.len() - i,
    {
        assert(cv.codes.skip(i as int)[0] == (code_op(c.codes@[i as int]), code_args(c.codes@[i as int])));
        assert(cv.codes.skip(i as int).drop_first() =~= cv.codes.skip(i + 1));
        let t = match encode_code_bytes(&c.codes[i]) {
            None => {
                return false;
            },
            Some(t) => t,
        };
        let ghost before = pieces_view(pieces@);
        let ghost tv = t@;
        pieces.push(t);
        assert(pieces_view(pieces@) =~= before.push(tv));
        assert forall|r: Seq<Seq<u8>>| #![auto] before + (seq![tv] + r) == pieces_view(pieces@) + r by {
            assert(before + (seq![tv] + r) =~= pieces_view(pieces@) + r);
        }
        i = i + 1;
    }
    assert(cv.codes.skip(c.codes@.len() as int) =~= Seq::<(u8, Seq<Arg>)>::empty());
    assert(pieces_view(pieces@) + Seq::<Seq<u8>>::empty() =~= pieces_view(pieces@));
    let ghost pv = pieces_view(pieces@);
    assert(encode_codes(cv.codes) == Some(pv));
    // The length of all of them.
    let off = script.position();
    let mut total: usize = 0;
    let mut j: usize = 0;
    assert(pv.take(0) =~= Seq::<Seq<u8>>::empty());
    while j < pieces.len()
        invariant
            j <= pieces@.len(),
            pv == pieces_view(pieces@),
            cv == c@,
            c.codes@.len() < 0x1_0000_0000,
            encode_codes(cv.codes) == Some(pv),
            off as int == old(script).pos(),
            total == concat(pv.take(j as int)).len(),
            off + total <= usize::MAX,
        decreases pieces@.len() - j,
    {
        proof {
            lemma_concat_take(pv, j as int);
        }
        assert(pv[j as int] == pieces@[j as int]@);
        if pieces[j].len() > usize::MAX - off - total {
            proof {
                lemma_concat_prefix_len(pv, j + 1);
            }
            return false;
        }
        total = total + pieces[j].len();
        j = j + 1;
    }
    assert(pv.take(pv.len() as int) =~= pv);
    // The instructions, with the positions of the recorded ones.
    let mut starts: Vec<usize> = Vec::new();
    let mut ends: Vec<usize> = Vec::new();
    let mut n: usize = 0;
    assert(script.bytes() =~= write_at(b0, off as int, concat(pv.take(0)))) by {
        assert(write_at(b0, off as int, Seq::empty()) =~= b0);
    }
    assert(positions_view(starts@) =~= marks(cv.starts, off as int, pv, 0));
    assert(positions_view(ends@) =~= marks(cv.ends, off as int, pv, 0));
    while n < pieces.len()
        invariant
            n <= pieces@.len(),
            pv == pieces_view(pieces@),
            cv == c@,
            off as int == old(script).pos(),
            b0 == old(script).bytes(),
            c.codes@.len() < 0x1_0000_0000,
            encode_codes(cv.codes) == Some(pv),
            off + concat(pv).len() <= usize::MAX,
            script.bytes() == write_at(b0, off as int, concat(pv.take(n as int))),
            script.pos() == off + concat(pv.take(n as int)).len(),
            positions_view(starts@) == marks(cv.starts, off as int, pv, n as nat),
            positions_view(ends@) == marks(cv.ends, off as int, pv, n as nat),
        decreases pieces@.len() - n,
    {
        let p = script.position();
        record_marks(&c.start_3c, n, p, &mut starts);
        record_marks(&c.end_3c, n, p, &mut ends);
        proof {
            lemma_concat_take(pv, n as int);
            lemma_concat_prefix_len(pv, n + 1);
            assert(pv[n as int] == pieces@[n as int]@);
        }
        script.write_bytes(pieces[n].as_slice());
        proof {
            crate::cursor::lemma_write_at_extend(b0, off as int, concat(pv.take(n as int)), pv[n as int]);
        }
        n = n + 1;
    }
    assert(pv.take(pv.len() as int) =~= pv);
    let tmp = script.position();
    let ghost b1 = script.bytes();
    let ghost sv = marks(cv.starts, off as int, pv, pv.len());
    let ghost ev = marks(cv.ends, off as int, pv, pv.len());
    proof {
        crate::cursor::lemma_write_at_len(b0, off as int, concat(pv));
        lemma_marks_nonneg(cv.starts, off as int, pv, pv.len());
    }
    if starts.len() == ends.len() {
        let mut k: usize = 0;
        while k < starts.len()
            invariant
                k <= starts@.len(),
                starts@.len() == ends@.len(),
                cv == c@,
                c.codes@.len() < 0x1_0000_0000,
                encode_codes(cv.codes) == Some(pv),
                off as int == old(script).pos(),
                b0 == old(script).bytes(),
                off + concat(pv).len() <= usize::MAX,
                b1 == write_at(b0, off as int, concat(pv)),
                sv == marks(cv.starts, off as int, pv, pv.len()),
                ev == marks(cv.ends, off as int, pv, pv.len()),
                sv == positions_view(starts@),
                ev == positions_view(ends@),
                apply_patches(b1, sv, ev, k as nat) == Some(script.bytes()),
            decreases starts@.len() - k,
        {
            let st = starts[k];
            let en = ends[k];
            if en <= st || st > usize::MAX - 3 {
                proof {
                    lemma_patches_none(b1, sv, ev, (k + 1) as nat, sv.len());
                }
                return false;
            }
            script.seek(st + 1);
            let d = en - st - 1;
            script.write_v((d % 65536) as u16);
            k = k + 1;
        }
        proof {
            lemma_patches_len(b1, sv, ev, sv.len());
        }
    }
    script.seek(tmp);
    true
}

proof fn lemma_entries_none(cs: Seq<ContentV>, i: int)
    requires
        0 <= i <= cs.len(),
        write_entries(cs.take(i)) is None,
    ensures
        write_entries(cs) is None,
    decreases cs.len() - i,
{
    if i < cs.len() {
        assert(cs.take(i + 1).drop_last() =~= cs.take(i));
        lemma_entries_none(cs, i + 1);
    } else {
        assert(cs.take(i) =~= cs);
    }
}

proof fn lemma_entries_pos(cs: Seq<ContentV>)
    ensures
        write_entries(cs) matches Some(st) ==> 0 <= st.pos <= st.script.len(),
    decreases cs.len(),
{
    if cs.len() > 0 {
        lemma_entries_pos(cs.drop_last());
        if let Some(st) = write_entries(cs.drop_last()) {
            lemma_write_entry_pos(st.script, st.pos, cs.last());
        }
    }
}


// ---------------------------------------------------------------------------
// Laws
// ---------------------------------------------------------------------------

/// No byte is zero.
pub open spec fn no_zero(t: Seq<u8>) -> bool {
    forall|i: int| 0 <= i < t.len() ==> #[trigger] t[i] != 0
}

/// A fixed-length text that comes back unchanged: its script bytes exist,
/// their number is the stored length and fits in 15 bits, and they decode to
/// the same text.
pub open spec fn fixed_round_trips(l: u16, s: Seq<char>) -> bool {
    match text_to_script_bytes(s) {
        Some(t) => t.len() == l && l < 32768 && script_bytes_to_text(t) == s,
        None => false,
    }
}

/// An operand value that comes back unchanged when written and read again.
pub open spec fn arg_round_trips(a: Arg) -> bool {
    match a {
        Arg::Byte(_) => true,
        Arg::Word(_) => true,
        Arg::Dword(_) => true,
        Arg::Text(s) => no_zero(shift_jis_encoded(s)) && shift_jis_decoded(shift_jis_encoded(s)) == s,
        Arg::EscText(s) => match text_to_script_bytes(s) {
            Some(t) => no_zero(t) && shift_jis_decoded(t) == s,
            None => false,
        },
        Arg::Fixed(l, s) => fixed_round_trips(l, s),
        Arg::Choices(cs) => forall|i: int| 0 <= i < cs.len() ==> fixed_round_trips(#[trigger] cs[i].0, cs[i].1),
    }
}

proof fn lemma_u16_at_concat(pre: Seq<u8>, v: u16, rest: Seq<u8>)
    ensures
        u16_at(pre + le16(v) + rest, pre.len() as int) == v,
{
    let b = pre + le16(v) + rest;
    assert(b[pre.len() as int] == le16(v)[0]);
    assert(b[pre.len() as int + 1] == le16(v)[1]);
}

proof fn lemma_u32_at_concat(pre: Seq<u8>, v: u32, rest: Seq<u8>)
    ensures
        u32_at(pre + le32(v) + rest, pre.len() as int) == v,
{
    let b = pre + le32(v) + rest;
    assert(b[pre.len() as int] == le32(v)[0]);
    assert(b[pre.len() as int + 1] == le32(v)[1]);
    assert(b[pre.len() as int + 2] == le32(v)[2]);
    assert(b[pre.len() as int + 3] == le32(v)[3]);
}

proof fn lemma_zero_from_text(b: Seq<u8>, p: int, t: Seq<u8>)
    requires
        0 <= p,
        p + t.len() < b.len(),
        b.subrange(p, p + t.len()) == t,
        no_zero(t),
        b[p + t.len()] == 0,
    ensures
        zero_from(b, p) == p + t.len(),
    decreases t.len(),
{
    if t.len() > 0 {
        assert(b[p] == t[0]);
        assert(b.subrange(p + 1, p + t.len()) =~= t.drop_first());
        lemma_zero_from_text(b, p + 1, t.drop_first());
    }
}

proof fn lemma_zero_text_round_trip(pre: Seq<u8>, t: Seq<u8>, rest: Seq<u8>)
    requires
        no_zero(t),
    ensures
        parse_zero_text(pre + (t + seq![0u8]) + rest, pre.len() as int) == Some(
            (shift_jis_decoded(t), (pre.len() + t.len() + 1) as int),
        ),
{
    let b = pre + (t + seq![0u8]) + rest;
    let p = pre.len() as int;
    assert(b.subrange(p, p + t.len()) =~= t);
    assert(b[p + t.len()] == 0);
    lemma_zero_from_text(b, p, t);
}

proof fn lemma_fixed_round_trip(pre: Seq<u8>, l: u16, s: Seq<char>, rest: Seq<u8>)
    requires
        fixed_round_trips(l, s),
    ensures
        encode_fixed(s) is Some,
        parse_fixed(pre + encode_fixed(s)->0 + rest, pre.len() as int) == Some(
            (l, s, (pre.len() + encode_fixed(s)->0.len()) as int),
        ),
{
    let t = text_to_script_bytes(s)->0;
    let enc = le16(flagged_len(t.len() as int)) + t;
    let b = pre + enc + rest;
    let p = pre.len() as int;
    assert(b =~= pre + le16(flagged_len(t.len() as int)) + (t + rest));
    lemma_u16_at_concat(pre, flagged_len(t.len() as int), t + rest);
    assert(flagged_len(t.len() as int) == t.len() + 32768);
    assert(b.subrange(p + 2, p + 2 + l) =~= t);
}

/// The bytes of one choice.
pub open spec fn choice_bytes(c: ChoiceV) -> Option<Seq<u8>> {
    match encode_fixed(c.1) {
        Some(t) => Some(t + le16(c.2) + le16(c.3)),
        None => None,
    }
}

proof fn lemma_one_choice_round_trip(pre: Seq<u8>, c: ChoiceV, rest: Seq<u8>)
    requires
        fixed_round_trips(c.0, c.1),
    ensures
        choice_bytes(c) is Some,
        parse_choice(pre + choice_bytes(c)->0 + rest, pre.len() as int) == Some(
            (c, (pre.len() + choice_bytes(c)->0.len()) as int),
        ),
{
    lemma_fixed_round_trip(pre, c.0, c.1, Seq::empty());
    let ft = encode_fixed(c.1)->0;
    let b = pre + choice_bytes(c)->0 + rest;
    assert(b =~= pre + ft + (le16(c.2) + le16(c.3) + rest));
    lemma_fixed_round_trip(pre, c.0, c.1, le16(c.2) + le16(c.3) + rest);
    assert(b =~= (pre + ft) + le16(c.2) + (le16(c.3) + rest));
    lemma_u16_at_concat(pre + ft, c.2, le16(c.3) + rest);
    assert(b =~= (pre + ft + le16(c.2)) + le16(c.3) + rest);
    lemma_u16_at_concat(pre + ft + le16(c.2), c.3, rest);
}

proof fn lemma_choices_round_trip(pre: Seq<u8>, cs: Seq<ChoiceV>, rest: Seq<u8>)
    requires
        forall|i: int| 0 <= i < cs.len() ==> fixed_round_trips(#[trigger] cs[i].0, cs[i].1),
    ensures
        encode_choices(cs) is Some,
        parse_choices(pre + encode_choices(cs)->0 + rest, pre.len() as int, cs.len()) == Some(
            (cs, (pre.len() + encode_choices(cs)->0.len()) as int),
        ),
    decreases cs.len(),
{
    if cs.len() > 0 {
        let c = cs[0];
        assert(fixed_round_trips(cs[0].0, cs[0].1));
        lemma_one_choice_round_trip(pre, c, Seq::empty());
        let piece = choice_bytes(c)->0;
        let tail = cs.drop_first();
        assert forall|i: int| 0 <= i < tail.len() implies fixed_round_trips(#[trigger] tail[i].0, tail[i].1) by {
            assert(tail[i] == cs[i + 1]);
            assert(fixed_round_trips(cs[i + 1].0, cs[i + 1].1));
        }
        lemma_choices_round_trip(pre + piece, tail, rest);
        let rt = encode_choices(tail)->0;
        assert(encode_choices(cs)->0 == piece + rt);
        let b = pre + encode_choices(cs)->0 + rest;
        assert(b =~= pre + piece + (rt + rest));
        lemma_one_choice_round_trip(pre, c, rt + rest);
        assert(b =~= (pre + piece) + rt + rest);
        assert(seq![c] + tail =~= cs);
    }
}

proof fn lemma_arg_round_trip(pre: Seq<u8>, a: Arg, k: Kind, rest: Seq<u8>)
    requires
        arg_fits(a, k),
        arg_round_trips(a),
    ensures
        encode_arg(a) is Some,
        parse_arg(pre + encode_arg(a)->0 + rest, pre.len() as int, k) == Some(
            (a, (pre.len() + encode_arg(a)->0.len()) as int),
        ),
{
    let p = pre.len() as int;
    match a {
        Arg::Byte(v) => {
            let b = pre + seq![v] + rest;
            assert(b[p] == v);
        },
        Arg::Word(v) => {
            lemma_u16_at_concat(pre, v, rest);
        },
        Arg::Dword(v) => {
            lemma_u32_at_concat(pre, v, rest);
        },
        Arg::Text(s) => {
            lemma_zero_text_round_trip(pre, shift_jis_encoded(s), rest);
        },
        Arg::EscText(s) => {
            lemma_zero_text_round_trip(pre, text_to_script_bytes(s)->0, rest);
        },
        Arg::Fixed(l, s) => {
            lemma_fixed_round_trip(pre, l, s, rest);
        },
        Arg::Choices(cs) => {
            lemma_choices_round_trip(pre, cs, rest);
        },
    }
}

proof fn lemma_args_round_trip(pre: Seq<u8>, args: Seq<Arg>, ks: Seq<Kind>, rest: Seq<u8>)
    requires
        args_fit(args, ks),
        forall|i: int| 0 <= i < args.len() ==> arg_round_trips(#[trigger] args[i]),
    ensures
        encode_args(args) is Some,
        parse_args(pre + encode_args(args)->0 + rest, pre.len() as int, ks) == Some(
            (args, (pre.len() + encode_args(args)->0.len()) as int),
        ),
    decreases args.len(),
{
    if args.len() > 0 {
        assert(arg_fits(args[0], ks[0]));
        assert(arg_round_trips(args[0]));
        lemma_arg_round_trip(pre, args[0], ks[0], Seq::empty());
        let t = encode_arg(args[0])->0;
        let tail = args.drop_first();
        let ktail = ks.drop_first();
        assert forall|i: int| 0 <= i < tail.len() implies #[trigger] arg_fits(tail[i], ktail[i]) by {
            assert(tail[i] == args[i + 1]);
            assert(ktail[i] == ks[i + 1]);
            assert(arg_fits(args[i + 1], ks[i + 1]));
        }
        assert forall|i: int| 0 <= i < tail.len() implies arg_round_trips(#[trigger] tail[i]) by {
            assert(tail[i] == args[i + 1]);
            assert(arg_round_trips(args[i + 1]));
        }
        lemma_args_round_trip(pre + t, tail, ktail, rest);
        let r = encode_args(tail)->0;
        let b = pre + encode_args(args)->0 + rest;
        assert(b =~= pre + t + (r + rest));
        lemma_arg_round_trip(pre, args[0], ks[0], r + rest);
        assert(b =~= (pre + t) + r + rest);
        assert(seq![args[0]] + tail =~= args);
    }
}

/// Writing an instruction and reading it back gives the same opcode and
/// operand values, whatever bytes follow, whenever its operands fit the
/// layout of the opcode and each of its texts comes back unchanged
/// (`arg_round_trips`).
pub proof fn lemma_code_round_trip(op: u8, args: Seq<Arg>, rest: Seq<u8>)
    requires
        layout(op) is Some,
        args_fit(args, layout(op)->0),
        forall|i: int| 0 <= i < args.len() ==> arg_round_trips(#[trigger] args[i]),
    ensures
        encode_code((op, args)) is Some,
        encode_code((op, args))->0[0] == op,
        parse_args(
            encode_code((op, args))->0 + rest,
            1,
            layout(op)->0,
        ) == Some((args, encode_code((op, args))->0.len() as int)),
{
    lemma_args_round_trip(seq![op], args, layout(op)->0, rest);
    let t = encode_args(args)->0;
    assert(encode_code((op, args))->0 == seq![op] + t);
}

/// The instructions end with the end instruction `FF`, and it occurs
/// nowhere else.
pub open spec fn ends_once(codes: Seq<(u8, Seq<Arg>)>) -> bool {
    &&& codes.len() >= 1
    &&& codes.last().0 == 0xFF
    &&& forall|i: int| 0 <= i < codes.len() - 1 ==> (#[trigger] codes[i]).0 != 0xFF
}

/// Every recorded jump number names a `3C` instruction and every recorded
/// landing number names an instruction.
pub open spec fn records_name_codes(codes: Seq<(u8, Seq<Arg>)>, starts: Seq<u32>, ends: Seq<u32>) -> bool {
    &&& forall|i: int| 0 <= i < starts.len() ==> #[trigger] starts[i] < codes.len() && codes[starts[i] as int].0 == 0x3C
    &&& forall|i: int| 0 <= i < ends.len() ==> #[trigger] ends[i] < codes.len()
}

spec fn decode_inv(st: DecodeState) -> bool {
    &&& 0 <= st.n <= 0xFFFF_FFFF
    &&& forall|i: int| 0 <= i < st.codes.len() ==> (#[trigger] st.codes[i]).0 != 0xFF
    &&& st.skipped.len() == 0 ==> st.n == st.codes.len()
    &&& forall|i: int| 0 <= i < st.starts.len() ==> #[trigger] st.starts[i] < st.n
    &&& st.skipped.len() == 0 ==> forall|i: int|
        0 <= i < st.starts.len() ==> st.codes[#[trigger] st.starts[i] as int].0 == 0x3C
    &&& forall|i: int| 0 <= i < st.ends.len() ==> #[trigger] st.ends[i] <= st.n
}

proof fn lemma_decode_shape(b: Seq<u8>, st: DecodeState)
    requires
        0 <= st.pos,
        decode_inv(st),
    ensures
        decode_from(b, st) matches Some(fin) ==> ends_once(fin.codes) && (fin.skipped.len() == 0
            ==> records_name_codes(fin.codes, fin.starts, fin.ends)),
    decreases b.len() - st.pos,
{
    if st.pos < b.len() {
        let ends1 = if st.pos == st.pos_end {
            st.ends.push(st.n as u32)
        } else {
            st.ends
        };
        assert forall|i: int| 0 <= i < ends1.len() implies #[trigger] ends1[i] <= st.n by {
            if i < st.ends.len() {
                assert(ends1[i] == st.ends[i]);
            }
        }
        let op = b[st.pos];
        match layout(op) {
            None => {
                if st.n < 0xFFFF_FFFF {
                    let next = DecodeState {
                        pos: st.pos + 1,
                        n: st.n + 1,
                        ends: ends1,
                        skipped: st.skipped.push((st.pos + 1, op)),
                        ..st
                    };
                    assert forall|i: int| 0 <= i < next.ends.len() implies #[trigger] next.ends[i] <= next.n by {
                        assert(ends1[i] <= st.n);
                    }
                    assert forall|i: int| 0 <= i < next.starts.len() implies #[trigger] next.starts[i] < next.n by {
                        assert(st.starts[i] < st.n);
                    }
                    lemma_decode_shape(b, next);
                }
            },
            Some(ks) => {
                lemma_parse_args_bounds(b, st.pos + 1, ks);
                if let Some((args, q)) = parse_args(b, st.pos + 1, ks) {
                    let codes = st.codes.push((op, args));
                    let starts = if clears_jumps(op) {
                        Seq::empty()
                    } else if op == 0x3C {
                        st.starts.push(st.n as u32)
                    } else {
                        st.starts
                    };
                    let ends = if clears_jumps(op) {
                        Seq::empty()
                    } else {
                        ends1
                    };
                    let pos_end = if op == 0x3C {
                        first_word(args) + st.pos + 1
                    } else {
                        st.pos_end
                    };
                    let next = DecodeState { pos: q, n: st.n + 1, codes, starts, ends, pos_end, ..st };
                    if op == 0xFF {
                        let fin = DecodeState { n: st.n, ..next };
                        assert forall|i: int| 0 <= i < codes.len() - 1 implies (#[trigger] codes[i]).0 != 0xFF by {
                            assert(codes[i] == st.codes[i]);
                        }
                        if fin.skipped.len() == 0 {
                            assert forall|i: int| 0 <= i < starts.len() implies #[trigger] starts[i] < codes.len()
                                && codes[starts[i] as int].0 == 0x3C by {
                                assert(starts[i] == st.starts[i]);
                                assert(st.starts[i] < st.n);
                                assert(codes[starts[i] as int] == st.codes[starts[i] as int]);
                            }
                            assert forall|i: int| 0 <= i < ends.len() implies #[trigger] ends[i] < codes.len() by {
                                assert(ends[i] == ends1[i]);
                            }
                        }
                    } else if pos_end <= 0xFFFF_FFFF_FFFF_FFFF && st.n < 0xFFFF_FFFF {
                        assert forall|i: int| 0 <= i < codes.len() implies (#[trigger] codes[i]).0 != 0xFF by {
                            if i < st.codes.len() {
                                assert(codes[i] == st.codes[i]);
                            }
                        }
                        assert forall|i: int| 0 <= i < starts.len() implies #[trigger] starts[i] < next.n by {
                            if !clears_jumps(op) && i < st.starts.len() {
                                assert(starts[i] == st.starts[i]);
                            }
                        }
                        if next.skipped.len() == 0 {
                            assert forall|i: int| 0 <= i < starts.len() implies codes[#[trigger] starts[i] as int].0
                                == 0x3C by {
                                if !clears_jumps(op) && i < st.starts.len() {
                                    assert(starts[i] == st.starts[i]);
                                    assert(st.starts[i] < st.n);
                                    assert(codes[starts[i] as int] == st.codes[starts[i] as int]);
                                }
                            }
                        }
                        assert forall|i: int| 0 <= i < ends.len() implies #[trigger] ends[i] <= next.n by {
                            if !clears_jumps(op) {
                                assert(ends[i] == ends1[i]);
                            }
                        }
                        lemma_decode_shape(b, next);
                    }
                }
            },
        }
    }
}

proof fn lemma_entries_shape(b: Seq<u8>, table: Seq<(u32, u32)>)
    ensures
        decode_entries(b, table) matches Some(sv) ==> forall|i: int|
            0 <= i < sv.contents.len() ==> ends_once(#[trigger] sv.contents[i].codes) && (sv.unknown.len()
                == 0 ==> records_name_codes(sv.contents[i].codes, sv.contents[i].starts, sv.contents[i].ends)),
    decreases table.len(),
{
    if table.len() > 0 {
        let (idx, off) = table[0];
        lemma_decode_shape(b, decode_start(off + 0x2000));
        lemma_entries_shape(b, table.drop_first());
        if let Some(sv) = decode_entries(b, table) {
            let st = decode_from(b, decode_start(off + 0x2000))->0;
            let rest = decode_entries(b, table.drop_first())->0;
            assert forall|i: int| 0 <= i < sv.contents.len() implies ends_once(#[trigger] sv.contents[i].codes)
                && (sv.unknown.len() == 0 ==> records_name_codes(
                sv.contents[i].codes,
                sv.contents[i].starts,
                sv.contents[i].ends,
            )) by {
                if i > 0 {
                    assert(sv.contents[i] == rest.contents[i - 1]);
                }
            }
        }
    }
}

/// The numbers of the `3C` jump instructions among `codes` that come after
/// the last text instruction (`08`, `09`, `2E`, `54`), in order.
pub open spec fn jumps_since_text(codes: Seq<(u8, Seq<Arg>)>) -> Seq<u32>
    decreases codes.len(),
{
    if codes.len() == 0 {
        Seq::empty()
    } else {
        let op = codes.last().0;
        if op == 0x08 || op == 0x09 || op == 0x2E || op == 0x54 {
            Seq::empty()
        } else if op == 0x3C {
            jumps_since_text(codes.drop_last()).push((codes.len() - 1) as u32)
        } else {
            jumps_since_text(codes.drop_last())
        }
    }
}

proof fn lemma_decode_jumps(b: Seq<u8>, st: DecodeState)
    requires
        0 <= st.pos,
        st.skipped.len() == 0 ==> st.n == st.codes.len() && st.starts == jumps_since_text(st.codes),
    ensures
        decode_from(b, st) matches Some(fin) ==> (fin.skipped.len() == 0 ==> fin.starts == jumps_since_text(
            fin.codes,
        )),
    decreases b.len() - st.pos,
{
    if st.pos < b.len() {
        let ends1 = if st.pos == st.pos_end {
            st.ends.push(st.n as u32)
        } else {
            st.ends
        };
        let op = b[st.pos];
        match layout(op) {
            None => {
                if st.n < 0xFFFF_FFFF {
                    let next = DecodeState {
                        pos: st.pos + 1,
                        n: st.n + 1,
                        ends: ends1,
                        skipped: st.skipped.push((st.pos + 1, op)),
                        ..st
                    };
                    lemma_decode_jumps(b, next);
                }
            },
            Some(ks) => {
                lemma_parse_args_bounds(b, st.pos + 1, ks);
                if let Some((args, q)) = parse_args(b, st.pos + 1, ks) {
                    let codes = st.codes.push((op, args));
                    let starts = if clears_jumps(op) {
                        Seq::empty()
                    } else if op == 0x3C {
                        st.starts.push(st.n as u32)
                    } else {
                        st.starts
                    };
                    let ends = if clears_jumps(op) {
                        Seq::empty()
                    } else {
                        ends1
                    };
                    let pos_end = if op == 0x3C {
                        first_word(args) + st.pos + 1
                    } else {
                        st.pos_end
                    };
                    let next = DecodeState { pos: q, n: st.n + 1, codes, starts, ends, pos_end, ..st };
                    assert(codes.drop_last() =~= st.codes);
                    assert(codes.last() == (op, args));
                    if op != 0xFF && pos_end <= 0xFFFF_FFFF_FFFF_FFFF && st.n < 0xFFFF_FFFF {
                        lemma_decode_jumps(b, next);
                    }
                }
            },
        }
    }
}

proof fn lemma_entries_jumps(b: Seq<u8>, table: Seq<(u32, u32)>)
    ensures
        decode_entries(b, table) matches Some(sv) ==> (sv.unknown.len() == 0 ==> forall|i: int|
            0 <= i < sv.contents.len() ==> (#[trigger] sv.contents[i]).starts == jumps_since_text(
                sv.contents[i].codes,
            )),
    decreases table.len(),
{
    if table.len() > 0 {
        let (idx, off) = table[0];
        assert(decode_start(off + 0x2000).codes =~= Seq::<(u8, Seq<Arg>)>::empty());
        lemma_decode_jumps(b, decode_start(off + 0x2000));
        lemma_entries_jumps(b, table.drop_first());
        if let Some(sv) = decode_entries(b, table) {
            let rest = decode_entries(b, table.drop_first())->0;
            if sv.unknown.len() == 0 {
                let st = decode_from(b, decode_start(off + 0x2000))->0;
                assert(sv.unknown == st.skipped + rest.unknown);
                assert(st.skipped.len() == 0 && rest.unknown.len() == 0);
                assert forall|i: int| 0 <= i < sv.contents.len() implies (#[trigger] sv.contents[i]).starts
                    == jumps_since_text(sv.contents[i].codes) by {
                    if i > 0 {
                        assert(sv.contents[i] == rest.contents[i - 1]);
                    }
                }
            }
        }
    }
}

/// Where decoding met no unknown opcode, each entry records as its jumps
/// exactly the `3C` instructions that follow its last text instruction, in
/// order of their numbers.
pub proof fn lemma_decoded_jumps(b: Seq<u8>)
    ensures
        decode_script(b) matches Some(sv) ==> (sv.unknown.len() == 0 ==> forall|i: int|
            0 <= i < sv.contents.len() ==> (#[trigger] sv.contents[i]).starts == jumps_since_text(
                sv.contents[i].codes,
            )),
{
    if let Some(t) = parse_table(b, 0) {
        lemma_entries_jumps(b, t);
    }
}

/// Every entry of a decoded script ends with the end instruction, which
/// occurs nowhere else in it; and where decoding met no unknown opcode,
/// every recorded jump number names a `3C` instruction of its entry and
/// every recorded landing number names an instruction of its entry.
pub proof fn lemma_decoded_script_shape(b: Seq<u8>)
    ensures
        decode_script(b) matches Some(sv) ==> forall|i: int|
            0 <= i < sv.contents.len() ==> ends_once(#[trigger] sv.contents[i].codes) && (sv.unknown.len()
                == 0 ==> records_name_codes(sv.contents[i].codes, sv.contents[i].starts, sv.contents[i].ends)),
{
    if let Some(table) = parse_table(b, 0) {
        lemma_entries_shape(b, table);
    }
}

proof fn lemma_header_shape(cs: Seq<ContentV>)
    ensures
        write_entries(cs) matches Some(st) ==> st.header.len() == 8 * cs.len() && forall|i: int|
            0 <= i < cs.len() ==> #[trigger] u32_at(st.header, 8 * i) == cs[i].idx,
    decreases cs.len(),
{
    if cs.len() > 0 {
        let init = cs.drop_last();
        lemma_header_shape(init);
        if let Some(st) = write_entries(cs) {
            let prev = write_entries(init)->0;
            let c = cs.last();
            let h0 = prev.header;
            let tail = le32((prev.pos % 0x1_0000_0000) as u32);
            assert(st.header == h0 + le32(c.idx) + tail);
            assert forall|i: int| 0 <= i < cs.len() implies #[trigger] u32_at(st.header, 8 * i) == cs[i].idx by {
                if i < init.len() {
                    assert(u32_at(h0, 8 * i) == init[i].idx);
                    assert(st.header[8 * i] == h0[8 * i]);
                    assert(st.header[8 * i + 1] == h0[8 * i + 1]);
                    assert(st.header[8 * i + 2] == h0[8 * i + 2]);
                    assert(st.header[8 * i + 3] == h0[8 * i + 3]);
                } else {
                    assert(st.header =~= h0 + le32(c.idx) + tail);
                    lemma_u32_at_concat(h0, c.idx, tail);
                }
            }
        }
    }
}

proof fn lemma_pad_aligned(n: int, m: int)
    requires
        m > 0,
        n >= 0,
    ensures
        (n + pad_count(n, m)) % m == 0,
{
    let r = n % m;
    vstd::arithmetic::div_mod::lemma_fundamental_div_mod(n, m);
    if r == 0 {
        assert(pad_count(n, m) == 0) by {
            vstd::arithmetic::div_mod::lemma_mod_self_0(m);
        }
    } else {
        assert(0 < m - r < m);
        assert(pad_count(n, m) == m - r) by {
            vstd::arithmetic::div_mod::lemma_small_mod((m - r) as nat, m as nat);
        }
        assert(n + (m - r) == m * (n / m + 1)) by (nonlinear_arith)
            requires
                n == m * (n / m) + r,
        ;
        vstd::arithmetic::div_mod::lemma_mod_multiples_basic(n / m + 1, m);
    }
}

/// An encoded script image is a whole number of 0x800-byte sectors, and its
/// table holds the index of each entry, in order, every eight bytes from the
/// start.
#[verifier::spinoff_prover]
pub proof fn lemma_image_layout(cs: Seq<ContentV>)
    ensures
        bin_image(cs) matches Some(img) ==> img.len() % 0x800 == 0 && forall|i: int|
            0 <= i < cs.len() ==> #[trigger] u32_at(img, 8 * i) == cs[i].idx,
{
    lemma_header_shape(cs);
    if let Some(img) = bin_image(cs) {
        let st = write_entries(cs)->0;
        let h = st.header;
        let hp = h + zeros(pad_count(h.len() as int, 0x2000) as nat);
        let all = hp + st.script;
        assert(img == all + zeros(pad_count(all.len() as int, 0x800) as nat));
        lemma_pad_aligned(all.len() as int, 0x800);
        assert(img.len() % 0x800 == 0);
        assert forall|i: int| 0 <= i < cs.len() implies #[trigger] u32_at(img, 8 * i) == cs[i].idx by {
            assert(u32_at(h, 8 * i) == cs[i].idx);
            assert(img[8 * i] == h[8 * i]);
            assert(img[8 * i + 1] == h[8 * i + 1]);
            assert(img[8 * i + 2] == h[8 * i + 2]);
            assert(img[8 * i + 3] == h[8 * i + 3]);
        }
    }
}

// ---------------------------------------------------------------------------
// Decoding, then encoding
// ---------------------------------------------------------------------------

/// Shift-JIS gives the bytes back from the text it decodes them to.
pub open spec fn text_lossless(raw: Seq<u8>) -> bool {
    shift_jis_encoded(shift_jis_decoded(raw)) == raw
}

/// The bytes are not empty, hold no `[{` pair and do not end in `[`: turning
/// markup back into control codes leaves them as they are.
pub open spec fn markup_free(raw: Seq<u8>) -> bool {
    &&& raw.len() >= 1
    &&& forall|i: int|
        0 <= i < raw.len() && #[trigger] raw[i] == 0x5B ==> i + 1 < raw.len() && raw[i + 1] != 0x7B
}

proof fn lemma_markup_free_unescape(raw: Seq<u8>)
    requires
        markup_free(raw),
    ensures
        unescape_scan(raw) == Some(raw),
    decreases raw.len(),
{
    if raw.len() > 1 {
        let r = raw.skip(1);
        assert forall|i: int| 0 <= i < r.len() && #[trigger] r[i] == 0x5B implies i + 1 < r.len() && r[i
            + 1] != 0x7B by {
            assert(r[i] == raw[i + 1]);
        }
        lemma_markup_free_unescape(r);
        assert(raw =~= seq![raw[0]] + r);
    } else {
        assert(raw =~= seq![raw[0]]);
    }
}

/// A fixed-length text at `p` in the form that encoding writes: the flag
/// bit of its length is set, and its bytes are non-empty, `markup_clean`,
/// and Shift-JIS gives back their escaped form.
pub open spec fn fixed_canonical(b: Seq<u8>, p: int) -> bool {
    let l = u16_at(b, p) % 32768;
    let raw = b.subrange(p + 2, p + 2 + l);
    &&& 0 <= p
    &&& p + 2 + l <= b.len()
    &&& u16_at(b, p) >= 32768
    &&& raw.len() >= 1
    &&& markup_clean(raw)
    &&& text_lossless(escaped_text_bytes(raw))
}

/// `n` choices at `p`, each with a fixed-length text in the form that
/// encoding writes.
pub open spec fn choices_canonical(b: Seq<u8>, p: int, n: nat) -> bool
    decreases n,
{
    n == 0 || (fixed_canonical(b, p) && choices_canonical(b, p + 2 + u16_at(b, p) % 32768 + 4, (n - 1) as nat))
}

/// The operand of kind `k` at `p` is in the form that encoding writes.
pub open spec fn arg_canonical(b: Seq<u8>, p: int, k: Kind) -> bool {
    let raw = b.subrange(p, zero_from(b, p));
    match k {
        Kind::Text => text_lossless(raw),
        Kind::EscText => text_lossless(raw) && markup_free(raw),
        Kind::Fixed => fixed_canonical(b, p),
        Kind::Choices(n) => choices_canonical(b, p, n as nat),
        _ => true,
    }
}

/// The operands of the kinds `ks` from `p` are in the form that encoding
/// writes.
pub open spec fn args_canonical(b: Seq<u8>, p: int, ks: Seq<Kind>) -> bool
    decreases ks.len(),
{
    ks.len() == 0 || (arg_canonical(b, p, ks[0]) && match parse_arg(b, p, ks[0]) {
        Some((a, q)) => args_canonical(b, q, ks.drop_first()),
        None => true,
    })
}

/// From `pos` on, every byte where an instruction starts is a known opcode
/// whose operands are in the form that encoding writes, up to and including
/// the end instruction.
pub open spec fn codes_canonical_from(b: Seq<u8>, pos: int) -> bool
    decreases b.len() - pos,
{
    if pos < 0 || pos >= b.len() {
        false
    } else {
        match layout(b[pos]) {
            None => false,
            Some(ks) => args_canonical(b, pos + 1, ks) && match parse_args(b, pos + 1, ks) {
                None => false,
                Some((args, q)) => b[pos] == 0xFF || (pos < q <= b.len() && codes_canonical_from(b, q)),
            },
        }
    }
}

proof fn lemma_zero_from_zero(b: Seq<u8>, p: int)
    requires
        0 <= p,
        zero_from(b, p) < b.len(),
    ensures
        p <= zero_from(b, p),
        b[zero_from(b, p)] == 0,
    decreases b.len() - p,
{
    if b[p] != 0 {
        lemma_zero_from_zero(b, p + 1);
    }
}

proof fn lemma_fixed_reencodes(b: Seq<u8>, p: int)
    requires
        fixed_canonical(b, p),
    ensures
        parse_fixed(b, p) matches Some((l, s, q)) && q == p + 2 + u16_at(b, p) % 32768 && encode_fixed(s)
            == Some(b.subrange(p, q)),
{
    let w = u16_at(b, p);
    let l = w % 32768;
    let raw = b.subrange(p + 2, p + 2 + l);
    crate::text::lemma_text_round_trip(raw);
    assert(flagged_len(raw.len() as int) == w);
    crate::cursor::lemma_le16_u16_at(b, p);
    assert(le16(w) + raw =~= b.subrange(p, p + 2 + l));
}

proof fn lemma_choices_reencodes(b: Seq<u8>, p: int, n: nat)
    requires
        0 <= p <= b.len(),
        choices_canonical(b, p, n),
    ensures
        parse_choices(b, p, n) matches Some((cs, q)) ==> encode_choices(cs) == Some(b.subrange(p, q)),
    decreases n,
{
    if n > 0 {
        lemma_fixed_reencodes(b, p);
        let q0 = p + 2 + u16_at(b, p) % 32768;
        if let Some((cs, q)) = parse_choices(b, p, n) {
            let (c, q1) = parse_choice(b, p)->0;
            assert(q1 == q0 + 4);
            lemma_choices_reencodes(b, q0 + 4, (n - 1) as nat);
            let rest = parse_choices(b, q1, (n - 1) as nat)->0;
            assert(cs == seq![c] + rest.0);
            assert(cs.drop_first() =~= rest.0);
            assert(cs[0] == c);
            lemma_parse_choices_bounds(b, q1, (n - 1) as nat);
            let (l, t, qf) = parse_fixed(b, p)->0;
            assert(qf == q0);
            assert(c == (l, t, u16_at(b, q0), u16_at(b, q0 + 2)));
            assert(encode_fixed(c.1) == Some(b.subrange(p, q0)));
            assert(encode_choices(cs.drop_first()) == Some(b.subrange(q1, q)));
            crate::cursor::lemma_le16_u16_at(b, q0);
            crate::cursor::lemma_le16_u16_at(b, q0 + 2);
            assert(encode_choices(cs) == Some(
                b.subrange(p, q0) + le16(c.2) + le16(c.3) + b.subrange(q1, q),
            ));
            assert(le16(c.2) == b.subrange(q0, q0 + 2));
            assert(le16(c.3) == b.subrange(q0 + 2, q0 + 4));
            assert(p <= q0 && q0 + 4 == q1 && q1 <= q && q <= b.len());
            assert(b.subrange(p, q0) + b.subrange(q0, q0 + 2) =~= b.subrange(p, q0 + 2));
            assert(b.subrange(p, q0 + 2) + b.subrange(q0 + 2, q0 + 4) =~= b.subrange(p, q1));
            assert(b.subrange(p, q1) + b.subrange(q1, q) =~= b.subrange(p, q));
        }
    } else {
        assert(b.subrange(p, p) =~= Seq::<u8>::empty());
    }
}

proof fn lemma_arg_reencodes(b: Seq<u8>, p: int, k: Kind)
    requires
        0 <= p <= b.len(),
        arg_canonical(b, p, k),
    ensures
        parse_arg(b, p, k) matches Some((a, q)) ==> encode_arg(a) == Some(b.subrange(p, q)),
{
    if let Some((a, q)) = parse_arg(b, p, k) {
        match k {
            Kind::Byte => {
                assert(seq![b[p]] =~= b.subrange(p, p + 1));
            },
            Kind::Word => {
                crate::cursor::lemma_le16_u16_at(b, p);
            },
            Kind::Dword => {
                crate::cursor::lemma_le32_u32_at(b, p);
            },
            Kind::Text => {
                lemma_zero_from_zero(b, p);
                let z = zero_from(b, p);
                assert(b.subrange(p, z) + seq![0u8] =~= b.subrange(p, z + 1));
            },
            Kind::EscText => {
                lemma_zero_from_zero(b, p);
                let z = zero_from(b, p);
                lemma_markup_free_unescape(b.subrange(p, z));
                assert(b.subrange(p, z) + seq![0u8] =~= b.subrange(p, z + 1));
            },
            Kind::Fixed => {
                lemma_fixed_reencodes(b, p);
            },
            Kind::Choices(n) => {
                lemma_choices_reencodes(b, p, n as nat);
            },
        }
    }
}

proof fn lemma_args_reencodes(b: Seq<u8>, p: int, ks: Seq<Kind>)
    requires
        0 <= p <= b.len(),
        args_canonical(b, p, ks),
    ensures
        parse_args(b, p, ks) matches Some((args, q)) ==> encode_args(args) == Some(b.subrange(p, q)),
    decreases ks.len(),
{
    if ks.len() > 0 {
        lemma_arg_reencodes(b, p, ks[0]);
        lemma_parse_arg_bounds(b, p, ks[0]);
        if let Some((a, q)) = parse_arg(b, p, ks[0]) {
            lemma_args_reencodes(b, q, ks.drop_first());
            lemma_parse_args_bounds(b, q, ks.drop_first());
            if let Some((r, e)) = parse_args(b, q, ks.drop_first()) {
                let args = seq![a] + r;
                assert(args[0] == a);
                assert(args.drop_first() =~= r);
                assert(b.subrange(p, q) + b.subrange(q, e) =~= b.subrange(p, e));
            }
        }
    }
}

proof fn lemma_encode_codes_push(cs: Seq<(u8, Seq<Arg>)>, c: (u8, Seq<Arg>))
    ensures
        encode_codes(cs) matches Some(ps) ==> (encode_code(c) matches Some(t) ==> encode_codes(cs.push(c))
            == Some(ps.push(t))),
    decreases cs.len(),
{
    if cs.len() > 0 {
        lemma_encode_codes_push(cs.drop_first(), c);
        assert(cs.push(c).drop_first() =~= cs.drop_first().push(c));
        assert(cs.push(c)[0] == cs[0]);
        if let Some(ps) = encode_codes(cs) {
            if let Some(t) = encode_code(c) {
                let r = encode_codes(cs.drop_first())->0;
                let t0 = encode_code(cs[0])->0;
                assert(ps == seq![t0] + r);
                assert(encode_codes(cs.drop_first().push(c)) == Some(r.push(t)));
                assert(encode_codes(cs.push(c).drop_first()) == Some(r.push(t)));
                assert(encode_code(cs.push(c)[0]) == Some(t0));
                assert(encode_codes(cs.push(c)) == Some(seq![t0] + r.push(t)));
                assert(seq![t0] + r.push(t) =~= ps.push(t));
            }
        }
    } else {
        assert(cs.push(c) =~= seq![c]);
        assert(cs.push(c).drop_first() =~= Seq::<(u8, Seq<Arg>)>::empty());
        if let Some(t) = encode_code(c) {
            assert(seq![t] + Seq::<Seq<u8>>::empty() =~= Seq::<Seq<u8>>::empty().push(t));
        }
    }
}

proof fn lemma_concat_push(ss: Seq<Seq<u8>>, t: Seq<u8>)
    ensures
        concat(ss.push(t)) == concat(ss) + t,
{
    assert(ss.push(t).drop_last() =~= ss);
}

#[verifier::rlimit(50)]
proof fn lemma_trace_reencodes(b: Seq<u8>, st: DecodeState, start: int, pieces: Seq<Seq<u8>>)
    requires
        0 <= start <= st.pos,
        codes_canonical_from(b, st.pos),
        encode_codes(st.codes) == Some(pieces),
        concat(pieces) == b.subrange(start, st.pos),
    ensures
        decode_from(b, st) matches Some(fin) ==> (encode_codes(fin.codes) matches Some(pf) && concat(pf)
            == b.subrange(start, fin.pos) && start <= fin.pos <= b.len()),
    decreases b.len() - st.pos,
{
    let pos = st.pos;
    let op = b[pos];
    let ks = layout(op)->0;
    lemma_args_reencodes(b, pos + 1, ks);
    lemma_parse_args_bounds(b, pos + 1, ks);
    let (args, q) = parse_args(b, pos + 1, ks)->0;
    let piece = seq![op] + b.subrange(pos + 1, q);
    assert(piece =~= b.subrange(pos, q));
    assert(encode_code((op, args)) == Some(piece));
    lemma_encode_codes_push(st.codes, (op, args));
    lemma_concat_push(pieces, piece);
    assert(b.subrange(start, pos) + b.subrange(pos, q) =~= b.subrange(start, q));
    if op != 0xFF {
        if let Some(fin) = decode_from(b, st) {
            let codes = st.codes.push((op, args));
            let starts = if clears_jumps(op) {
                Seq::empty()
            } else if op == 0x3C {
                st.starts.push(st.n as u32)
            } else {
                st.starts
            };
            let ends1 = if st.pos == st.pos_end {
                st.ends.push(st.n as u32)
            } else {
                st.ends
            };
            let ends = if clears_jumps(op) {
                Seq::empty()
            } else {
                ends1
            };
            let pos_end = if op == 0x3C {
                first_word(args) + st.pos + 1
            } else {
                st.pos_end
            };
            let next = DecodeState { pos: q, n: st.n + 1, codes, starts, ends, pos_end, ..st };
            assert(decode_from(b, st) == decode_from(b, next));
            lemma_trace_reencodes(b, next, start, pieces.push(piece));
        }
    }
}

/// The instructions of an entry, decoded from bytes in the form that
/// encoding writes, encode back to exactly those bytes.
proof fn lemma_entry_codes_reencode(b: Seq<u8>, pair: (u32, u32))
    requires
        codes_canonical_from(b, pair.1 + 0x2000),
        entry_state(b, pair) is Some,
    ensures
        pair.1 + 0x2000 <= entry_state(b, pair)->0.pos <= b.len(),
        encode_codes(entry_state(b, pair)->0.codes) matches Some(pieces) && concat(pieces) == b.subrange(
            pair.1 + 0x2000,
            entry_state(b, pair)->0.pos,
        ),
{
    reveal(entry_state);
    let start = pair.1 + 0x2000;
    assert(b.subrange(start, start) =~= Seq::<u8>::empty());
    assert(concat(Seq::<Seq<u8>>::empty()) == Seq::<u8>::empty());
    lemma_trace_reencodes(b, decode_start(start), start, Seq::empty());
}

/// The jump words of an entry written at `off` as `pieces` already hold, in
/// the image `b` (whose script part starts at 0x2000), the distances that
/// encoding writes: where the recorded jumps and landings pair up, the
/// word after the `j`-th jump's opcode is the distance from the byte after
/// that opcode to the `j`-th landing, which lies past it.
pub open spec fn jumps_in_place(b: Seq<u8>, off: int, c: ContentV, pieces: Seq<Seq<u8>>) -> bool {
    let s = marks(c.starts, off, pieces, pieces.len());
    let e = marks(c.ends, off, pieces, pieces.len());
    s.len() == e.len() ==> forall|j: int|
        0 <= j < s.len() ==> {
            &&& e[j] >= #[trigger] s[j] + 1
            &&& s[j] + 3 <= off + concat(pieces).len()
            &&& u16_at(b, 0x2000 + s[j] + 1) == ((e[j] - s[j] - 1) % 65536) as u16
        }
}

/// The decoded entry `c` of the table pair `pair` encodes back to exactly
/// the bytes it was decoded from, jump words included.
pub open spec fn entry_reencodes(b: Seq<u8>, pair: (u32, u32), c: ContentV) -> bool {
    let start = pair.1 + 0x2000;
    let end = entry_state(b, pair)->0.pos;
    &&& start <= end <= b.len()
    &&& c.codes.len() < 0x1_0000_0000
    &&& encode_codes(c.codes) matches Some(pieces) && concat(pieces) == b.subrange(start, end)
        && jumps_in_place(b, pair.1 as int, c, pieces)
}

/// The instructions of the table pair `pair` are in the form that encoding
/// writes: they decode, every operand is canonical up to the end
/// instruction, there are fewer than 2^32 of them, and the jump words hold
/// the distances that encoding writes.
pub open spec fn entry_canonical(b: Seq<u8>, pair: (u32, u32)) -> bool {
    let st = entry_state(b, pair)->0;
    &&& entry_state(b, pair) is Some
    &&& codes_canonical_from(b, pair.1 + 0x2000)
    &&& st.codes.len() < 0x1_0000_0000
    &&& jumps_in_place(b, pair.1 as int, entry_of(pair, st), encode_codes(st.codes)->0)
}

proof fn lemma_entry_canonical(b: Seq<u8>, pair: (u32, u32))
    requires
        entry_canonical(b, pair),
    ensures
        entry_reencodes(b, pair, entry_of(pair, entry_state(b, pair)->0)),
{
    lemma_entry_codes_reencode(b, pair);
}

/// A script image in the form that encoding writes: a table of `n >= 1`
/// pairs followed by zeros up to 0x2000; the entries' instructions stored
/// back to back from 0x2000 in table order, each encoding back to its own
/// bytes; and zeros after the last entry up to a multiple of 0x800.
pub open spec fn image_canonical(b: Seq<u8>) -> bool {
    parse_table(b, 0) matches Some(t) && {
        let n = t.len() as int;
        let last_end = entry_state(b, t[n - 1])->0.pos;
        &&& n >= 1
        &&& 8 * n + 8 <= 0x2000
        &&& b.len() + 0x800 <= usize::MAX
        &&& forall|i: int| 8 * n <= i < 0x2000 ==> #[trigger] b[i] == 0
        &&& t[0].1 == 0
        &&& forall|k: int| 0 <= k < n - 1 ==> #[trigger] entry_state(b, t[k])->0.pos == t[k + 1].1 + 0x2000
        &&& forall|k: int| 0 <= k < n ==> #[trigger] entry_canonical(b, t[k])
        &&& b.len() == last_end + pad_count(last_end, 0x800)
        &&& forall|i: int| last_end <= i < b.len() ==> #[trigger] b[i] == 0
    }
}

proof fn lemma_patches_same(buf: Seq<u8>, s: Seq<int>, e: Seq<int>, m: nat)
    requires
        m <= s.len(),
        m <= e.len(),
        forall|j: int|
            0 <= j < m ==> {
                &&& 0 <= #[trigger] s[j]
                &&& e[j] >= s[j] + 1
                &&& s[j] + 3 <= buf.len()
                &&& s[j] + 3 <= usize::MAX
                &&& le16(((e[j] - s[j] - 1) % 65536) as u16) == buf.subrange(s[j] + 1, s[j] + 3)
            },
    ensures
        apply_patches(buf, s, e, m) == Some(buf),
    decreases m,
{
    if m > 0 {
        lemma_patches_same(buf, s, e, (m - 1) as nat);
        let j = m - 1;
        assert(0 <= s[j]);
        crate::cursor::lemma_write_same(buf, s[j] + 1, 2);
    }
}

/// Where an entry re-encodes to its bytes, writing it after the script bytes
/// that precede it gives the script bytes up to its end.
proof fn lemma_entry_write_same(b: Seq<u8>, pair: (u32, u32), c: ContentV)
    requires
        entry_reencodes(b, pair, c),
        b.len() <= usize::MAX,
    ensures
        write_entry(b.subrange(0x2000, pair.1 + 0x2000), pair.1 as int, c) == Some(
            (b.subrange(0x2000, entry_state(b, pair)->0.pos), entry_state(b, pair)->0.pos - 0x2000),
        ),
{
    let off = pair.1 as int;
    let start = off + 0x2000;
    let end = entry_state(b, pair)->0.pos;
    let buf = b.subrange(0x2000, start);
    let pieces = encode_codes(c.codes)->0;
    let all = concat(pieces);
    assert(all == b.subrange(start, end));
    crate::cursor::lemma_write_at_len(buf, off, all);
    let b1 = write_at(buf, off, all);
    assert(b1 =~= b.subrange(0x2000, end));
    let s = marks(c.starts, off, pieces, pieces.len());
    let e = marks(c.ends, off, pieces, pieces.len());
    if s.len() == e.len() {
        lemma_marks_nonneg(c.starts, off, pieces, pieces.len());
        assert forall|j: int| 0 <= j < s.len() implies {
            &&& 0 <= #[trigger] s[j]
            &&& e[j] >= s[j] + 1
            &&& s[j] + 3 <= b1.len()
            &&& s[j] + 3 <= usize::MAX
            &&& le16(((e[j] - s[j] - 1) % 65536) as u16) == b1.subrange(s[j] + 1, s[j] + 3)
        } by {
            assert(s[j] >= 0);
            crate::cursor::lemma_le16_u16_at(b, 0x2000 + s[j] + 1);
            assert(b1.subrange(s[j] + 1, s[j] + 3) =~= b.subrange(0x2000 + s[j] + 1, 0x2000 + s[j] + 3));
        }
        lemma_patches_same(b1, s, e, s.len());
    }
}

/// The state of writing the first `k` entries of a canonical image.
pub open spec fn written_prefix(b: Seq<u8>, t: Seq<(u32, u32)>, k: int) -> ImageState {
    let off = if k < t.len() {
        t[k].1 as int
    } else {
        entry_state(b, t[t.len() - 1])->0.pos - 0x2000
    };
    ImageState { header: b.take(8 * k), script: b.subrange(0x2000, off + 0x2000), pos: off }
}

/// The entries of a canonical image, one per table pair.
pub open spec fn table_entries(b: Seq<u8>, t: Seq<(u32, u32)>) -> Seq<ContentV> {
    Seq::new(t.len(), |k: int| entry_of(t[k], entry_state(b, t[k])->0))
}

#[verifier::spinoff_prover]
proof fn lemma_write_step(b: Seq<u8>, cs: Seq<ContentV>, j: int, pair: (u32, u32))
    requires
        0 <= j < cs.len(),
        b.len() <= usize::MAX,
        8 * j + 8 <= b.len(),
        pair == (u32_at(b, 8 * j), u32_at(b, 8 * j + 4)),
        cs[j].idx == pair.0,
        entry_reencodes(b, pair, cs[j]),
        write_entries(cs.take(j)) == Some(
            ImageState {
                header: b.take(8 * j),
                script: b.subrange(0x2000, pair.1 + 0x2000),
                pos: pair.1 as int,
            },
        ),
    ensures
        write_entries(cs.take(j + 1)) == Some(
            ImageState {
                header: b.take(8 * j + 8),
                script: b.subrange(0x2000, entry_state(b, pair)->0.pos),
                pos: entry_state(b, pair)->0.pos - 0x2000,
            },
        ),
{
    assert(cs.take(j + 1).drop_last() =~= cs.take(j));
    assert(cs.take(j + 1).last() == cs[j]);
    let c = cs[j];
    lemma_entry_write_same(b, pair, c);
    crate::cursor::lemma_le32_u32_at(b, 8 * j);
    crate::cursor::lemma_le32_u32_at(b, 8 * j + 4);
    assert(((pair.1 as int) % 0x1_0000_0000) as u32 == pair.1);
    assert(b.take(8 * j) + le32(c.idx) + le32(((pair.1 as int) % 0x1_0000_0000) as u32) =~= b.take(
        8 * j + 8,
    ));
}

#[verifier::spinoff_prover]
#[verifier::rlimit(50)]
proof fn lemma_write_prefix(b: Seq<u8>, k: int)
    requires
        image_canonical(b),
        0 <= k <= parse_table(b, 0)->0.len(),
    ensures
        write_entries(table_entries(b, parse_table(b, 0)->0).take(k)) == Some(
            written_prefix(b, parse_table(b, 0)->0, k),
        ),
    decreases k,
{
    let t = parse_table(b, 0)->0;
    let n = t.len() as int;
    lemma_table_pairs(b, 0);
    let cs = table_entries(b, t);
    if k == 0 {
        assert(cs.take(0) =~= Seq::<ContentV>::empty());
        assert(b.take(0) =~= Seq::<u8>::empty());
        assert(entry_canonical(b, t[0]));
        lemma_entry_canonical(b, t[0]);
        assert(b.subrange(0x2000, 0x2000) =~= Seq::<u8>::empty());
    } else {
        lemma_write_prefix(b, k - 1);
        let j = k - 1;
        let pair = t[j];
        assert(entry_canonical(b, t[j]));
        lemma_entry_canonical(b, pair);
        assert(t[j] == (u32_at(b, 0 + 8 * j), u32_at(b, 0 + 8 * j + 4)));
        assert(0 + 8 * j == 8 * j);
        assert(cs[j] == entry_of(pair, entry_state(b, pair)->0));
        lemma_write_step(b, cs, j, pair);
        if k < n {
            assert(entry_state(b, t[j])->0.pos == t[k].1 + 0x2000);
        }
    }
}

proof fn lemma_canonical_image(b: Seq<u8>)
    requires
        image_canonical(b),
    ensures
        bin_image(table_entries(b, parse_table(b, 0)->0)) == Some(b),
{
    let t = parse_table(b, 0)->0;
    let n = t.len() as int;
    lemma_write_prefix(b, n);
    let cs = table_entries(b, t);
    assert(cs.take(n) =~= cs);
    let st = written_prefix(b, t, n);
    let last_end = entry_state(b, t[n - 1])->0.pos;
    assert(entry_canonical(b, t[n - 1]));
    lemma_entry_canonical(b, t[n - 1]);
    let h = st.header;
    assert(h.len() == 8 * n);
    let pad = pad_count(h.len() as int, 0x2000);
    assert(pad == 0x2000 - 8 * n);
    let hp = h + zeros(pad as nat);
    assert(hp =~= b.take(0x2000));
    let all = hp + st.script;
    assert(all =~= b.take(last_end));
    assert(all + zeros(pad_count(all.len() as int, 0x800) as nat) =~= b);
}

/// Decoding a script image in the form that encoding writes and encoding
/// the result again gives the image back, byte for byte.
#[verifier::spinoff_prover]
pub proof fn lemma_image_round_trip(b: Seq<u8>)
    requires
        image_canonical(b),
    ensures
        decode_script(b) matches Some(sv) && bin_image(sv.contents) == Some(b),
{
    let t = parse_table(b, 0)->0;
    assert forall|k: int| 0 <= k < t.len() implies #[trigger] entry_state(b, t[k]) is Some by {
        assert(entry_canonical(b, t[k]));
    }
    lemma_entries_some(b, t);
    lemma_decoded_entries(b);
    let sv = decode_script(b)->0;
    assert(sv.contents =~= table_entries(b, t));
    lemma_canonical_image(b);
}

impl ScriptYsV {
    /// The file image of the script: `bin_image` of its entries. `Err`
    /// exactly where that image is `None`: a text cannot be turned into
    /// script bytes (an escaped text whose encoding is empty, or markup
    /// that is cut short or not hex), a landing is recorded before its
    /// jump, or a position overflows. `Err` is returned in place of a panic
    /// on those inputs, and no partial image is returned.
    #[verifier::rlimit(100)]
    pub fn to_bin(&self) -> (res: Result<Vec<u8>, EncodeError>)
        ensures
            match res {
                Ok(v) => bin_image(contents_view(self.contents@)) == Some(v@),
                Err(_) => bin_image(contents_view(self.contents@)) is None,
            },
    {
        let ghost cs = contents_view(self.contents@);
        let mut file = ByteCursor::new(Vec::new());
        let mut script = ByteCursor::new(Vec::new());
        let mut i: usize = 0;
        assert(cs.take(0) =~= Seq::<ContentV>::empty());
        assert(file.bytes() =~= Seq::<u8>::empty());
        assert(script.bytes() =~= Seq::<u8>::empty());
        while i < self.contents.len()
            invariant
                i <= self.contents@.len(),
                cs == contents_view(self.contents@),
                write_entries(cs.take(i as int)) == Some(
                    ImageState { header: file.bytes(), script: script.bytes(), pos: script.pos() },
                ),
                file.pos() == file.bytes().len(),
                script.pos() <= script.bytes().len(),
            decreases self.contents@.len() - i,
        {
            assert(cs.take(i + 1).drop_last() =~= cs.take(i as int));
            assert(cs.take(i + 1).last() == self.contents@[i as int]@);
            let c = &self.contents[i];
            if file.position() > usize::MAX - 8 {
                proof {
                    lemma_entries_none(cs, i + 1);
                }
                return Err(EncodeError::Unencodable);
            }
            let off = script.position();
            let ghost h0 = file.bytes();
            file.write_v(c.idx);
            proof {
                crate::cursor::lemma_write_at_len(h0, h0.len() as int, le32(c.idx));
            }
            let n_off = ((off as u64) % 0x1_0000_0000) as u32;
            let ghost h1 = file.bytes();
            file.write_v(n_off);
            proof {
                crate::cursor::lemma_write_at_len(h1, h1.len() as int, le32(n_off));
                assert(file.bytes() == h0 + le32(c.idx) + le32(n_off));
            }
            proof {
                lemma_entries_pos(cs.take(i + 1));
            }
            if !write_entry_exec(&mut script, c) {
                proof {
                    lemma_entries_none(cs, i + 1);
                }
                return Err(EncodeError::Unencodable);
            }
            i = i + 1;
        }
        assert(cs.take(cs.len() as int) =~= cs);
        // The table, padded to where the instructions start.
        if file.position() > usize::MAX - 0x2000 {
            return Err(EncodeError::Unencodable);
        }
        let ghost h = file.bytes();
        file.write_padding(0x2000, 0);
        proof {
            crate::cursor::lemma_write_at_len(h, h.len() as int, zeros(pad_count(h.len() as int, 0x2000) as nat));
            if pad_count(h.len() as int, 0x2000) == 0 {
                assert(h + zeros(0) =~= h);
            }
        }
        let body = script.into_bytes();
        if body.len() > usize::MAX - 0x800 || file.position() > usize::MAX - 0x800 - body.len() {
            return Err(EncodeError::Unencodable);
        }
        let ghost hp = file.bytes();
        file.write_bytes(body.as_slice());
        proof {
            crate::cursor::lemma_write_at_len(hp, hp.len() as int, body@);
        }
        let ghost all = file.bytes();
        file.write_padding(0x800, 0);
        proof {
            crate::cursor::lemma_write_at_len(all, all.len() as int, zeros(pad_count(all.len() as int, 0x800) as nat));
            if pad_count(all.len() as int, 0x800) == 0 {
                assert(all + zeros(0) =~= all);
            }
        }
        Ok(file.into_bytes())
    }
}

} // verus!
