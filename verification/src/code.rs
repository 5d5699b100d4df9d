//! The script instructions: each opcode, the layout of its operands, and the
//! instruction values themselves.
//!
//! An instruction is one opcode byte followed by its operands. An operand is
//! a byte, a little-endian 16- or 32-bit word, a zero-terminated text, a
//! fixed-length text preceded by its 16-bit length (whose top bit is a flag),
//! or a fixed number of choices (each a fixed-length text and two words).

use vstd::prelude::*;

verus! {

/// The kind of one operand.
#[derive(Clone, Copy)]
pub enum Kind {
    /// One byte.
    Byte,
    /// A little-endian 16-bit word.
    Word,
    /// A little-endian 32-bit word.
    Dword,
    /// A zero-terminated text written with plain Shift-JIS.
    Text,
    /// A zero-terminated text whose control-code markup is turned back into
    /// control codes when it is written.
    EscText,
    /// A 16-bit length and a text of that many bytes.
    Fixed,
    /// The given number of choices.
    Choices(u8),
}

/// A choice as a value: its stored length, text and two words.
pub type ChoiceV = (u16, Seq<char>, u16, u16);

/// The value of one operand.
pub enum Arg {
    Byte(u8),
    Word(u16),
    Dword(u32),
    Text(Seq<char>),
    EscText(Seq<char>),
    Fixed(u16, Seq<char>),
    Choices(Seq<ChoiceV>),
}

/// One choice of a question: the stored length (without its flag bit), the
/// text, and two jump words.
#[derive(Debug, PartialEq, Eq)]
pub struct Choice {
    pub len: u16,
    pub choice: String,
    pub end_0: u16,
    pub end_1: u16,
}

impl View for Choice {
    type V = ChoiceV;

    open spec fn view(&self) -> ChoiceV {
        (self.len, self.choice@, self.end_0, self.end_1)
    }
}

/// The values of a list of choices.
pub open spec fn choices_view(cs: Seq<Choice>) -> Seq<ChoiceV> {
    cs.map_values(|c: Choice| c@)
}

/// One operand.
#[derive(Debug, PartialEq, Eq)]
pub enum Field {
    Byte(u8),
    Word(u16),
    Dword(u32),
    Text(String),
    EscText(String),
    Fixed(u16, String),
    Choices(Vec<Choice>),
}

impl View for Field {
    type V = Arg;

    open spec fn view(&self) -> Arg {
        match self {
            Field::Byte(v) => Arg::Byte(*v),
            Field::Word(v) => Arg::Word(*v),
            Field::Dword(v) => Arg::Dword(*v),
            Field::Text(s) => Arg::Text(s@),
            Field::EscText(s) => Arg::EscText(s@),
            Field::Fixed(l, s) => Arg::Fixed(*l, s@),
            Field::Choices(cs) => Arg::Choices(choices_view(cs@)),
        }
    }
}

/// The values of a list of operands.
pub open spec fn args_view(fs: Seq<Field>) -> Seq<Arg> {
    fs.map_values(|f: Field| f@)
}

/// An operand value has the given kind.
pub open spec fn arg_fits(a: Arg, k: Kind) -> bool {
    match (a, k) {
        (Arg::Byte(_), Kind::Byte) => true,
        (Arg::Word(_), Kind::Word) => true,
        (Arg::Dword(_), Kind::Dword) => true,
        (Arg::Text(_), Kind::Text) => true,
        (Arg::EscText(_), Kind::EscText) => true,
        (Arg::Fixed(_, _), Kind::Fixed) => true,
        (Arg::Choices(cs), Kind::Choices(n)) => cs.len() == n,
        _ => false,
    }
}

/// The operand values have the given kinds, one for one.
pub open spec fn args_fit(args: Seq<Arg>, ks: Seq<Kind>) -> bool {
    &&& args.len() == ks.len()
    &&& forall|i: int| 0 <= i < args.len() ==> #[trigger] arg_fits(args[i], ks[i])
}

fn take_byte(args: &mut Vec<Field>) -> (v: u8)
    requires
        old(args)@.len() > 0,
        old(args)@.last() is Byte,
    ensures
        final(args)@ == old(args)@.drop_last(),
        old(args)@.last() == Field::Byte(v),
{
    match args.pop() {
        Some(Field::Byte(v)) => v,
        _ => 0,
    }
}

fn take_word(args: &mut Vec<Field>) -> (v: u16)
    requires
        old(args)@.len() > 0,
        old(args)@.last() is Word,
    ensures
        final(args)@ == old(args)@.drop_last(),
        old(args)@.last() == Field::Word(v),
{
    match args.pop() {
        Some(Field::Word(v)) => v,
        _ => 0,
    }
}

fn take_dword(args: &mut Vec<Field>) -> (v: u32)
    requires
        old(args)@.len() > 0,
        old(args)@.last() is Dword,
    ensures
        final(args)@ == old(args)@.drop_last(),
        old(args)@.last() == Field::Dword(v),
{
    match args.pop() {
        Some(Field::Dword(v)) => v,
        _ => 0,
    }
}

fn take_text(args: &mut Vec<Field>) -> (v: String)
    requires
        old(args)@.len() > 0,
        old(args)@.last() is Text,
    ensures
        final(args)@ == old(args)@.drop_last(),
        old(args)@.last() == Field::Text(v),
{
    match args.pop() {
        Some(Field::Text(v)) => v,
        _ => String::new(),
    }
}

fn take_esc_text(args: &mut Vec<Field>) -> (v: String)
    requires
        old(args)@.len() > 0,
        old(args)@.last() is EscText,
    ensures
        final(args)@ == old(args)@.drop_last(),
        old(args)@.last() == Field::EscText(v),
{
    match args.pop() {
        Some(Field::EscText(v)) => v,
        _ => String::new(),
    }
}

fn take_fixed(args: &mut Vec<Field>) -> (v: (u16, String))
    requires
        old(args)@.len() > 0,
        old(args)@.last() is Fixed,
    ensures
        final(args)@ == old(args)@.drop_last(),
        old(args)@.last() == Field::Fixed(v.0, v.1),
{
    match args.pop() {
        Some(Field::Fixed(l, s)) => (l, s),
        _ => (0, String::new()),
    }
}

fn take_choices(args: &mut Vec<Field>) -> (v: Vec<Choice>)
    requires
        old(args)@.len() > 0,
        old(args)@.last() is Choices,
    ensures
        final(args)@ == old(args)@.drop_last(),
        old(args)@.last() == Field::Choices(v),
{
    match args.pop() {
        Some(Field::Choices(v)) => v,
        _ => Vec::new(),
    }
}

/// A copy of a list of choices.
pub fn clone_choices(cs: &Vec<Choice>) -> (r: Vec<Choice>)
    ensures
        r@ == cs@,
{
    let mut r: Vec<Choice> = Vec::new();
    let mut i: usize = 0;
    while i < cs.len()
        invariant
            i <= cs@.len(),
            r@ == cs@.take(i as int),
        decreases cs@.len() - i,
    {
        let c = &cs[i];
        r.push(Choice { len: c.len, choice: c.choice.clone(), end_0: c.end_0, end_1: c.end_1 });
        assert(cs@.take(i + 1) =~= cs@.take(i as int).push(cs@[i as int]));
        i = i + 1;
    }
    assert(cs@.take(cs@.len() as int) =~= cs@);
    r
}

/// One script instruction: the opcode (the variant) and its operands.
#[allow(inconsistent_fields)]
#[derive(Debug, PartialEq, Eq)]
pub enum Code {
    C00 {},
    C01 { a0: u8 },
    C02 { a0: u8 },
    C03 { a0: u8 },
    C04 {},
    C05 {},
    C06 {},
    C07 { a0: u8 },
    C08 { xstr: String },
    C09 { xstr: String },
    C0A { a0: u16, a1: u16, len: u16, str: String },
    C0B {},
    C0C {},
    C0D {},
    C0E { a0: u8 },
    C0F {},
    C10 {},
    C11 {},
    C12 {},
    C13 { a0: u16, a1: u8 },
    C14 { a0: u8 },
    C15 { a0: u16 },
    C16 { a0: u8, a1: u8, a2: u8 },
    C17 { str: String, a0: u16 },
    C18 { a0: u8, a1: u8, a2: u8 },
    C19 { a0: u16, a1: u16, a2: u16, a3: u16 },
    C1A { a0: u16, a1: u8 },
    C1B { a0: u16, a1: u32 },
    C1C { a0: u16, a1: u16 },
    C1D { a0: u16, a1: u8 },
    C1E { a0: u16, a1: u16, a2: u16, a3: u16, a4: u8 },
    C1F { a0: u16, a1: u8, a2: u8 },
    C20 { a0: u16, a1: u8 },
    C21 { a0: u16, a1: u8 },
    C22 { a0: u16, a1: u16 },
    C23 { a0: u8, a1: u32 },
    C24 { a0: u16, a1: u16, len: u16, ask: String, choices: Vec<Choice> },
    C25 { a0: u16, len: u16, ask: String, choices: Vec<Choice> },
    C26 { a0: u16, len: u16, ask: String, choices: Vec<Choice> },
    C27 { a0: u16, a1: u16, len: u16, ask: String, choices: Vec<Choice> },
    C28 { a0: u16, len: u16, ask: String, choices: Vec<Choice> },
    C29 { a0: u16, len: u16, ask: String, choices: Vec<Choice> },
    C2A { a0: u16, a1: u8 },
    C2B { a0: u8 },
    C2C { a0: u8 },
    C2D { a0: u16, a1: u16, a2: u16, a3: u16, a4: u8 },
    C2E { xstr: String },
    C2F { a0: u16 },
    C30 { a0: u8 },
    C31 { a0: u8 },
    C32 { a0: u8 },
    C33 { a0: u8 },
    C34 {},
    C35 { a0: u16, a1: u16, len: u16, str: String },
    C36 { a0: u16, a1: u16, a2: u16, a3: u16, a4: u16 },
    C37 { a0: u16, a1: u16, a2: u16, a3: u16, a4: u16 },
    C38 { a0: u16, a1: u16, a2: u16 },
    C39 { a0: u16, a1: u16, a2: u16 },
    C3A { a0: u16, a1: u16 },
    C3B { a0: u16, len: u16, str: String },
    C3C { jump: u16, a1: u16 },
    C3D { a0: u8 },
    C3E { a0: u8 },
    C3F { a0: u8 },
    C40 { a0: u8 },
    C41 { a0: u8 },
    C42 { a0: u16 },
    C43 { a0: u16 },
    C44 { a0: u16, a1: u16 },
    C45 { a0: u8 },
    C46 {},
    C47 { a0: u8 },
    C48 { a0: u8 },
    C49 { a0: u16 },
    C4A { a0: u16, a1: u8 },
    C4B { a0: u16, a1: u8 },
    C4C { a0: u8 },
    C4D { a0: u8 },
    C4E {},
    C4F { a0: u16 },
    C50 { a0: u16, a1: u32 },
    C51 {},
    C52 { a0: u16, len: u16, str: String },
    C53 { a0: u16 },
    C54 { xstr: String },
    C55 {},
    C56 { a0: u8 },
    C57 { a0: u16 },
    C58 { a0: u16 },
    C59 { a0: u16 },
    C5A {},
    C5B { a0: u16, a1: u8 },
    C5C { a0: u16, a1: u8 },
    C5D { a0: u16, a1: u8 },
    C5E { a0: u8 },
    C5F { a0: u8 },
    C60 { a0: u16 },
    C61 { a0: u8 },
    C62 { a0: u16, a1: u8 },
    C63 { a0: u16, a1: u8 },
    C64 { a0: u16, a1: u16, a2: u16, a3: u16, a4: u16, a5: u16, a6: u8 },
    C65 { a0: u16 },
    C66 { a0: u8, a1: u32, a2: u32 },
    C67 {},
    End {},
}

/// The opcode byte of an instruction.
pub open spec fn code_op(c: Code) -> u8 {
    match c {
        Code::C00 { .. } => 0x00u8,
        Code::C01 { .. } => 0x01u8,
        Code::C02 { .. } => 0x02u8,
        Code::C03 { .. } => 0x03u8,
        Code::C04 { .. } => 0x04u8,
        Code::C05 { .. } => 0x05u8,
        Code::C06 { .. } => 0x06u8,
        Code::C07 { .. } => 0x07u8,
        Code::C08 { .. } => 0x08u8,
        Code::C09 { .. } => 0x09u8,
        Code::C0A { .. } => 0x0Au8,
        Code::C0B { .. } => 0x0Bu8,
        Code::C0C { .. } => 0x0Cu8,
        Code::C0D { .. } => 0x0Du8,
        Code::C0E { .. } => 0x0Eu8,
        Code::C0F { .. } => 0x0Fu8,
        Code::C10 { .. } => 0x10u8,
        Code::C11 { .. } => 0x11u8,
        Code::C12 { .. } => 0x12u8,
        Code::C13 { .. } => 0x13u8,
        Code::C14 { .. } => 0x14u8,
        Code::C15 { .. } => 0x15u8,
        Code::C16 { .. } => 0x16u8,
        Code::C17 { .. } => 0x17u8,
        Code::C18 { .. } => 0x18u8,
        Code::C19 { .. } => 0x19u8,
        Code::C1A { .. } => 0x1Au8,
        Code::C1B { .. } => 0x1Bu8,
        Code::C1C { .. } => 0x1Cu8,
        Code::C1D { .. } => 0x1Du8,
        Code::C1E { .. } => 0x1Eu8,
        Code::C1F { .. } => 0x1Fu8,
        Code::C20 { .. } => 0x20u8,
        Code::C21 { .. } => 0x21u8,
        Code::C22 { .. } => 0x22u8,
        Code::C23 { .. } => 0x23u8,
        Code::C24 { .. } => 0x24u8,
        Code::C25 { .. } => 0x25u8,
        Code::C26 { .. } => 0x26u8,
        Code::C27 { .. } => 0x27u8,
        Code::C28 { .. } => 0x28u8,
        Code::C29 { .. } => 0x29u8,
        Code::C2A { .. } => 0x2Au8,
        Code::C2B { .. } => 0x2Bu8,
        Code::C2C { .. } => 0x2Cu8,
        Code::C2D { .. } => 0x2Du8,
        Code::C2E { .. } => 0x2Eu8,
        Code::C2F { .. } => 0x2Fu8,
        Code::C30 { .. } => 0x30u8,
        Code::C31 { .. } => 0x31u8,
        Code::C32 { .. } => 0x32u8,
        Code::C33 { .. } => 0x33u8,
        Code::C34 { .. } => 0x34u8,
        Code::C35 { .. } => 0x35u8,
        Code::C36 { .. } => 0x36u8,
        Code::C37 { .. } => 0x37u8,
        Code::C38 { .. } => 0x38u8,
        Code::C39 { .. } => 0x39u8,
        Code::C3A { .. } => 0x3Au8,
        Code::C3B { .. } => 0x3Bu8,
        Code::C3C { .. } => 0x3Cu8,
        Code::C3D { .. } => 0x3Du8,
        Code::C3E { .. } => 0x3Eu8,
        Code::C3F { .. } => 0x3Fu8,
        Code::C40 { .. } => 0x40u8,
        Code::C41 { .. } => 0x41u8,
        Code::C42 { .. } => 0x42u8,
        Code::C43 { .. } => 0x43u8,
        Code::C44 { .. } => 0x44u8,
        Code::C45 { .. } => 0x45u8,
        Code::C46 { .. } => 0x46u8,
        Code::C47 { .. } => 0x47u8,
        Code::C48 { .. } => 0x48u8,
        Code::C49 { .. } => 0x49u8,
        Code::C4A { .. } => 0x4Au8,
        Code::C4B { .. } => 0x4Bu8,
        Code::C4C { .. } => 0x4Cu8,
        Code::C4D { .. } => 0x4Du8,
        Code::C4E { .. } => 0x4Eu8,
        Code::C4F { .. } => 0x4Fu8,
        Code::C50 { .. } => 0x50u8,
        Code::C51 { .. } => 0x51u8,
        Code::C52 { .. } => 0x52u8,
        Code::C53 { .. } => 0x53u8,
        Code::C54 { .. } => 0x54u8,
        Code::C55 { .. } => 0x55u8,
        Code::C56 { .. } => 0x56u8,
        Code::C57 { .. } => 0x57u8,
        Code::C58 { .. } => 0x58u8,
        Code::C59 { .. } => 0x59u8,
        Code::C5A { .. } => 0x5Au8,
        Code::C5B { .. } => 0x5Bu8,
        Code::C5C { .. } => 0x5Cu8,
        Code::C5D { .. } => 0x5Du8,
        Code::C5E { .. } => 0x5Eu8,
        Code::C5F { .. } => 0x5Fu8,
        Code::C60 { .. } => 0x60u8,
        Code::C61 { .. } => 0x61u8,
        Code::C62 { .. } => 0x62u8,
        Code::C63 { .. } => 0x63u8,
        Code::C64 { .. } => 0x64u8,
        Code::C65 { .. } => 0x65u8,
        Code::C66 { .. } => 0x66u8,
        Code::C67 { .. } => 0x67u8,
        Code::End { .. } => 0xFFu8,
    }
}

/// The operand values of an instruction, in the order they are stored.
pub open spec fn code_args(c: Code) -> Seq<Arg> {
    match c {
        Code::C00 {} => seq![],
        Code::C01 { a0: v_a0 } => seq![Arg::Byte(v_a0)],
        Code::C02 { a0: v_a0 } => seq![Arg::Byte(v_a0)],
        Code::C03 { a0: v_a0 } => seq![Arg::Byte(v_a0)],
        Code::C04 {} => seq![],
        Code::C05 {} => seq![],
        Code::C06 {} => seq![],
        Code::C07 { a0: v_a0 } => seq![Arg::Byte(v_a0)],
        Code::C08 { xstr: v_xstr } => seq![Arg::Text(v_xstr@)],
        Code::C09 { xstr: v_xstr } => seq![Arg::Text(v_xstr@)],
        Code::C0A { a0: v_a0, a1: v_a1, len: v_len, str: v_str } => seq![Arg::Word(v_a0), Arg::Word(v_a1), Arg::Fixed(v_len, v_str@)],
        Code::C0B {} => seq![],
        Code::C0C {} => seq![],
        Code::C0D {} => seq![],
        Code::C0E { a0: v_a0 } => seq![Arg::Byte(v_a0)],
        Code::C0F {} => seq![],
        Code::C10 {} => seq![],
        Code::C11 {} => seq![],
        Code::C12 {} => seq![],
        Code::C13 { a0: v_a0, a1: v_a1 } => seq![Arg::Word(v_a0), Arg::Byte(v_a1)],
        Code::C14 { a0: v_a0 } => seq![Arg::Byte(v_a0)],
        Code::C15 { a0: v_a0 } => seq![Arg::Word(v_a0)],
        Code::C16 { a0: v_a0, a1: v_a1, a2: v_a2 } => seq![Arg::Byte(v_a0), Arg::Byte(v_a1), Arg::Byte(v_a2)],
        Code::C17 { str: v_str, a0: v_a0 } => seq![Arg::EscText(v_str@), Arg::Word(v_a0)],
        Code::C18 { a0: v_a0, a1: v_a1, a2: v_a2 } => seq![Arg::Byte(v_a0), Arg::Byte(v_a1), Arg::Byte(v_a2)],
        Code::C19 { a0: v_a0, a1: v_a1, a2: v_a2, a3: v_a3 } => seq![Arg::Word(v_a0), Arg::Word(v_a1), Arg::Word(v_a2), Arg::Word(v_a3)],
        Code::C1A { a0: v_a0, a1: v_a1 } => seq![Arg::Word(v_a0), Arg::Byte(v_a1)],
        Code::C1B { a0: v_a0, a1: v_a1 } => seq![Arg::Word(v_a0), Arg::Dword(v_a1)],
        Code::C1C { a0: v_a0, a1: v_a1 } => seq![Arg::Word(v_a0), Arg::Word(v_a1)],
        Code::C1D { a0: v_a0, a1: v_a1 } => seq![Arg::Word(v_a0), Arg::Byte(v_a1)],
        Code::C1E { a0: v_a0, a1: v_a1, a2: v_a2, a3: v_a3, a4: v_a4 } => seq![Arg::Word(v_a0), Arg::Word(v_a1), Arg::Word(v_a2), Arg::Word(v_a3), Arg::Byte(v_a4)],
        Code::C1F { a0: v_a0, a1: v_a1, a2: v_a2 } => seq![Arg::Word(v_a0), Arg::Byte(v_a1), Arg::Byte(v_a2)],
        Code::C20 { a0: v_a0, a1: v_a1 } => seq![Arg::Word(v_a0), Arg::Byte(v_a1)],
        Code::C21 { a0: v_a0, a1: v_a1 } => seq![Arg::Word(v_a0), Arg::Byte(v_a1)],
        Code::C22 { a0: v_a0, a1: v_a1 } => seq![Arg::Word(v_a0), Arg::Word(v_a1)],
        Code::C23 { a0: v_a0, a1: v_a1 } => seq![Arg::Byte(v_a0), Arg::Dword(v_a1)],
        Code::C24 { a0: v_a0, a1: v_a1, len: v_len, ask: v_ask, choices: v_choices } => seq![Arg::Word(v_a0), Arg::Word(v_a1), Arg::Fixed(v_len, v_ask@), Arg::Choices(choices_view(v_choices@))],
        Code::C25 { a0: v_a0, len: v_len, ask: v_ask, choices: v_choices } => seq![Arg::Word(v_a0), Arg::Fixed(v_len, v_ask@), Arg::Choices(choices_view(v_choices@))],
        Code::C26 { a0: v_a0, len: v_len, ask: v_ask, choices: v_choices } => seq![Arg::Word(v_a0), Arg::Fixed(v_len, v_ask@), Arg::Choices(choices_view(v_choices@))],
        Code::C27 { a0: v_a0, a1: v_a1, len: v_len, ask: v_ask, choices: v_choices } => seq![Arg::Word(v_a0), Arg::Word(v_a1), Arg::Fixed(v_len, v_ask@), Arg::Choices(choices_view(v_choices@))],
        Code::C28 { a0: v_a0, len: v_len, ask: v_ask, choices: v_choices } => seq![Arg::Word(v_a0), Arg::Fixed(v_len, v_ask@), Arg::Choices(choices_view(v_choices@))],
        Code::C29 { a0: v_a0, len: v_len, ask: v_ask, choices: v_choices } => seq![Arg::Word(v_a0), Arg::Fixed(v_len, v_ask@), Arg::Choices(choices_view(v_choices@))],
        Code::C2A { a0: v_a0, a1: v_a1 } => seq![Arg::Word(v_a0), Arg::Byte(v_a1)],
        Code::C2B { a0: v_a0 } => seq![Arg::Byte(v_a0)],
        Code::C2C { a0: v_a0 } => seq![Arg::Byte(v_a0)],
        Code::C2D { a0: v_a0, a1: v_a1, a2: v_a2, a3: v_a3, a4: v_a4 } => seq![Arg::Word(v_a0), Arg::Word(v_a1), Arg::Word(v_a2), Arg::Word(v_a3), Arg::Byte(v_a4)],
        Code::C2E { xstr: v_xstr } => seq![Arg::EscText(v_xstr@)],
        Code::C2F { a0: v_a0 } => seq![Arg::Word(v_a0)],
        Code::C30 { a0: v_a0 } => seq![Arg::Byte(v_a0)],
        Code::C31 { a0: v_a0 } => seq![Arg::Byte(v_a0)],
        Code::C32 { a0: v_a0 } => seq![Arg::Byte(v_a0)],
        Code::C33 { a0: v_a0 } => seq![Arg::Byte(v_a0)],
        Code::C34 {} => seq![],
        Code::C35 { a0: v_a0, a1: v_a1, len: v_len, str: v_str } => seq![Arg::Word(v_a0), Arg::Word(v_a1), Arg::Fixed(v_len, v_str@)],
        Code::C36 { a0: v_a0, a1: v_a1, a2: v_a2, a3: v_a3, a4: v_a4 } => seq![Arg::Word(v_a0), Arg::Word(v_a1), Arg::Word(v_a2), Arg::Word(v_a3), Arg::Word(v_a4)],
        Code::C37 { a0: v_a0, a1: v_a1, a2: v_a2, a3: v_a3, a4: v_a4 } => seq![Arg::Word(v_a0), Arg::Word(v_a1), Arg::Word(v_a2), Arg::Word(v_a3), Arg::Word(v_a4)],
        Code::C38 { a0: v_a0, a1: v_a1, a2: v_a2 } => seq![Arg::Word(v_a0), Arg::Word(v_a1), Arg::Word(v_a2)],
        Code::C39 { a0: v_a0, a1: v_a1, a2: v_a2 } => seq![Arg::Word(v_a0), Arg::Word(v_a1), Arg::Word(v_a2)],
        Code::C3A { a0: v_a0, a1: v_a1 } => seq![Arg::Word(v_a0), Arg::Word(v_a1)],
        Code::C3B { a0: v_a0, len: v_len, str: v_str } => seq![Arg::Word(v_a0), Arg::Fixed(v_len, v_str@)],
        Code::C3C { jump: v_jump, a1: v_a1 } => seq![Arg::Word(v_jump), Arg::Word(v_a1)],
        Code::C3D { a0: v_a0 } => seq![Arg::Byte(v_a0)],
        Code::C3E { a0: v_a0 } => seq![Arg::Byte(v_a0)],
        Code::C3F { a0: v_a0 } => seq![Arg::Byte(v_a0)],
        Code::C40 { a0: v_a0 } => seq![Arg::Byte(v_a0)],
        Code::C41 { a0: v_a0 } => seq![Arg::Byte(v_a0)],
        Code::C42 { a0: v_a0 } => seq![Arg::Word(v_a0)],
        Code::C43 { a0: v_a0 } => seq![Arg::Word(v_a0)],
        Code::C44 { a0: v_a0, a1: v_a1 } => seq![Arg::Word(v_a0), Arg::Word(v_a1)],
        Code::C45 { a0: v_a0 } => seq![Arg::Byte(v_a0)],
        Code::C46 {} => seq![],
        Code::C47 { a0: v_a0 } => seq![Arg::Byte(v_a0)],
        Code::C48 { a0: v_a0 } => seq![Arg::Byte(v_a0)],
        Code::C49 { a0: v_a0 } => seq![Arg::Word(v_a0)],
        Code::C4A { a0: v_a0, a1: v_a1 } => seq![Arg::Word(v_a0), Arg::Byte(v_a1)],
        Code::C4B { a0: v_a0, a1: v_a1 } => seq![Arg::Word(v_a0), Arg::Byte(v_a1)],
        Code::C4C { a0: v_a0 } => seq![Arg::Byte(v_a0)],
        Code::C4D { a0: v_a0 } => seq![Arg::Byte(v_a0)],
        Code::C4E {} => seq![],
        Code::C4F { a0: v_a0 } => seq![Arg::Word(v_a0)],
        Code::C50 { a0: v_a0, a1: v_a1 } => seq![Arg::Word(v_a0), Arg::Dword(v_a1)],
        Code::C51 {} => seq![],
        Code::C52 { a0: v_a0, len: v_len, str: v_str } => seq![Arg::Word(v_a0), Arg::Fixed(v_len, v_str@)],
        Code::C53 { a0: v_a0 } => seq![Arg::Word(v_a0)],
        Code::C54 { xstr: v_xstr } => seq![Arg::EscText(v_xstr@)],
        Code::C55 {} => seq![],
        Code::C56 { a0: v_a0 } => seq![Arg::Byte(v_a0)],
        Code::C57 { a0: v_a0 } => seq![Arg::Word(v_a0)],
        Code::C58 { a0: v_a0 } => seq![Arg::Word(v_a0)],
        Code::C59 { a0: v_a0 } => seq![Arg::Word(v_a0)],
        Code::C5A {} => seq![],
        Code::C5B { a0: v_a0, a1: v_a1 } => seq![Arg::Word(v_a0), Arg::Byte(v_a1)],
        Code::C5C { a0: v_a0, a1: v_a1 } => seq![Arg::Word(v_a0), Arg::Byte(v_a1)],
        Code::C5D { a0: v_a0, a1: v_a1 } => seq![Arg::Word(v_a0), Arg::Byte(v_a1)],
        Code::C5E { a0: v_a0 } => seq![Arg::Byte(v_a0)],
        Code::C5F { a0: v_a0 } => seq![Arg::Byte(v_a0)],
        Code::C60 { a0: v_a0 } => seq![Arg::Word(v_a0)],
        Code::C61 { a0: v_a0 } => seq![Arg::Byte(v_a0)],
        Code::C62 { a0: v_a0, a1: v_a1 } => seq![Arg::Word(v_a0), Arg::Byte(v_a1)],
        Code::C63 { a0: v_a0, a1: v_a1 } => seq![Arg::Word(v_a0), Arg::Byte(v_a1)],
        Code::C64 { a0: v_a0, a1: v_a1, a2: v_a2, a3: v_a3, a4: v_a4, a5: v_a5, a6: v_a6 } => seq![Arg::Word(v_a0), Arg::Word(v_a1), Arg::Word(v_a2), Arg::Word(v_a3), Arg::Word(v_a4), Arg::Word(v_a5), Arg::Byte(v_a6)],
        Code::C65 { a0: v_a0 } => seq![Arg::Word(v_a0)],
        Code::C66 { a0: v_a0, a1: v_a1, a2: v_a2 } => seq![Arg::Byte(v_a0), Arg::Dword(v_a1), Arg::Dword(v_a2)],
        Code::C67 {} => seq![],
        Code::End {} => seq![],
    }
}

/// The operand layout of each opcode; `None` for bytes that are no opcode.
pub open spec fn layout(op: u8) -> Option<Seq<Kind>> {
    match op {
        0x00u8 => Some(seq![]),
        0x01u8 => Some(seq![Kind::Byte]),
        0x02u8 => Some(seq![Kind::Byte]),
        0x03u8 => Some(seq![Kind::Byte]),
        0x04u8 => Some(seq![]),
        0x05u8 => Some(seq![]),
        0x06u8 => Some(seq![]),
        0x07u8 => Some(seq![Kind::Byte]),
        0x08u8 => Some(seq![Kind::Text]),
        0x09u8 => Some(seq![Kind::Text]),
        0x0Au8 => Some(seq![Kind::Word, Kind::Word, Kind::Fixed]),
        0x0Bu8 => Some(seq![]),
        0x0Cu8 => Some(seq![]),
        0x0Du8 => Some(seq![]),
        0x0Eu8 => Some(seq![Kind::Byte]),
        0x0Fu8 => Some(seq![]),
        0x10u8 => Some(seq![]),
        0x11u8 => Some(seq![]),
        0x12u8 => Some(seq![]),
        0x13u8 => Some(seq![Kind::Word, Kind::Byte]),
        0x14u8 => Some(seq![Kind::Byte]),
        0x15u8 => Some(seq![Kind::Word]),
        0x16u8 => Some(seq![Kind::Byte, Kind::Byte, Kind::Byte]),
        0x17u8 => Some(seq![Kind::EscText, Kind::Word]),
        0x18u8 => Some(seq![Kind::Byte, Kind::Byte, Kind::Byte]),
        0x19u8 => Some(seq![Kind::Word, Kind::Word, Kind::Word, Kind::Word]),
        0x1Au8 => Some(seq![Kind::Word, Kind::Byte]),
        0x1Bu8 => Some(seq![Kind::Word, Kind::Dword]),
        0x1Cu8 => Some(seq![Kind::Word, Kind::Word]),
        0x1Du8 => Some(seq![Kind::Word, Kind::Byte]),
        0x1Eu8 => Some(seq![Kind::Word, Kind::Word, Kind::Word, Kind::Word, Kind::Byte]),
        0x1Fu8 => Some(seq![Kind::Word, Kind::Byte, Kind::Byte]),
        0x20u8 => Some(seq![Kind::Word, Kind::Byte]),
        0x21u8 => Some(seq![Kind::Word, Kind::Byte]),
        0x22u8 => Some(seq![Kind::Word, Kind::Word]),
        0x23u8 => Some(seq![Kind::Byte, Kind::Dword]),
        0x24u8 => Some(seq![Kind::Word, Kind::Word, Kind::Fixed, Kind::Choices(4)]),
        0x25u8 => Some(seq![Kind::Word, Kind::Fixed, Kind::Choices(4)]),
        0x26u8 => Some(seq![Kind::Word, Kind::Fixed, Kind::Choices(4)]),
        0x27u8 => Some(seq![Kind::Word, Kind::Word, Kind::Fixed, Kind::Choices(2)]),
        0x28u8 => Some(seq![Kind::Word, Kind::Fixed, Kind::Choices(2)]),
        0x29u8 => Some(seq![Kind::Word, Kind::Fixed, Kind::Choices(2)]),
        0x2Au8 => Some(seq![Kind::Word, Kind::Byte]),
        0x2Bu8 => Some(seq![Kind::Byte]),
        0x2Cu8 => Some(seq![Kind::Byte]),
        0x2Du8 => Some(seq![Kind::Word, Kind::Word, Kind::Word, Kind::Word, Kind::Byte]),
        0x2Eu8 => Some(seq![Kind::EscText]),
        0x2Fu8 => Some(seq![Kind::Word]),
        0x30u8 => Some(seq![Kind::Byte]),
        0x31u8 => Some(seq![Kind::Byte]),
        0x32u8 => Some(seq![Kind::Byte]),
        0x33u8 => Some(seq![Kind::Byte]),
        0x34u8 => Some(seq![]),
        0x35u8 => Some(seq![Kind::Word, Kind::Word, Kind::Fixed]),
        0x36u8 => Some(seq![Kind::Word, Kind::Word, Kind::Word, Kind::Word, Kind::Word]),
        0x37u8 => Some(seq![Kind::Word, Kind::Word, Kind::Word, Kind::Word, Kind::Word]),
        0x38u8 => Some(seq![Kind::Word, Kind::Word, Kind::Word]),
        0x39u8 => Some(seq![Kind::Word, Kind::Word, Kind::Word]),
        0x3Au8 => Some(seq![Kind::Word, Kind::Word]),
        0x3Bu8 => Some(seq![Kind::Word, Kind::Fixed]),
        0x3Cu8 => Some(seq![Kind::Word, Kind::Word]),
        0x3Du8 => Some(seq![Kind::Byte]),
        0x3Eu8 => Some(seq![Kind::Byte]),
        0x3Fu8 => Some(seq![Kind::Byte]),
        0x40u8 => Some(seq![Kind::Byte]),
        0x41u8 => Some(seq![Kind::Byte]),
        0x42u8 => Some(seq![Kind::Word]),
        0x43u8 => Some(seq![Kind::Word]),
        0x44u8 => Some(seq![Kind::Word, Kind::Word]),
        0x45u8 => Some(seq![Kind::Byte]),
        0x46u8 => Some(seq![]),
        0x47u8 => Some(seq![Kind::Byte]),
        0x48u8 => Some(seq![Kind::Byte]),
        0x49u8 => Some(seq![Kind::Word]),
        0x4Au8 => Some(seq![Kind::Word, Kind::Byte]),
        0x4Bu8 => Some(seq![Kind::Word, Kind::Byte]),
        0x4Cu8 => Some(seq![Kind::Byte]),
        0x4Du8 => Some(seq![Kind::Byte]),
        0x4Eu8 => Some(seq![]),
        0x4Fu8 => Some(seq![Kind::Word]),
        0x50u8 => Some(seq![Kind::Word, Kind::Dword]),
        0x51u8 => Some(seq![]),
        0x52u8 => Some(seq![Kind::Word, Kind::Fixed]),
        0x53u8 => Some(seq![Kind::Word]),
        0x54u8 => Some(seq![Kind::EscText]),
        0x55u8 => Some(seq![]),
        0x56u8 => Some(seq![Kind::Byte]),
        0x57u8 => Some(seq![Kind::Word]),
        0x58u8 => Some(seq![Kind::Word]),
        0x59u8 => Some(seq![Kind::Word]),
        0x5Au8 => Some(seq![]),
        0x5Bu8 => Some(seq![Kind::Word, Kind::Byte]),
        0x5Cu8 => Some(seq![Kind::Word, Kind::Byte]),
        0x5Du8 => Some(seq![Kind::Word, Kind::Byte]),
        0x5Eu8 => Some(seq![Kind::Byte]),
        0x5Fu8 => Some(seq![Kind::Byte]),
        0x60u8 => Some(seq![Kind::Word]),
        0x61u8 => Some(seq![Kind::Byte]),
        0x62u8 => Some(seq![Kind::Word, Kind::Byte]),
        0x63u8 => Some(seq![Kind::Word, Kind::Byte]),
        0x64u8 => Some(seq![Kind::Word, Kind::Word, Kind::Word, Kind::Word, Kind::Word, Kind::Word, Kind::Byte]),
        0x65u8 => Some(seq![Kind::Word]),
        0x66u8 => Some(seq![Kind::Byte, Kind::Dword, Kind::Dword]),
        0x67u8 => Some(seq![]),
        0xFFu8 => Some(seq![]),
        _ => None,
    }
}

/// The operand layout of an opcode.
pub fn layout_of(op: u8) -> (ks: Option<Vec<Kind>>)
    ensures
        match ks {
            Some(v) => layout(op) == Some(v@),
            None => layout(op) is None,
        },
{
    let ks: Option<Vec<Kind>> = match op {
        0x00u8 => Some(vec![]),
        0x01u8 => Some(vec![Kind::Byte]),
        0x02u8 => Some(vec![Kind::Byte]),
        0x03u8 => Some(vec![Kind::Byte]),
        0x04u8 => Some(vec![]),
        0x05u8 => Some(vec![]),
        0x06u8 => Some(vec![]),
        0x07u8 => Some(vec![Kind::Byte]),
        0x08u8 => Some(vec![Kind::Text]),
        0x09u8 => Some(vec![Kind::Text]),
        0x0Au8 => Some(vec![Kind::Word, Kind::Word, Kind::Fixed]),
        0x0Bu8 => Some(vec![]),
        0x0Cu8 => Some(vec![]),
        0x0Du8 => Some(vec![]),
        0x0Eu8 => Some(vec![Kind::Byte]),
        0x0Fu8 => Some(vec![]),
        0x10u8 => Some(vec![]),
        0x11u8 => Some(vec![]),
        0x12u8 => Some(vec![]),
        0x13u8 => Some(vec![Kind::Word, Kind::Byte]),
        0x14u8 => Some(vec![Kind::Byte]),
        0x15u8 => Some(vec![Kind::Word]),
        0x16u8 => Some(vec![Kind::Byte, Kind::Byte, Kind::Byte]),
        0x17u8 => Some(vec![Kind::EscText, Kind::Word]),
        0x18u8 => Some(vec![Kind::Byte, Kind::Byte, Kind::Byte]),
        0x19u8 => Some(vec![Kind::Word, Kind::Word, Kind::Word, Kind::Word]),
        0x1Au8 => Some(vec![Kind::Word, Kind::Byte]),
        0x1Bu8 => Some(vec![Kind::Word, Kind::Dword]),
        0x1Cu8 => Some(vec![Kind::Word, Kind::Word]),
        0x1Du8 => Some(vec![Kind::Word, Kind::Byte]),
        0x1Eu8 => Some(vec![Kind::Word, Kind::Word, Kind::Word, Kind::Word, Kind::Byte]),
        0x1Fu8 => Some(vec![Kind::Word, Kind::Byte, Kind::Byte]),
        0x20u8 => Some(vec![Kind::Word, Kind::Byte]),
        0x21u8 => Some(vec![Kind::Word, Kind::Byte]),
        0x22u8 => Some(vec![Kind::Word, Kind::Word]),
        0x23u8 => Some(vec![Kind::Byte, Kind::Dword]),
        0x24u8 => Some(vec![Kind::Word, Kind::Word, Kind::Fixed, Kind::Choices(4)]),
        0x25u8 => Some(vec![Kind::Word, Kind::Fixed, Kind::Choices(4)]),
        0x26u8 => Some(vec![Kind::Word, Kind::Fixed, Kind::Choices(4)]),
        0x27u8 => Some(vec![Kind::Word, Kind::Word, Kind::Fixed, Kind::Choices(2)]),
        0x28u8 => Some(vec![Kind::Word, Kind::Fixed, Kind::Choices(2)]),
        0x29u8 => Some(vec![Kind::Word, Kind::Fixed, Kind::Choices(2)]),
        0x2Au8 => Some(vec![Kind::Word, Kind::Byte]),
        0x2Bu8 => Some(vec![Kind::Byte]),
        0x2Cu8 => Some(vec![Kind::Byte]),
        0x2Du8 => Some(vec![Kind::Word, Kind::Word, Kind::Word, Kind::Word, Kind::Byte]),
        0x2Eu8 => Some(vec![Kind::EscText]),
        0x2Fu8 => Some(vec![Kind::Word]),
        0x30u8 => Some(vec![Kind::Byte]),
        0x31u8 => Some(vec![Kind::Byte]),
        0x32u8 => Some(vec![Kind::Byte]),
        0x33u8 => Some(vec![Kind::Byte]),
        0x34u8 => Some(vec![]),
        0x35u8 => Some(vec![Kind::Word, Kind::Word, Kind::Fixed]),
        0x36u8 => Some(vec![Kind::Word, Kind::Word, Kind::Word, Kind::Word, Kind::Word]),
        0x37u8 => Some(vec![Kind::Word, Kind::Word, Kind::Word, Kind::Word, Kind::Word]),
        0x38u8 => Some(vec![Kind::Word, Kind::Word, Kind::Word]),
        0x39u8 => Some(vec![Kind::Word, Kind::Word, Kind::Word]),
        0x3Au8 => Some(vec![Kind::Word, Kind::Word]),
        0x3Bu8 => Some(vec![Kind::Word, Kind::Fixed]),
        0x3Cu8 => Some(vec![Kind::Word, Kind::Word]),
        0x3Du8 => Some(vec![Kind::Byte]),
        0x3Eu8 => Some(vec![Kind::Byte]),
        0x3Fu8 => Some(vec![Kind::Byte]),
        0x40u8 => Some(vec![Kind::Byte]),
        0x41u8 => Some(vec![Kind::Byte]),
        0x42u8 => Some(vec![Kind::Word]),
        0x43u8 => Some(vec![Kind::Word]),
        0x44u8 => Some(vec![Kind::Word, Kind::Word]),
        0x45u8 => Some(vec![Kind::Byte]),
        0x46u8 => Some(vec![]),
        0x47u8 => Some(vec![Kind::Byte]),
        0x48u8 => Some(vec![Kind::Byte]),
        0x49u8 => Some(vec![Kind::Word]),
        0x4Au8 => Some(vec![Kind::Word, Kind::Byte]),
        0x4Bu8 => Some(vec![Kind::Word, Kind::Byte]),
        0x4Cu8 => Some(vec![Kind::Byte]),
        0x4Du8 => Some(vec![Kind::Byte]),
        0x4Eu8 => Some(vec![]),
        0x4Fu8 => Some(vec![Kind::Word]),
        0x50u8 => Some(vec![Kind::Word, Kind::Dword]),
        0x51u8 => Some(vec![]),
        0x52u8 => Some(vec![Kind::Word, Kind::Fixed]),
        0x53u8 => Some(vec![Kind::Word]),
        0x54u8 => Some(vec![Kind::EscText]),
        0x55u8 => Some(vec![]),
        0x56u8 => Some(vec![Kind::Byte]),
        0x57u8 => Some(vec![Kind::Word]),
        0x58u8 => Some(vec![Kind::Word]),
        0x59u8 => Some(vec![Kind::Word]),
        0x5Au8 => Some(vec![]),
        0x5Bu8 => Some(vec![Kind::Word, Kind::Byte]),
        0x5Cu8 => Some(vec![Kind::Word, Kind::Byte]),
        0x5Du8 => Some(vec![Kind::Word, Kind::Byte]),
        0x5Eu8 => Some(vec![Kind::Byte]),
        0x5Fu8 => Some(vec![Kind::Byte]),
        0x60u8 => Some(vec![Kind::Word]),
        0x61u8 => Some(vec![Kind::Byte]),
        0x62u8 => Some(vec![Kind::Word, Kind::Byte]),
        0x63u8 => Some(vec![Kind::Word, Kind::Byte]),
        0x64u8 => Some(vec![Kind::Word, Kind::Word, Kind::Word, Kind::Word, Kind::Word, Kind::Word, Kind::Byte]),
        0x65u8 => Some(vec![Kind::Word]),
        0x66u8 => Some(vec![Kind::Byte, Kind::Dword, Kind::Dword]),
        0x67u8 => Some(vec![]),
        0xFFu8 => Some(vec![]),
        _ => None,
    };
    proof {
        if ks is Some {
            assert(layout(op) =~= Some(ks->0@));
        }
    }
    ks
}

/// The instruction with opcode `op` and the operand values `args` (which
/// fit the layout of `op`).
#[verifier::rlimit(100)]
pub fn code_from_args(op: u8, args: Vec<Field>) -> (c: Code)
    requires
        layout(op) is Some,
        args_fit(args_view(args@), layout(op)->0),
    ensures
        code_op(c) == op,
        code_args(c) == args_view(args@),
{
    let ghost orig = args@;
    let mut args = args;
    let c = match op {
        0x00u8 => {
            Code::C00 {}
        },
        0x01u8 => {
            proof {
                assert(arg_fits(args_view(orig)[0], layout(op)->0[0]));
            }
            let v_a0 = take_byte(&mut args);
            Code::C01 { a0: v_a0 }
        },
        0x02u8 => {
            proof {
                assert(arg_fits(args_view(orig)[0], layout(op)->0[0]));
            }
            let v_a0 = take_byte(&mut args);
            Code::C02 { a0: v_a0 }
        },
        0x03u8 => {
            proof {
                assert(arg_fits(args_view(orig)[0], layout(op)->0[0]));
            }
            let v_a0 = take_byte(&mut args);
            Code::C03 { a0: v_a0 }
        },
        0x04u8 => {
            Code::C04 {}
        },
        0x05u8 => {
            Code::C05 {}
        },
        0x06u8 => {
            Code::C06 {}
        },
        0x07u8 => {
            proof {
                assert(arg_fits(args_view(orig)[0], layout(op)->0[0]));
            }
            let v_a0 = take_byte(&mut args);
            Code::C07 { a0: v_a0 }
        },
        0x08u8 => {
            proof {
                assert(arg_fits(args_view(orig)[0], layout(op)->0[0]));
            }
            let v_xstr = take_text(&mut args);
            Code::C08 { xstr: v_xstr }
        },
        0x09u8 => {
            proof {
                assert(arg_fits(args_view(orig)[0], layout(op)->0[0]));
            }
            let v_xstr = take_text(&mut args);
            Code::C09 { xstr: v_xstr }
        },
        0x0Au8 => {
            proof {
                assert(arg_fits(args_view(orig)[0], layout(op)->0[0]));
                assert(arg_fits(args_view(orig)[1], layout(op)->0[1]));
                assert(arg_fits(args_view(orig)[2], layout(op)->0[2]));
            }
            let (v_len, v_str) = take_fixed(&mut args);
            let v_a1 = take_word(&mut args);
            let v_a0 = take_word(&mut args);
            Code::C0A { a0: v_a0, a1: v_a1, len: v_len, str: v_str }
        },
        0x0Bu8 => {
            Code::C0B {}
        },
        0x0Cu8 => {
            Code::C0C {}
        },
        0x0Du8 => {
            Code::C0D {}
        },
        0x0Eu8 => {
            proof {
                assert(arg_fits(args_view(orig)[0], layout(op)->0[0]));
            }
            let v_a0 = take_byte(&mut args);
            Code::C0E { a0: v_a0 }
        },
        0x0Fu8 => {
            Code::C0F {}
        },
        0x10u8 => {
            Code::C10 {}
        },
        0x11u8 => {
            Code::C11 {}
        },
        0x12u8 => {
            Code::C12 {}
        },
        0x13u8 => {
            proof {
                assert(arg_fits(args_view(orig)[0], layout(op)->0[0]));
                assert(arg_fits(args_view(orig)[1], layout(op)->0[1]));
            }
            let v_a1 = take_byte(&mut args);
            let v_a0 = take_word(&mut args);
            Code::C13 { a0: v_a0, a1: v_a1 }
        },
        0x14u8 => {
            proof {
                assert(arg_fits(args_view(orig)[0], layout(op)->0[0]));
            }
            let v_a0 = take_byte(&mut args);
            Code::C14 { a0: v_a0 }
        },
        0x15u8 => {
            proof {
                assert(arg_fits(args_view(orig)[0], layout(op)->0[0]));
            }
            let v_a0 = take_word(&mut args);
            Code::C15 { a0: v_a0 }
        },
        0x16u8 => {
            proof {
                assert(arg_fits(args_view(orig)[0], layout(op)->0[0]));
                assert(arg_fits(args_view(orig)[1], layout(op)->0[1]));
                assert(arg_fits(args_view(orig)[2], layout(op)->0[2]));
            }
            let v_a2 = take_byte(&mut args);
            let v_a1 = take_byte(&mut args);
            let v_a0 = take_byte(&mut args);
            Code::C16 { a0: v_a0, a1: v_a1, a2: v_a2 }
        },
        0x17u8 => {
            proof {
                assert(arg_fits(args_view(orig)[0], layout(op)->0[0]));
                assert(arg_fits(args_view(orig)[1], layout(op)->0[1]));
            }
            let v_a0 = take_word(&mut args);
            let v_str = take_esc_text(&mut args);
            Code::C17 { str: v_str, a0: v_a0 }
        },
        0x18u8 => {
            proof {
                assert(arg_fits(args_view(orig)[0], layout(op)->0[0]));
                assert(arg_fits(args_view(orig)[1], layout(op)->0[1]));
                assert(arg_fits(args_view(orig)[2], layout(op)->0[2]));
            }
            let v_a2 = take_byte(&mut args);
            let v_a1 = take_byte(&mut args);
            let v_a0 = take_byte(&mut args);
            Code::C18 { a0: v_a0, a1: v_a1, a2: v_a2 }
        },
        0x19u8 => {
            proof {
                assert(arg_fits(args_view(orig)[0], layout(op)->0[0]));
                assert(arg_fits(args_view(orig)[1], layout(op)->0[1]));
                assert(arg_fits(args_view(orig)[2], layout(op)->0[2]));
                assert(arg_fits(args_view(orig)[3], layout(op)->0[3]));
            }
            let v_a3 = take_word(&mut args);
            let v_a2 = take_word(&mut args);
            let v_a1 = take_word(&mut args);
            let v_a0 = take_word(&mut args);
            Code::C19 { a0: v_a0, a1: v_a1, a2: v_a2, a3: v_a3 }
        },
        0x1Au8 => {
            proof {
                assert(arg_fits(args_view(orig)[0], layout(op)->0[0]));
                assert(arg_fits(args_view(orig)[1], layout(op)->0[1]));
            }
            let v_a1 = take_byte(&mut args);
            let v_a0 = take_word(&mut args);
            Code::C1A { a0: v_a0, a1: v_a1 }
        },
        0x1Bu8 => {
            proof {
                assert(arg_fits(args_view(orig)[0], layout(op)->0[0]));
                assert(arg_fits(args_view(orig)[1], layout(op)->0[1]));
            }
            let v_a1 = take_dword(&mut args);
            let v_a0 = take_word(&mut args);
            Code::C1B { a0: v_a0, a1: v_a1 }
        },
        0x1Cu8 => {
            proof {
                assert(arg_fits(args_view(orig)[0], layout(op)->0[0]));
                assert(arg_fits(args_view(orig)[1], layout(op)->0[1]));
            }
            let v_a1 = take_word(&mut args);
            let v_a0 = take_word(&mut args);
            Code::C1C { a0: v_a0, a1: v_a1 }
        },
        0x1Du8 => {
            proof {
                assert(arg_fits(args_view(orig)[0], layout(op)->0[0]));
                assert(arg_fits(args_view(orig)[1], layout(op)->0[1]));
            }
            let v_a1 = take_byte(&mut args);
            let v_a0 = take_word(&mut args);
            Code::C1D { a0: v_a0, a1: v_a1 }
        },
        0x1Eu8 => {
            proof {
                assert(arg_fits(args_view(orig)[0], layout(op)->0[0]));
                assert(arg_fits(args_view(orig)[1], layout(op)->0[1]));
                assert(arg_fits(args_view(orig)[2], layout(op)->0[2]));
                assert(arg_fits(args_view(orig)[3], layout(op)->0[3]));
                assert(arg_fits(args_view(orig)[4], layout(op)->0[4]));
            }
            let v_a4 = take_byte(&mut args);
            let v_a3 = take_word(&mut args);
            let v_a2 = take_word(&mut args);
            let v_a1 = take_word(&mut args);
            let v_a0 = take_word(&mut args);
            Code::C1E { a0: v_a0, a1: v_a1, a2: v_a2, a3: v_a3, a4: v_a4 }
        },
        0x1Fu8 => {
            proof {
                assert(arg_fits(args_view(orig)[0], layout(op)->0[0]));
                assert(arg_fits(args_view(orig)[1], layout(op)->0[1]));
                assert(arg_fits(args_view(orig)[2], layout(op)->0[2]));
            }
            let v_a2 = take_byte(&mut args);
            let v_a1 = take_byte(&mut args);
            let v_a0 = take_word(&mut args);
            Code::C1F { a0: v_a0, a1: v_a1, a2: v_a2 }
        },
        0x20u8 => {
            proof {
                assert(arg_fits(args_view(orig)[0], layout(op)->0[0]));
                assert(arg_fits(args_view(orig)[1], layout(op)->0[1]));
            }
            let v_a1 = take_byte(&mut args);
            let v_a0 = take_word(&mut args);
            Code::C20 { a0: v_a0, a1: v_a1 }
        },
        0x21u8 => {
            proof {
                assert(arg_fits(args_view(orig)[0], layout(op)->0[0]));
                assert(arg_fits(args_view(orig)[1], layout(op)->0[1]));
            }
            let v_a1 = take_byte(&mut args);
            let v_a0 = take_word(&mut args);
            Code::C21 { a0: v_a0, a1: v_a1 }
        },
        0x22u8 => {
            proof {
                assert(arg_fits(args_view(orig)[0], layout(op)->0[0]));
                assert(arg_fits(args_view(orig)[1], layout(op)->0[1]));
            }
            let v_a1 = take_word(&mut args);
            let v_a0 = take_word(&mut args);
            Code::C22 { a0: v_a0, a1: v_a1 }
        },
        0x23u8 => {
            proof {
                assert(arg_fits(args_view(orig)[0], layout(op)->0[0]));
                assert(arg_fits(args_view(orig)[1], layout(op)->0[1]));
            }
            let v_a1 = take_dword(&mut args);
            let v_a0 = take_byte(&mut args);
            Code::C23 { a0: v_a0, a1: v_a1 }
        },
        0x24u8 => {
            proof {
                assert(arg_fits(args_view(orig)[0], layout(op)->0[0]));
                assert(arg_fits(args_view(orig)[1], layout(op)->0[1]));
                assert(arg_fits(args_view(orig)[2], layout(op)->0[2]));
                assert(arg_fits(args_view(orig)[3], layout(op)->0[3]));
            }
            let v_choices = take_choices(&mut args);
            let (v_len, v_ask) = take_fixed(&mut args);
            let v_a1 = take_word(&mut args);
            let v_a0 = take_word(&mut args);
            Code::C24 { a0: v_a0, a1: v_a1, len: v_len, ask: v_ask, choices: v_choices }
        },
        0x25u8 => {
            proof {
                assert(arg_fits(args_view(orig)[0], layout(op)->0[0]));
                assert(arg_fits(args_view(orig)[1], layout(op)->0[1]));
                assert(arg_fits(args_view(orig)[2], layout(op)->0[2]));
            }
            let v_choices = take_choices(&mut args);
            let (v_len, v_ask) = take_fixed(&mut args);
            let v_a0 = take_word(&mut args);
            Code::C25 { a0: v_a0, len: v_len, ask: v_ask, choices: v_choices }
        },
        0x26u8 => {
            proof {
                assert(arg_fits(args_view(orig)[0], layout(op)->0[0]));
                assert(arg_fits(args_view(orig)[1], layout(op)->0[1]));
                assert(arg_fits(args_view(orig)[2], layout(op)->0[2]));
            }
            let v_choices = take_choices(&mut args);
            let (v_len, v_ask) = take_fixed(&mut args);
            let v_a0 = take_word(&mut args);
            Code::C26 { a0: v_a0, len: v_len, ask: v_ask, choices: v_choices }
        },
        0x27u8 => {
            proof {
                assert(arg_fits(args_view(orig)[0], layout(op)->0[0]));
                assert(arg_fits(args_view(orig)[1], layout(op)->0[1]));
                assert(arg_fits(args_view(orig)[2], layout(op)->0[2]));
                assert(arg_fits(args_view(orig)[3], layout(op)->0[3]));
            }
            let v_choices = take_choices(&mut args);
            let (v_len, v_ask) = take_fixed(&mut args);
            let v_a1 = take_word(&mut args);
            let v_a0 = take_word(&mut args);
            Code::C27 { a0: v_a0, a1: v_a1, len: v_len, ask: v_ask, choices: v_choices }
        },
        0x28u8 => {
            proof {
                assert(arg_fits(args_view(orig)[0], layout(op)->0[0]));
                assert(arg_fits(args_view(orig)[1], layout(op)->0[1]));
                assert(arg_fits(args_view(orig)[2], layout(op)->0[2]));
            }
            let v_choices = take_choices(&mut args);
            let (v_len, v_ask) = take_fixed(&mut args);
            let v_a0 = take_word(&mut args);
            Code::C28 { a0: v_a0, len: v_len, ask: v_ask, choices: v_choices }
        },
        0x29u8 => {
            proof {
                assert(arg_fits(args_view(orig)[0], layout(op)->0[0]));
                assert(arg_fits(args_view(orig)[1], layout(op)->0[1]));
                assert(arg_fits(args_view(orig)[2], layout(op)->0[2]));
            }
            let v_choices = take_choices(&mut args);
            let (v_len, v_ask) = take_fixed(&mut args);
            let v_a0 = take_word(&mut args);
            Code::C29 { a0: v_a0, len: v_len, ask: v_ask, choices: v_choices }
        },
        0x2Au8 => {
            proof {
                assert(arg_fits(args_view(orig)[0], layout(op)->0[0]));
                assert(arg_fits(args_view(orig)[1], layout(op)->0[1]));
            }
            let v_a1 = take_byte(&mut args);
            let v_a0 = take_word(&mut args);
            Code::C2A { a0: v_a0, a1: v_a1 }
        },
        0x2Bu8 => {
            proof {
                assert(arg_fits(args_view(orig)[0], layout(op)->0[0]));
            }
            let v_a0 = take_byte(&mut args);
            Code::C2B { a0: v_a0 }
        },
        0x2Cu8 => {
            proof {
                assert(arg_fits(args_view(orig)[0], layout(op)->0[0]));
            }
            let v_a0 = take_byte(&mut args);
            Code::C2C { a0: v_a0 }
        },
        0x2Du8 => {
            proof {
                assert(arg_fits(args_view(orig)[0], layout(op)->0[0]));
                assert(arg_fits(args_view(orig)[1], layout(op)->0[1]));
                assert(arg_fits(args_view(orig)[2], layout(op)->0[2]));
                assert(arg_fits(args_view(orig)[3], layout(op)->0[3]));
                assert(arg_fits(args_view(orig)[4], layout(op)->0[4]));
            }
            let v_a4 = take_byte(&mut args);
            let v_a3 = take_word(&mut args);
            let v_a2 = take_word(&mut args);
            let v_a1 = take_word(&mut args);
            let v_a0 = take_word(&mut args);
            Code::C2D { a0: v_a0, a1: v_a1, a2: v_a2, a3: v_a3, a4: v_a4 }
        },
        0x2Eu8 => {
            proof {
                assert(arg_fits(args_view(orig)[0], layout(op)->0[0]));
            }
            let v_xstr = take_esc_text(&mut args);
            Code::C2E { xstr: v_xstr }
        },
        0x2Fu8 => {
            proof {
                assert(arg_fits(args_view(orig)[0], layout(op)->0[0]));
            }
            let v_a0 = take_word(&mut args);
            Code::C2F { a0: v_a0 }
        },
        0x30u8 => {
            proof {
                assert(arg_fits(args_view(orig)[0], layout(op)->0[0]));
            }
            let v_a0 = take_byte(&mut args);
            Code::C30 { a0: v_a0 }
        },
        0x31u8 => {
            proof {
                assert(arg_fits(args_view(orig)[0], layout(op)->0[0]));
            }
            let v_a0 = take_byte(&mut args);
            Code::C31 { a0: v_a0 }
        },
        0x32u8 => {
            proof {
                assert(arg_fits(args_view(orig)[0], layout(op)->0[0]));
            }
            let v_a0 = take_byte(&mut args);
            Code::C32 { a0: v_a0 }
        },
        0x33u8 => {
            proof {
                assert(arg_fits(args_view(orig)[0], layout(op)->0[0]));
            }
            let v_a0 = take_byte(&mut args);
            Code::C33 { a0: v_a0 }
        },
        0x34u8 => {
            Code::C34 {}
        },
        0x35u8 => {
            proof {
                assert(arg_fits(args_view(orig)[0], layout(op)->0[0]));
                assert(arg_fits(args_view(orig)[1], layout(op)->0[1]));
                assert(arg_fits(args_view(orig)[2], layout(op)->0[2]));
            }
            let (v_len, v_str) = take_fixed(&mut args);
            let v_a1 = take_word(&mut args);
            let v_a0 = take_word(&mut args);
            Code::C35 { a0: v_a0, a1: v_a1, len: v_len, str: v_str }
        },
        0x36u8 => {
            proof {
                assert(arg_fits(args_view(orig)[0], layout(op)->0[0]));
                assert(arg_fits(args_view(orig)[1], layout(op)->0[1]));
                assert(arg_fits(args_view(orig)[2], layout(op)->0[2]));
                assert(arg_fits(args_view(orig)[3], layout(op)->0[3]));
                assert(arg_fits(args_view(orig)[4], layout(op)->0[4]));
            }
            let v_a4 = take_word(&mut args);
            let v_a3 = take_word(&mut args);
            let v_a2 = take_word(&mut args);
            let v_a1 = take_word(&mut args);
            let v_a0 = take_word(&mut args);
            Code::C36 { a0: v_a0, a1: v_a1, a2: v_a2, a3: v_a3, a4: v_a4 }
        },
        0x37u8 => {
            proof {
                assert(arg_fits(args_view(orig)[0], layout(op)->0[0]));
                assert(arg_fits(args_view(orig)[1], layout(op)->0[1]));
                assert(arg_fits(args_view(orig)[2], layout(op)->0[2]));
                assert(arg_fits(args_view(orig)[3], layout(op)->0[3]));
                assert(arg_fits(args_view(orig)[4], layout(op)->0[4]));
            }
            let v_a4 = take_word(&mut args);
            let v_a3 = take_word(&mut args);
            let v_a2 = take_word(&mut args);
            let v_a1 = take_word(&mut args);
            let v_a0 = take_word(&mut args);
            Code::C37 { a0: v_a0, a1: v_a1, a2: v_a2, a3: v_a3, a4: v_a4 }
        },
        0x38u8 => {
            proof {
                assert(arg_fits(args_view(orig)[0], layout(op)->0[0]));
                assert(arg_fits(args_view(orig)[1], layout(op)->0[1]));
                assert(arg_fits(args_view(orig)[2], layout(op)->0[2]));
            }
            let v_a2 = take_word(&mut args);
            let v_a1 = take_word(&mut args);
            let v_a0 = take_word(&mut args);
            Code::C38 { a0: v_a0, a1: v_a1, a2: v_a2 }
        },
        0x39u8 => {
            proof {
                assert(arg_fits(args_view(orig)[0], layout(op)->0[0]));
                assert(arg_fits(args_view(orig)[1], layout(op)->0[1]));
                assert(arg_fits(args_view(orig)[2], layout(op)->0[2]));
            }
            let v_a2 = take_word(&mut args);
            let v_a1 = take_word(&mut args);
            let v_a0 = take_word(&mut args);
            Code::C39 { a0: v_a0, a1: v_a1, a2: v_a2 }
        },
        0x3Au8 => {
            proof {
                assert(arg_fits(args_view(orig)[0], layout(op)->0[0]));
                assert(arg_fits(args_view(orig)[1], layout(op)->0[1]));
            }
            let v_a1 = take_word(&mut args);
            let v_a0 = take_word(&mut args);
            Code::C3A { a0: v_a0, a1: v_a1 }
        },
        0x3Bu8 => {
            proof {
                assert(arg_fits(args_view(orig)[0], layout(op)->0[0]));
                assert(arg_fits(args_view(orig)[1], layout(op)->0[1]));
            }
            let (v_len, v_str) = take_fixed(&mut args);
            let v_a0 = take_word(&mut args);
            Code::C3B { a0: v_a0, len: v_len, str: v_str }
        },
        0x3Cu8 => {
            proof {
                assert(arg_fits(args_view(orig)[0], layout(op)->0[0]));
                assert(arg_fits(args_view(orig)[1], layout(op)->0[1]));
            }
            let v_a1 = take_word(&mut args);
            let v_jump = take_word(&mut args);
            Code::C3C { jump: v_jump, a1: v_a1 }
        },
        0x3Du8 => {
            proof {
                assert(arg_fits(args_view(orig)[0], layout(op)->0[0]));
            }
            let v_a0 = take_byte(&mut args);
            Code::C3D { a0: v_a0 }
        },
        0x3Eu8 => {
            proof {
                assert(arg_fits(args_view(orig)[0], layout(op)->0[0]));
            }
            let v_a0 = take_byte(&mut args);
            Code::C3E { a0: v_a0 }
        },
        0x3Fu8 => {
            proof {
                assert(arg_fits(args_view(orig)[0], layout(op)->0[0]));
            }
            let v_a0 = take_byte(&mut args);
            Code::C3F { a0: v_a0 }
        },
        0x40u8 => {
            proof {
                assert(arg_fits(args_view(orig)[0], layout(op)->0[0]));
            }
            let v_a0 = take_byte(&mut args);
            Code::C40 { a0: v_a0 }
        },
        0x41u8 => {
            proof {
                assert(arg_fits(args_view(orig)[0], layout(op)->0[0]));
            }
            let v_a0 = take_byte(&mut args);
            Code::C41 { a0: v_a0 }
        },
        0x42u8 => {
            proof {
                assert(arg_fits(args_view(orig)[0], layout(op)->0[0]));
            }
            let v_a0 = take_word(&mut args);
            Code::C42 { a0: v_a0 }
        },
        0x43u8 => {
            proof {
                assert(arg_fits(args_view(orig)[0], layout(op)->0[0]));
            }
            let v_a0 = take_word(&mut args);
            Code::C43 { a0: v_a0 }
        },
        0x44u8 => {
            proof {
                assert(arg_fits(args_view(orig)[0], layout(op)->0[0]));
                assert(arg_fits(args_view(orig)[1], layout(op)->0[1]));
            }
            let v_a1 = take_word(&mut args);
            let v_a0 = take_word(&mut args);
            Code::C44 { a0: v_a0, a1: v_a1 }
        },
        0x45u8 => {
            proof {
                assert(arg_fits(args_view(orig)[0], layout(op)->0[0]));
            }
            let v_a0 = take_byte(&mut args);
            Code::C45 { a0: v_a0 }
        },
        0x46u8 => {
            Code::C46 {}
        },
        0x47u8 => {
            proof {
                assert(arg_fits(args_view(orig)[0], layout(op)->0[0]));
            }
            let v_a0 = take_byte(&mut args);
            Code::C47 { a0: v_a0 }
        },
        0x48u8 => {
            proof {
                assert(arg_fits(args_view(orig)[0], layout(op)->0[0]));
            }
            let v_a0 = take_byte(&mut args);
            Code::C48 { a0: v_a0 }
        },
        0x49u8 => {
            proof {
                assert(arg_fits(args_view(orig)[0], layout(op)->0[0]));
            }
            let v_a0 = take_word(&mut args);
            Code::C49 { a0: v_a0 }
        },
        0x4Au8 => {
            proof {
                assert(arg_fits(args_view(orig)[0], layout(op)->0[0]));
                assert(arg_fits(args_view(orig)[1], layout(op)->0[1]));
            }
            let v_a1 = take_byte(&mut args);
            let v_a0 = take_word(&mut args);
            Code::C4A { a0: v_a0, a1: v_a1 }
        },
        0x4Bu8 => {
            proof {
                assert(arg_fits(args_view(orig)[0], layout(op)->0[0]));
                assert(arg_fits(args_view(orig)[1], layout(op)->0[1]));
            }
            let v_a1 = take_byte(&mut args);
            let v_a0 = take_word(&mut args);
            Code::C4B { a0: v_a0, a1: v_a1 }
        },
        0x4Cu8 => {
            proof {
                assert(arg_fits(args_view(orig)[0], layout(op)->0[0]));
            }
            let v_a0 = take_byte(&mut args);
            Code::C4C { a0: v_a0 }
        },
        0x4Du8 => {
            proof {
                assert(arg_fits(args_view(orig)[0], layout(op)->0[0]));
            }
            let v_a0 = take_byte(&mut args);
            Code::C4D { a0: v_a0 }
        },
        0x4Eu8 => {
            Code::C4E {}
        },
        0x4Fu8 => {
            proof {
                assert(arg_fits(args_view(orig)[0], layout(op)->0[0]));
            }
            let v_a0 = take_word(&mut args);
            Code::C4F { a0: v_a0 }
        },
        0x50u8 => {
            proof {
                assert(arg_fits(args_view(orig)[0], layout(op)->0[0]));
                assert(arg_fits(args_view(orig)[1], layout(op)->0[1]));
            }
            let v_a1 = take_dword(&mut args);
            let v_a0 = take_word(&mut args);
            Code::C50 { a0: v_a0, a1: v_a1 }
        },
        0x51u8 => {
            Code::C51 {}
        },
        0x52u8 => {
            proof {
                assert(arg_fits(args_view(orig)[0], layout(op)->0[0]));
                assert(arg_fits(args_view(orig)[1], layout(op)->0[1]));
            }
            let (v_len, v_str) = take_fixed(&mut args);
            let v_a0 = take_word(&mut args);
            Code::C52 { a0: v_a0, len: v_len, str: v_str }
        },
        0x53u8 => {
            proof {
                assert(arg_fits(args_view(orig)[0], layout(op)->0[0]));
            }
            let v_a0 = take_word(&mut args);
            Code::C53 { a0: v_a0 }
        },
        0x54u8 => {
            proof {
                assert(arg_fits(args_view(orig)[0], layout(op)->0[0]));
            }
            let v_xstr = take_esc_text(&mut args);
            Code::C54 { xstr: v_xstr }
        },
        0x55u8 => {
            Code::C55 {}
        },
        0x56u8 => {
            proof {
                assert(arg_fits(args_view(orig)[0], layout(op)->0[0]));
            }
            let v_a0 = take_byte(&mut args);
            Code::C56 { a0: v_a0 }
        },
        0x57u8 => {
            proof {
                assert(arg_fits(args_view(orig)[0], layout(op)->0[0]));
            }
            let v_a0 = take_word(&mut args);
            Code::C57 { a0: v_a0 }
        },
        0x58u8 => {
            proof {
                assert(arg_fits(args_view(orig)[0], layout(op)->0[0]));
            }
            let v_a0 = take_word(&mut args);
            Code::C58 { a0: v_a0 }
        },
        0x59u8 => {
            proof {
                assert(arg_fits(args_view(orig)[0], layout(op)->0[0]));
            }
            let v_a0 = take_word(&mut args);
            Code::C59 { a0: v_a0 }
        },
        0x5Au8 => {
            Code::C5A {}
        },
        0x5Bu8 => {
            proof {
                assert(arg_fits(args_view(orig)[0], layout(op)->0[0]));
                assert(arg_fits(args_view(orig)[1], layout(op)->0[1]));
            }
            let v_a1 = take_byte(&mut args);
            let v_a0 = take_word(&mut args);
            Code::C5B { a0: v_a0, a1: v_a1 }
        },
        0x5Cu8 => {
            proof {
                assert(arg_fits(args_view(orig)[0], layout(op)->0[0]));
                assert(arg_fits(args_view(orig)[1], layout(op)->0[1]));
            }
            let v_a1 = take_byte(&mut args);
            let v_a0 = take_word(&mut args);
            Code::C5C { a0: v_a0, a1: v_a1 }
        },
        0x5Du8 => {
            proof {
                assert(arg_fits(args_view(orig)[0], layout(op)->0[0]));
                assert(arg_fits(args_view(orig)[1], layout(op)->0[1]));
            }
            let v_a1 = take_byte(&mut args);
            let v_a0 = take_word(&mut args);
            Code::C5D { a0: v_a0, a1: v_a1 }
        },
        0x5Eu8 => {
            proof {
                assert(arg_fits(args_view(orig)[0], layout(op)->0[0]));
            }
            let v_a0 = take_byte(&mut args);
            Code::C5E { a0: v_a0 }
        },
        0x5Fu8 => {
            proof {
                assert(arg_fits(args_view(orig)[0], layout(op)->0[0]));
            }
            let v_a0 = take_byte(&mut args);
            Code::C5F { a0: v_a0 }
        },
        0x60u8 => {
            proof {
                assert(arg_fits(args_view(orig)[0], layout(op)->0[0]));
            }
            let v_a0 = take_word(&mut args);
            Code::C60 { a0: v_a0 }
        },
        0x61u8 => {
            proof {
                assert(arg_fits(args_view(orig)[0], layout(op)->0[0]));
            }
            let v_a0 = take_byte(&mut args);
            Code::C61 { a0: v_a0 }
        },
        0x62u8 => {
            proof {
                assert(arg_fits(args_view(orig)[0], layout(op)->0[0]));
                assert(arg_fits(args_view(orig)[1], layout(op)->0[1]));
            }
            let v_a1 = take_byte(&mut args);
            let v_a0 = take_word(&mut args);
            Code::C62 { a0: v_a0, a1: v_a1 }
        },
        0x63u8 => {
            proof {
                assert(arg_fits(args_view(orig)[0], layout(op)->0[0]));
                assert(arg_fits(args_view(orig)[1], layout(op)->0[1]));
            }
            let v_a1 = take_byte(&mut args);
            let v_a0 = take_word(&mut args);
            Code::C63 { a0: v_a0, a1: v_a1 }
        },
        0x64u8 => {
            proof {
                assert(arg_fits(args_view(orig)[0], layout(op)->0[0]));
                assert(arg_fits(args_view(orig)[1], layout(op)->0[1]));
                assert(arg_fits(args_view(orig)[2], layout(op)->0[2]));
                assert(arg_fits(args_view(orig)[3], layout(op)->0[3]));
                assert(arg_fits(args_view(orig)[4], layout(op)->0[4]));
                assert(arg_fits(args_view(orig)[5], layout(op)->0[5]));
                assert(arg_fits(args_view(orig)[6], layout(op)->0[6]));
            }
            let v_a6 = take_byte(&mut args);
            let v_a5 = take_word(&mut args);
            let v_a4 = take_word(&mut args);
            let v_a3 = take_word(&mut args);
            let v_a2 = take_word(&mut args);
            let v_a1 = take_word(&mut args);
            let v_a0 = take_word(&mut args);
            Code::C64 { a0: v_a0, a1: v_a1, a2: v_a2, a3: v_a3, a4: v_a4, a5: v_a5, a6: v_a6 }
        },
        0x65u8 => {
            proof {
                assert(arg_fits(args_view(orig)[0], layout(op)->0[0]));
            }
            let v_a0 = take_word(&mut args);
            Code::C65 { a0: v_a0 }
        },
        0x66u8 => {
            proof {
                assert(arg_fits(args_view(orig)[0], layout(op)->0[0]));
                assert(arg_fits(args_view(orig)[1], layout(op)->0[1]));
                assert(arg_fits(args_view(orig)[2], layout(op)->0[2]));
            }
            let v_a2 = take_dword(&mut args);
            let v_a1 = take_dword(&mut args);
            let v_a0 = take_byte(&mut args);
            Code::C66 { a0: v_a0, a1: v_a1, a2: v_a2 }
        },
        0x67u8 => {
            Code::C67 {}
        },
        0xFFu8 => {
            Code::End {}
        },
        _ => Code::End {},
    };
    assert(code_args(c) =~= args_view(orig));
    c
}

/// The opcode and the operand values of an instruction.
#[verifier::rlimit(100)]
pub fn code_to_args(c: &Code) -> (r: (u8, Vec<Field>))
    ensures
        r.0 == code_op(*c),
        args_view(r.1@) == code_args(*c),
{
    let r = match c {
        Code::C00 {} => (0x00u8, vec![]),
        Code::C01 { a0: v_a0 } => (0x01u8, vec![Field::Byte(*v_a0)]),
        Code::C02 { a0: v_a0 } => (0x02u8, vec![Field::Byte(*v_a0)]),
        Code::C03 { a0: v_a0 } => (0x03u8, vec![Field::Byte(*v_a0)]),
        Code::C04 {} => (0x04u8, vec![]),
        Code::C05 {} => (0x05u8, vec![]),
        Code::C06 {} => (0x06u8, vec![]),
        Code::C07 { a0: v_a0 } => (0x07u8, vec![Field::Byte(*v_a0)]),
        Code::C08 { xstr: v_xstr } => (0x08u8, vec![Field::Text(v_xstr.clone())]),
        Code::C09 { xstr: v_xstr } => (0x09u8, vec![Field::Text(v_xstr.clone())]),
        Code::C0A { a0: v_a0, a1: v_a1, len: v_len, str: v_str } => (0x0Au8, vec![Field::Word(*v_a0), Field::Word(*v_a1), Field::Fixed(*v_len, v_str.clone())]),
        Code::C0B {} => (0x0Bu8, vec![]),
        Code::C0C {} => (0x0Cu8, vec![]),
        Code::C0D {} => (0x0Du8, vec![]),
        Code::C0E { a0: v_a0 } => (0x0Eu8, vec![Field::Byte(*v_a0)]),
        Code::C0F {} => (0x0Fu8, vec![]),
        Code::C10 {} => (0x10u8, vec![]),
        Code::C11 {} => (0x11u8, vec![]),
        Code::C12 {} => (0x12u8, vec![]),
        Code::C13 { a0: v_a0, a1: v_a1 } => (0x13u8, vec![Field::Word(*v_a0), Field::Byte(*v_a1)]),
        Code::C14 { a0: v_a0 } => (0x14u8, vec![Field::Byte(*v_a0)]),
        Code::C15 { a0: v_a0 } => (0x15u8, vec![Field::Word(*v_a0)]),
        Code::C16 { a0: v_a0, a1: v_a1, a2: v_a2 } => (0x16u8, vec![Field::Byte(*v_a0), Field::Byte(*v_a1), Field::Byte(*v_a2)]),
        Code::C17 { str: v_str, a0: v_a0 } => (0x17u8, vec![Field::EscText(v_str.clone()), Field::Word(*v_a0)]),
        Code::C18 { a0: v_a0, a1: v_a1, a2: v_a2 } => (0x18u8, vec![Field::Byte(*v_a0), Field::Byte(*v_a1), Field::Byte(*v_a2)]),
        Code::C19 { a0: v_a0, a1: v_a1, a2: v_a2, a3: v_a3 } => (0x19u8, vec![Field::Word(*v_a0), Field::Word(*v_a1), Field::Word(*v_a2), Field::Word(*v_a3)]),
        Code::C1A { a0: v_a0, a1: v_a1 } => (0x1Au8, vec![Field::Word(*v_a0), Field::Byte(*v_a1)]),
        Code::C1B { a0: v_a0, a1: v_a1 } => (0x1Bu8, vec![Field::Word(*v_a0), Field::Dword(*v_a1)]),
        Code::C1C { a0: v_a0, a1: v_a1 } => (0x1Cu8, vec![Field::Word(*v_a0), Field::Word(*v_a1)]),
        Code::C1D { a0: v_a0, a1: v_a1 } => (0x1Du8, vec![Field::Word(*v_a0), Field::Byte(*v_a1)]),
        Code::C1E { a0: v_a0, a1: v_a1, a2: v_a2, a3: v_a3, a4: v_a4 } => (0x1Eu8, vec![Field::Word(*v_a0), Field::Word(*v_a1), Field::Word(*v_a2), Field::Word(*v_a3), Field::Byte(*v_a4)]),
        Code::C1F { a0: v_a0, a1: v_a1, a2: v_a2 } => (0x1Fu8, vec![Field::Word(*v_a0), Field::Byte(*v_a1), Field::Byte(*v_a2)]),
        Code::C20 { a0: v_a0, a1: v_a1 } => (0x20u8, vec![Field::Word(*v_a0), Field::Byte(*v_a1)]),
        Code::C21 { a0: v_a0, a1: v_a1 } => (0x21u8, vec![Field::Word(*v_a0), Field::Byte(*v_a1)]),
        Code::C22 { a0: v_a0, a1: v_a1 } => (0x22u8, vec![Field::Word(*v_a0), Field::Word(*v_a1)]),
        Code::C23 { a0: v_a0, a1: v_a1 } => (0x23u8, vec![Field::Byte(*v_a0), Field::Dword(*v_a1)]),
        Code::C24 { a0: v_a0, a1: v_a1, len: v_len, ask: v_ask, choices: v_choices } => (0x24u8, vec![Field::Word(*v_a0), Field::Word(*v_a1), Field::Fixed(*v_len, v_ask.clone()), Field::Choices(clone_choices(v_choices))]),
        Code::C25 { a0: v_a0, len: v_len, ask: v_ask, choices: v_choices } => (0x25u8, vec![Field::Word(*v_a0), Field::Fixed(*v_len, v_ask.clone()), Field::Choices(clone_choices(v_choices))]),
        Code::C26 { a0: v_a0, len: v_len, ask: v_ask, choices: v_choices } => (0x26u8, vec![Field::Word(*v_a0), Field::Fixed(*v_len, v_ask.clone()), Field::Choices(clone_choices(v_choices))]),
        Code::C27 { a0: v_a0, a1: v_a1, len: v_len, ask: v_ask, choices: v_choices } => (0x27u8, vec![Field::Word(*v_a0), Field::Word(*v_a1), Field::Fixed(*v_len, v_ask.clone()), Field::Choices(clone_choices(v_choices))]),
        Code::C28 { a0: v_a0, len: v_len, ask: v_ask, choices: v_choices } => (0x28u8, vec![Field::Word(*v_a0), Field::Fixed(*v_len, v_ask.clone()), Field::Choices(clone_choices(v_choices))]),
        Code::C29 { a0: v_a0, len: v_len, ask: v_ask, choices: v_choices } => (0x29u8, vec![Field::Word(*v_a0), Field::Fixed(*v_len, v_ask.clone()), Field::Choices(clone_choices(v_choices))]),
        Code::C2A { a0: v_a0, a1: v_a1 } => (0x2Au8, vec![Field::Word(*v_a0), Field::Byte(*v_a1)]),
        Code::C2B { a0: v_a0 } => (0x2Bu8, vec![Field::Byte(*v_a0)]),
        Code::C2C { a0: v_a0 } => (0x2Cu8, vec![Field::Byte(*v_a0)]),
        Code::C2D { a0: v_a0, a1: v_a1, a2: v_a2, a3: v_a3, a4: v_a4 } => (0x2Du8, vec![Field::Word(*v_a0), Field::Word(*v_a1), Field::Word(*v_a2), Field::Word(*v_a3), Field::Byte(*v_a4)]),
        Code::C2E { xstr: v_xstr } => (0x2Eu8, vec![Field::EscText(v_xstr.clone())]),
        Code::C2F { a0: v_a0 } => (0x2Fu8, vec![Field::Word(*v_a0)]),
        Code::C30 { a0: v_a0 } => (0x30u8, vec![Field::Byte(*v_a0)]),
        Code::C31 { a0: v_a0 } => (0x31u8, vec![Field::Byte(*v_a0)]),
        Code::C32 { a0: v_a0 } => (0x32u8, vec![Field::Byte(*v_a0)]),
        Code::C33 { a0: v_a0 } => (0x33u8, vec![Field::Byte(*v_a0)]),
        Code::C34 {} => (0x34u8, vec![]),
        Code::C35 { a0: v_a0, a1: v_a1, len: v_len, str: v_str } => (0x35u8, vec![Field::Word(*v_a0), Field::Word(*v_a1), Field::Fixed(*v_len, v_str.clone())]),
        Code::C36 { a0: v_a0, a1: v_a1, a2: v_a2, a3: v_a3, a4: v_a4 } => (0x36u8, vec![Field::Word(*v_a0), Field::Word(*v_a1), Field::Word(*v_a2), Field::Word(*v_a3), Field::Word(*v_a4)]),
        Code::C37 { a0: v_a0, a1: v_a1, a2: v_a2, a3: v_a3, a4: v_a4 } => (0x37u8, vec![Field::Word(*v_a0), Field::Word(*v_a1), Field::Word(*v_a2), Field::Word(*v_a3), Field::Word(*v_a4)]),
        Code::C38 { a0: v_a0, a1: v_a1, a2: v_a2 } => (0x38u8, vec![Field::Word(*v_a0), Field::Word(*v_a1), Field::Word(*v_a2)]),
        Code::C39 { a0: v_a0, a1: v_a1, a2: v_a2 } => (0x39u8, vec![Field::Word(*v_a0), Field::Word(*v_a1), Field::Word(*v_a2)]),
        Code::C3A { a0: v_a0, a1: v_a1 } => (0x3Au8, vec![Field::Word(*v_a0), Field::Word(*v_a1)]),
        Code::C3B { a0: v_a0, len: v_len, str: v_str } => (0x3Bu8, vec![Field::Word(*v_a0), Field::Fixed(*v_len, v_str.clone())]),
        Code::C3C { jump: v_jump, a1: v_a1 } => (0x3Cu8, vec![Field::Word(*v_jump), Field::Word(*v_a1)]),
        Code::C3D { a0: v_a0 } => (0x3Du8, vec![Field::Byte(*v_a0)]),
        Code::C3E { a0: v_a0 } => (0x3Eu8, vec![Field::Byte(*v_a0)]),
        Code::C3F { a0: v_a0 } => (0x3Fu8, vec![Field::Byte(*v_a0)]),
        Code::C40 { a0: v_a0 } => (0x40u8, vec![Field::Byte(*v_a0)]),
        Code::C41 { a0: v_a0 } => (0x41u8, vec![Field::Byte(*v_a0)]),
        Code::C42 { a0: v_a0 } => (0x42u8, vec![Field::Word(*v_a0)]),
        Code::C43 { a0: v_a0 } => (0x43u8, vec![Field::Word(*v_a0)]),
        Code::C44 { a0: v_a0, a1: v_a1 } => (0x44u8, vec![Field::Word(*v_a0), Field::Word(*v_a1)]),
        Code::C45 { a0: v_a0 } => (0x45u8, vec![Field::Byte(*v_a0)]),
        Code::C46 {} => (0x46u8, vec![]),
        Code::C47 { a0: v_a0 } => (0x47u8, vec![Field::Byte(*v_a0)]),
        Code::C48 { a0: v_a0 } => (0x48u8, vec![Field::Byte(*v_a0)]),
        Code::C49 { a0: v_a0 } => (0x49u8, vec![Field::Word(*v_a0)]),
        Code::C4A { a0: v_a0, a1: v_a1 } => (0x4Au8, vec![Field::Word(*v_a0), Field::Byte(*v_a1)]),
        Code::C4B { a0: v_a0, a1: v_a1 } => (0x4Bu8, vec![Field::Word(*v_a0), Field::Byte(*v_a1)]),
        Code::C4C { a0: v_a0 } => (0x4Cu8, vec![Field::Byte(*v_a0)]),
        Code::C4D { a0: v_a0 } => (0x4Du8, vec![Field::Byte(*v_a0)]),
        Code::C4E {} => (0x4Eu8, vec![]),
        Code::C4F { a0: v_a0 } => (0x4Fu8, vec![Field::Word(*v_a0)]),
        Code::C50 { a0: v_a0, a1: v_a1 } => (0x50u8, vec![Field::Word(*v_a0), Field::Dword(*v_a1)]),
        Code::C51 {} => (0x51u8, vec![]),
        Code::C52 { a0: v_a0, len: v_len, str: v_str } => (0x52u8, vec![Field::Word(*v_a0), Field::Fixed(*v_len, v_str.clone())]),
        Code::C53 { a0: v_a0 } => (0x53u8, vec![Field::Word(*v_a0)]),
        Code::C54 { xstr: v_xstr } => (0x54u8, vec![Field::EscText(v_xstr.clone())]),
        Code::C55 {} => (0x55u8, vec![]),
        Code::C56 { a0: v_a0 } => (0x56u8, vec![Field::Byte(*v_a0)]),
        Code::C57 { a0: v_a0 } => (0x57u8, vec![Field::Word(*v_a0)]),
        Code::C58 { a0: v_a0 } => (0x58u8, vec![Field::Word(*v_a0)]),
        Code::C59 { a0: v_a0 } => (0x59u8, vec![Field::Word(*v_a0)]),
        Code::C5A {} => (0x5Au8, vec![]),
        Code::C5B { a0: v_a0, a1: v_a1 } => (0x5Bu8, vec![Field::Word(*v_a0), Field::Byte(*v_a1)]),
        Code::C5C { a0: v_a0, a1: v_a1 } => (0x5Cu8, vec![Field::Word(*v_a0), Field::Byte(*v_a1)]),
        Code::C5D { a0: v_a0, a1: v_a1 } => (0x5Du8, vec![Field::Word(*v_a0), Field::Byte(*v_a1)]),
        Code::C5E { a0: v_a0 } => (0x5Eu8, vec![Field::Byte(*v_a0)]),
        Code::C5F { a0: v_a0 } => (0x5Fu8, vec![Field::Byte(*v_a0)]),
        Code::C60 { a0: v_a0 } => (0x60u8, vec![Field::Word(*v_a0)]),
        Code::C61 { a0: v_a0 } => (0x61u8, vec![Field::Byte(*v_a0)]),
        Code::C62 { a0: v_a0, a1: v_a1 } => (0x62u8, vec![Field::Word(*v_a0), Field::Byte(*v_a1)]),
        Code::C63 { a0: v_a0, a1: v_a1 } => (0x63u8, vec![Field::Word(*v_a0), Field::Byte(*v_a1)]),
        Code::C64 { a0: v_a0, a1: v_a1, a2: v_a2, a3: v_a3, a4: v_a4, a5: v_a5, a6: v_a6 } => (0x64u8, vec![Field::Word(*v_a0), Field::Word(*v_a1), Field::Word(*v_a2), Field::Word(*v_a3), Field::Word(*v_a4), Field::Word(*v_a5), Field::Byte(*v_a6)]),
        Code::C65 { a0: v_a0 } => (0x65u8, vec![Field::Word(*v_a0)]),
        Code::C66 { a0: v_a0, a1: v_a1, a2: v_a2 } => (0x66u8, vec![Field::Byte(*v_a0), Field::Dword(*v_a1), Field::Dword(*v_a2)]),
        Code::C67 {} => (0x67u8, vec![]),
        Code::End {} => (0xFFu8, vec![]),
    };
    assert(args_view(r.1@) =~= code_args(*c));
    r
}

} // verus!
