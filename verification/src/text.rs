//! The display texts of the machine's values: a word as `0x` and eight
//! lowercase hexadecimal digits, the register file as a table, and flags,
//! operands and instructions as the front end logs them.
use crate::assembly::{begins_with, hex_digit, hex_digits_from, spec_literal_value, spec_parse_hex, strip_prefixes};
use crate::isa::{flags_name, CmpFlags, InstVariant, Instruction, InstructionData, Register, RegisterFile};
use vstd::prelude::*;

verus! {

/// The lowercase hexadecimal digit for `d`, below 16.
pub open spec fn hex_char(d: u32) -> char {
    if d < 10 {
        (48 + d) as char
    } else {
        (87 + d) as char
    }
}

/// Digit `k` of `v`, counting from the most significant of eight.
pub open spec fn nibble(v: u32, k: int) -> u32 {
    (v >> ((28 - 4 * k) as u32)) & 0xF
}

/// `v` as `0x` and eight lowercase hexadecimal digits.
pub open spec fn word_text(v: u32) -> Seq<char> {
    "0x"@ + Seq::new(8, |k: int| hex_char(nibble(v, k)))
}

/// The text of a hexadecimal digit.
fn digit_text(d: u32) -> (r: &'static str)
    requires
        d < 16,
    ensures
        r@ == seq![hex_char(d)],
{
    proof {
        reveal_strlit("0");
        reveal_strlit("1");
        reveal_strlit("2");
        reveal_strlit("3");
        reveal_strlit("4");
        reveal_strlit("5");
        reveal_strlit("6");
        reveal_strlit("7");
        reveal_strlit("8");
        reveal_strlit("9");
        reveal_strlit("a");
        reveal_strlit("b");
        reveal_strlit("c");
        reveal_strlit("d");
        reveal_strlit("e");
        reveal_strlit("f");
    }
    let r = match d {
        0 => "0",
        1 => "1",
        2 => "2",
        3 => "3",
        4 => "4",
        5 => "5",
        6 => "6",
        7 => "7",
        8 => "8",
        9 => "9",
        10 => "a",
        11 => "b",
        12 => "c",
        13 => "d",
        14 => "e",
        _ => "f",
    };
    assert(r@ =~= seq![hex_char(d)]);
    r
}

/// Appends `v` as `0x` and eight lowercase hexadecimal digits.
fn append_word(out: &mut String, v: u32)
    ensures
        final(out)@ == old(out)@ + word_text(v),
{
    let ghost start = out@;
    out.append("0x");
    let mut k: u32 = 0;
    while k < 8
        invariant
            k <= 8,
            out@ == start + "0x"@ + Seq::new(k as nat, |j: int| hex_char(nibble(v, j))),
        decreases 8 - k,
    {
        let sh: u32 = 28 - 4 * k;
        let d = (v >> sh) & 0xF;
        assert(d < 16) by (bit_vector)
            requires
                d == (v >> sh) & 0xF,
        ;
        let ghost before = out@;
        out.append(digit_text(d));
        proof {
            assert(d == nibble(v, k as int));
            assert(Seq::new(k as nat, |j: int| hex_char(nibble(v, j))).push(hex_char(d)) =~= Seq::new(
                (k + 1) as nat,
                |j: int| hex_char(nibble(v, j)),
            ));
            assert(out@ =~= start + "0x"@ + Seq::new((k + 1) as nat, |j: int| hex_char(nibble(v, j))));
        }
        k = k + 1;
    }
    assert(start + "0x"@ + Seq::new(8, |j: int| hex_char(nibble(v, j))) =~= start + word_text(v));
}

/// `v` as `0x` and eight lowercase hexadecimal digits.
pub fn word_string(v: u32) -> (r: String)
    ensures
        r@ == word_text(v),
{
    let mut out = String::new();
    append_word(&mut out, v);
    assert(Seq::<char>::empty() + word_text(v) =~= word_text(v));
    out
}

/// The name of a register.
pub open spec fn register_name(r: Register) -> Seq<char> {
    match r {
        Register::R0 => "R0"@,
        Register::R1 => "R1"@,
        Register::R2 => "R2"@,
        Register::R3 => "R3"@,
        Register::R4 => "R4"@,
        Register::R5 => "R5"@,
        Register::R6 => "R6"@,
        Register::R7 => "R7"@,
        Register::R8 => "R8"@,
        Register::R9 => "R9"@,
        Register::CS => "CS"@,
        Register::CA => "CA"@,
        Register::ST => "ST"@,
        Register::IA => "IA"@,
        Register::RA => "RA"@,
        Register::SA => "SA"@,
    }
}

/// The name of a register.
pub fn register_name_text(r: Register) -> (s: &'static str)
    ensures
        s@ == register_name(r),
{
    match r {
        Register::R0 => "R0",
        Register::R1 => "R1",
        Register::R2 => "R2",
        Register::R3 => "R3",
        Register::R4 => "R4",
        Register::R5 => "R5",
        Register::R6 => "R6",
        Register::R7 => "R7",
        Register::R8 => "R8",
        Register::R9 => "R9",
        Register::CS => "CS",
        Register::CA => "CA",
        Register::ST => "ST",
        Register::IA => "IA",
        Register::RA => "RA",
        Register::SA => "SA",
    }
}

/// One entry of the register table: two spaces, the name, a colon and a
/// space, and the value.
pub open spec fn register_entry(rf: RegisterFile, r: Register) -> Seq<char> {
    "  "@ + register_name(r) + ": "@ + word_text(rf.value(r))
}

/// A row of four entries of the register table, ended by a line break.
pub open spec fn register_row(rf: RegisterFile, a: Register, b: Register, c: Register, d: Register) -> Seq<
    char,
> {
    register_entry(rf, a) + register_entry(rf, b) + register_entry(rf, c) + register_entry(rf, d)
        + "\n"@
}

/// The register table: a header, the sixteen registers in encoding order,
/// four to a row, and a closing line.
pub open spec fn register_table(rf: RegisterFile) -> Seq<char> {
    "RegisterFile {\n"@ + register_row(rf, Register::R0, Register::R1, Register::R2, Register::R3)
        + register_row(rf, Register::R4, Register::R5, Register::R6, Register::R7) + register_row(
        rf,
        Register::R8,
        Register::R9,
        Register::CS,
        Register::CA,
    ) + register_row(rf, Register::ST, Register::IA, Register::RA, Register::SA) + "};"@
}

impl RegisterFile {
    /// Appends the table entry of register `r`.
    fn append_entry(&self, out: &mut String, r: Register)
        ensures
            final(out)@ == old(out)@ + register_entry(*self, r),
    {
        let ghost start = out@;
        out.append("  ");
        out.append(register_name_text(r));
        out.append(": ");
        append_word(out, self.get(r));
        assert(out@ =~= start + register_entry(*self, r));
    }

    /// Appends a row of four table entries.
    fn append_row(&self, out: &mut String, a: Register, b: Register, c: Register, d: Register)
        ensures
            final(out)@ == old(out)@ + register_row(*self, a, b, c, d),
    {
        let ghost start = out@;
        self.append_entry(out, a);
        self.append_entry(out, b);
        self.append_entry(out, c);
        self.append_entry(out, d);
        out.append("\n");
        assert(out@ =~= start + register_row(*self, a, b, c, d));
    }

    /// The register table.
    pub fn table(&self) -> (s: String)
        ensures
            s@ == register_table(*self),
    {
        let mut out = String::from_str("RegisterFile {\n");
        let ghost header = out@;
        self.append_row(&mut out, Register::R0, Register::R1, Register::R2, Register::R3);
        self.append_row(&mut out, Register::R4, Register::R5, Register::R6, Register::R7);
        self.append_row(&mut out, Register::R8, Register::R9, Register::CS, Register::CA);
        self.append_row(&mut out, Register::ST, Register::IA, Register::RA, Register::SA);
        out.append("};");
        assert(out@ =~= register_table(*self));
        out
    }
}

/// The digit character of `d` reads back as `d`.
proof fn lemma_hex_char_digit(d: u32)
    requires
        d < 16,
    ensures
        hex_digit(hex_char(d)) == Some(d),
        hex_char(d) != 'x',
        hex_char(d) != '+',
{
}

/// Reading one more digit `d` at `k`.
proof fn lemma_digit_step(s: Seq<char>, k: int, acc: u32, d: u32)
    requires
        0 <= k < s.len(),
        d < 16,
        s[k] == hex_char(d),
        acc * 16 + d <= u32::MAX,
    ensures
        hex_digits_from(s, k, acc) == hex_digits_from(s, k + 1, (acc * 16 + d) as u32),
{
    lemma_hex_char_digit(d);
}

/// The eight hexadecimal digits of `v`, most significant first, make up `v`.
proof fn lemma_nibbles(v: u32)
    by (bit_vector)
    ensures
        (v >> 28u32) & 0xF == v >> 28u32,
        (v >> 28u32) * 16 + ((v >> 24u32) & 0xF) == v >> 24u32,
        (v >> 24u32) * 16 + ((v >> 20u32) & 0xF) == v >> 20u32,
        (v >> 20u32) * 16 + ((v >> 16u32) & 0xF) == v >> 16u32,
        (v >> 16u32) * 16 + ((v >> 12u32) & 0xF) == v >> 12u32,
        (v >> 12u32) * 16 + ((v >> 8u32) & 0xF) == v >> 8u32,
        (v >> 8u32) * 16 + ((v >> 4u32) & 0xF) == v >> 4u32,
        (v >> 4u32) * 16 + (v & 0xF) == v,
        (v >> 28u32) & 0xF < 16,
        (v >> 24u32) & 0xF < 16,
        (v >> 20u32) & 0xF < 16,
        (v >> 16u32) & 0xF < 16,
        (v >> 12u32) & 0xF < 16,
        (v >> 8u32) & 0xF < 16,
        (v >> 4u32) & 0xF < 16,
        v & 0xF < 16,
        (v >> 0u32) & 0xF == v & 0xF,
{
}

/// The text of a word, as the disassembler writes a literal word, reads back
/// as that word where the assembler reads a literal field.
pub proof fn lemma_word_text_reads_back(v: u32)
    ensures
        spec_literal_value(word_text(v)) == Ok::<u32, crate::assembly::LineError>(v),
{
    reveal_strlit("0x");
    let w = word_text(v);
    let d8 = Seq::new(8, |k: int| hex_char(nibble(v, k)));
    assert(w.take(2) =~= "0x"@);
    assert(w.skip(2) =~= d8);
    lemma_nibbles(v);
    let n0 = (v >> 28u32) & 0xF;
    let n1 = (v >> 24u32) & 0xF;
    let n2 = (v >> 20u32) & 0xF;
    let n3 = (v >> 16u32) & 0xF;
    let n4 = (v >> 12u32) & 0xF;
    let n5 = (v >> 8u32) & 0xF;
    let n6 = (v >> 4u32) & 0xF;
    let n7 = v & 0xF;
    let a1 = v >> 28u32;
    let a2 = v >> 24u32;
    let a3 = v >> 20u32;
    let a4 = v >> 16u32;
    let a5 = v >> 12u32;
    let a6 = v >> 8u32;
    let a7 = v >> 4u32;
    assert(nibble(v, 0) == n0 && nibble(v, 1) == n1 && nibble(v, 2) == n2 && nibble(v, 3) == n3
        && nibble(v, 4) == n4 && nibble(v, 5) == n5 && nibble(v, 6) == n6 && nibble(v, 7) == n7);
    lemma_hex_char_digit(n1);
    assert(!begins_with(d8, "0x"@)) by {
        if begins_with(d8, "0x"@) {
            assert(d8.take(2)[1] == "0x"@[1]);
        }
    }
    assert(strip_prefixes(d8, "0x"@) == d8);
    assert(strip_prefixes(w, "0x"@) == d8);
    lemma_hex_char_digit(n0);
    lemma_digit_step(d8, 0, 0, n0);
    lemma_digit_step(d8, 1, a1, n1);
    lemma_digit_step(d8, 2, a2, n2);
    lemma_digit_step(d8, 3, a3, n3);
    lemma_digit_step(d8, 4, a4, n4);
    lemma_digit_step(d8, 5, a5, n5);
    lemma_digit_step(d8, 6, a6, n6);
    lemma_digit_step(d8, 7, a7, n7);
    assert(hex_digits_from(d8, 8, v) == Ok::<u32, crate::assembly::HexError>(v));
    assert(spec_parse_hex(d8) == hex_digits_from(d8, 0, 0));
}

/// A byte in decimal, without leading zeros.
pub open spec fn decimal_text(v: u8) -> Seq<char> {
    if v < 10 {
        seq![hex_char(v as u32)]
    } else if v < 100 {
        seq![hex_char((v / 10) as u32), hex_char((v % 10) as u32)]
    } else {
        seq![hex_char((v / 100) as u32), hex_char(((v / 10) % 10) as u32), hex_char((v % 10) as u32)]
    }
}

/// Appends a byte in decimal.
fn append_decimal(out: &mut String, v: u8)
    ensures
        final(out)@ == old(out)@ + decimal_text(v),
{
    let ghost start = out@;
    let x = v as u32;
    if x < 10 {
        out.append(digit_text(x));
    } else if x < 100 {
        out.append(digit_text(x / 10));
        out.append(digit_text(x % 10));
    } else {
        out.append(digit_text(x / 100));
        out.append(digit_text((x / 10) % 10));
        out.append(digit_text(x % 10));
    }
    assert(out@ =~= start + decimal_text(v));
}

/// The text of operands: the kind's name and its fields in brackets, a
/// literal word that follows the instruction written `()`.
pub open spec fn data_text(d: InstructionData) -> Seq<char> {
    match d {
        InstructionData::OneRegister(a) => "OneRegister("@ + register_name(a) + ")"@,
        InstructionData::TwoRegisters(a, b) => "TwoRegisters("@ + register_name(a) + ", "@
            + register_name(b) + ")"@,
        InstructionData::ThreeRegisters(a, b, c) => "ThreeRegisters("@ + register_name(a) + ", "@
            + register_name(b) + ", "@ + register_name(c) + ")"@,
        InstructionData::RegisterAndU8(a, v) => "RegisterAndU8("@ + register_name(a) + ", "@
            + decimal_text(v) + ")"@,
        InstructionData::RegisterAndU32(a, _) => "RegisterAndU32("@ + register_name(a) + ", ())"@,
        InstructionData::TwoRegistersAndU8(a, b, v) => "TwoRegistersAndU8("@ + register_name(a)
            + ", "@ + register_name(b) + ", "@ + decimal_text(v) + ")"@,
        InstructionData::TwoRegistersAndU32(a, b, _) => "TwoRegistersAndU32("@ + register_name(a)
            + ", "@ + register_name(b) + ", ())"@,
        InstructionData::ImmediateOnly(_) => "ImmediateOnly(())"@,
    }
}

/// Appends the text of `OneRegister` operands.
fn append_one_register(out: &mut String, a: Register)
    ensures
        final(out)@ == old(out)@ + data_text(InstructionData::OneRegister(a)),
{
    let ghost start = out@;
    out.append("OneRegister(");
    out.append(register_name_text(a));
    out.append(")");
    assert(out@ =~= start + data_text(InstructionData::OneRegister(a)));
}

/// Appends the text of `TwoRegisters` operands.
fn append_two_registers(out: &mut String, a: Register, b: Register)
    ensures
        final(out)@ == old(out)@ + data_text(InstructionData::TwoRegisters(a, b)),
{
    let ghost start = out@;
    out.append("TwoRegisters(");
    out.append(register_name_text(a));
    out.append(", ");
    out.append(register_name_text(b));
    out.append(")");
    assert(out@ =~= start + data_text(InstructionData::TwoRegisters(a, b)));
}

/// Appends the text of `ThreeRegisters` operands.
fn append_three_registers(out: &mut String, a: Register, b: Register, c: Register)
    ensures
        final(out)@ == old(out)@ + data_text(InstructionData::ThreeRegisters(a, b, c)),
{
    let ghost start = out@;
    out.append("ThreeRegisters(");
    out.append(register_name_text(a));
    out.append(", ");
    out.append(register_name_text(b));
    out.append(", ");
    out.append(register_name_text(c));
    out.append(")");
    assert(out@ =~= start + data_text(InstructionData::ThreeRegisters(a, b, c)));
}

/// Appends the text of `RegisterAndU8` operands.
fn append_register_and_u8(out: &mut String, a: Register, v: u8)
    ensures
        final(out)@ == old(out)@ + data_text(InstructionData::RegisterAndU8(a, v)),
{
    let ghost start = out@;
    out.append("RegisterAndU8(");
    out.append(register_name_text(a));
    out.append(", ");
    append_decimal(out, v);
    out.append(")");
    assert(out@ =~= start + data_text(InstructionData::RegisterAndU8(a, v)));
}

/// Appends the text of `RegisterAndU32` operands.
fn append_register_and_u32(out: &mut String, a: Register)
    ensures
        final(out)@ == old(out)@ + data_text(InstructionData::RegisterAndU32(a, ())),
{
    let ghost start = out@;
    out.append("RegisterAndU32(");
    out.append(register_name_text(a));
    out.append(", ())");
    assert(out@ =~= start + data_text(InstructionData::RegisterAndU32(a, ())));
}

/// Appends the text of `TwoRegistersAndU8` operands.
fn append_two_registers_and_u8(out: &mut String, a: Register, b: Register, v: u8)
    ensures
        final(out)@ == old(out)@ + data_text(InstructionData::TwoRegistersAndU8(a, b, v)),
{
    let ghost start = out@;
    out.append("TwoRegistersAndU8(");
    out.append(register_name_text(a));
    out.append(", ");
    out.append(register_name_text(b));
    out.append(", ");
    append_decimal(out, v);
    out.append(")");
    assert(out@ =~= start + data_text(InstructionData::TwoRegistersAndU8(a, b, v)));
}

/// Appends the text of `TwoRegistersAndU32` operands.
fn append_two_registers_and_u32(out: &mut String, a: Register, b: Register)
    ensures
        final(out)@ == old(out)@ + data_text(InstructionData::TwoRegistersAndU32(a, b, ())),
{
    let ghost start = out@;
    out.append("TwoRegistersAndU32(");
    out.append(register_name_text(a));
    out.append(", ");
    out.append(register_name_text(b));
    out.append(", ())");
    assert(out@ =~= start + data_text(InstructionData::TwoRegistersAndU32(a, b, ())));
}

/// Appends the text of operands.
fn append_data(out: &mut String, d: InstructionData)
    ensures
        final(out)@ == old(out)@ + data_text(d),
{
    match d {
        InstructionData::OneRegister(a) => append_one_register(out, a),
        InstructionData::TwoRegisters(a, b) => append_two_registers(out, a, b),
        InstructionData::ThreeRegisters(a, b, c) => append_three_registers(out, a, b, c),
        InstructionData::RegisterAndU8(a, v) => append_register_and_u8(out, a, v),
        InstructionData::RegisterAndU32(a, _) => append_register_and_u32(out, a),
        InstructionData::TwoRegistersAndU8(a, b, v) => append_two_registers_and_u8(out, a, b, v),
        InstructionData::TwoRegistersAndU32(a, b, _) => append_two_registers_and_u32(out, a, b),
        InstructionData::ImmediateOnly(_) => {
            let ghost start = out@;
            out.append("ImmediateOnly(())");
            assert(out@ =~= start + data_text(d));
        },
    }
}

/// The name of an operation; the one that switches conditional execution
/// is written `Set`.
pub open spec fn operation_name(v: InstVariant) -> Seq<char> {
    match v {
        InstVariant::Add(_) => "Add"@,
        InstVariant::Mul(_) => "Mul"@,
        InstVariant::And(_) => "And"@,
        InstVariant::Or(_) => "Or"@,
        InstVariant::Xor(_) => "Xor"@,
        InstVariant::Not(_) => "Not"@,
        InstVariant::Cmp(_) => "Cmp"@,
        InstVariant::SetEn => "Set"@,
        InstVariant::Rst => "Rst"@,
        InstVariant::Lsl(_) => "Lsl"@,
        InstVariant::Lsr(_) => "Lsr"@,
        InstVariant::Asr(_) => "Asr"@,
        InstVariant::Ror(_) => "Ror"@,
        InstVariant::Ld(_) => "Ld"@,
        InstVariant::Sto(_) => "Sto"@,
        InstVariant::Push(_) => "Push"@,
        InstVariant::Pop(_) => "Pop"@,
        InstVariant::Mov(_) => "Mov"@,
        InstVariant::Call(_) => "Call"@,
        InstVariant::Ret => "Ret"@,
        InstVariant::Jmp(_) => "Jmp"@,
        InstVariant::JmpAbs(_) => "JmpAbs"@,
        InstVariant::Nop => "Nop"@,
        InstVariant::Halt => "Halt"@,
    }
}

/// The name of an operation.
fn operation_name_text(v: InstVariant) -> (s: &'static str)
    ensures
        s@ == operation_name(v),
{
    match v {
        InstVariant::Add(_) => "Add",
        InstVariant::Mul(_) => "Mul",
        InstVariant::And(_) => "And",
        InstVariant::Or(_) => "Or",
        InstVariant::Xor(_) => "Xor",
        InstVariant::Not(_) => "Not",
        InstVariant::Cmp(_) => "Cmp",
        InstVariant::SetEn => "Set",
        InstVariant::Rst => "Rst",
        InstVariant::Lsl(_) => "Lsl",
        InstVariant::Lsr(_) => "Lsr",
        InstVariant::Asr(_) => "Asr",
        InstVariant::Ror(_) => "Ror",
        InstVariant::Ld(_) => "Ld",
        InstVariant::Sto(_) => "Sto",
        InstVariant::Push(_) => "Push",
        InstVariant::Pop(_) => "Pop",
        InstVariant::Mov(_) => "Mov",
        InstVariant::Call(_) => "Call",
        InstVariant::Ret => "Ret",
        InstVariant::Jmp(_) => "Jmp",
        InstVariant::JmpAbs(_) => "JmpAbs",
        InstVariant::Nop => "Nop",
        InstVariant::Halt => "Halt",
    }
}

/// The text of an operation: its name, and its operands in brackets when it
/// takes any.
pub open spec fn operation_text(v: InstVariant) -> Seq<char> {
    match v.data() {
        Some(d) => operation_name(v) + "("@ + data_text(d) + ")"@,
        None => operation_name(v),
    }
}

/// Appends the text of an operation.
fn append_operation(out: &mut String, v: InstVariant)
    ensures
        final(out)@ == old(out)@ + operation_text(v),
{
    let ghost start = out@;
    out.append(operation_name_text(v));
    let d = match v {
        InstVariant::Add(d) | InstVariant::Mul(d) | InstVariant::And(d) | InstVariant::Or(d)
        | InstVariant::Xor(d) | InstVariant::Not(d) | InstVariant::Cmp(d) | InstVariant::Lsl(d)
        | InstVariant::Lsr(d) | InstVariant::Asr(d) | InstVariant::Ror(d) | InstVariant::Ld(d)
        | InstVariant::Sto(d) | InstVariant::Push(d) | InstVariant::Pop(d) | InstVariant::Mov(d)
        | InstVariant::Call(d) | InstVariant::Jmp(d) | InstVariant::JmpAbs(d) => Some(d),
        InstVariant::SetEn | InstVariant::Rst | InstVariant::Ret | InstVariant::Nop
        | InstVariant::Halt => None,
    };
    assert(d == v.data());
    match d {
        Some(d) => {
            out.append("(");
            append_data(out, d);
            out.append(")");
        },
        None => {},
    }
    assert(out@ =~= start + operation_text(v));
}

/// The text of condition flags: `CmpFlags`, and the flags' name in brackets.
pub open spec fn flags_text(f: CmpFlags) -> Seq<char> {
    "CmpFlags("@ + flags_name(f) + ")"@
}

/// The text of an instruction: its flags, `Neg` or `Pos` for its sign, and
/// its operation, in brackets after `Instruction`.
pub open spec fn instruction_text(i: Instruction) -> Seq<char> {
    "Instruction("@ + flags_text(i.cmp) + " "@ + (if i.sign {
        "Neg"@
    } else {
        "Pos"@
    }) + " "@ + operation_text(i.var) + ")"@
}

impl CmpFlags {
    /// The text of these flags.
    pub fn text(&self) -> (s: String)
        ensures
            s@ == flags_text(*self),
    {
        let mut out = String::from_str("CmpFlags(");
        let name: &str = (*self).into();
        out.append(name);
        out.append(")");
        out
    }
}

impl Instruction {
    /// The text of this instruction.
    pub fn text(&self) -> (s: String)
        ensures
            s@ == instruction_text(*self),
    {
        let mut out = String::from_str("Instruction(");
        let flags = self.cmp.text();
        out.append(flags.as_str());
        out.append(" ");
        out.append(if self.sign { "Neg" } else { "Pos" });
        out.append(" ");
        append_operation(&mut out, self.var);
        out.append(")");
        assert(out@ =~= instruction_text(*self));
        out
    }
}

/// The number that the decimal digits `t` write, most significant first.
pub open spec fn decimal_value(t: Seq<char>) -> int
    decreases t.len(),
{
    if t.len() == 0 {
        0
    } else {
        decimal_value(t.drop_last()) * 10 + match hex_digit(t.last()) {
            Some(d) => d as int,
            None => 0,
        }
    }
}

/// The decimal text of a byte is its numeral: one to three decimal digits,
/// without a leading zero, that write the byte's value.
pub proof fn lemma_decimal_text(v: u8)
    ensures
        1 <= decimal_text(v).len() <= 3,
        forall|k: int|
            0 <= k < decimal_text(v).len() ==> (#[trigger] hex_digit(decimal_text(v)[k]) is Some
                && hex_digit(decimal_text(v)[k]).unwrap() < 10),
        decimal_text(v).len() > 1 ==> decimal_text(v)[0] != '0',
        decimal_value(decimal_text(v)) == v,
{
    let t = decimal_text(v);
    let u = v as u32;
    reveal_with_fuel(decimal_value, 4);
    assert((v % 10) as u32 == u % 10 && (v / 10) as u32 == u / 10 && (v / 100) as u32 == u / 100
        && ((v / 10) % 10) as u32 == (u / 10) % 10);
    lemma_hex_char_digit(u % 10);
    if u < 10 {
        assert(t.drop_last() =~= Seq::<char>::empty());
        assert(decimal_value(t) == u % 10);
    } else if u < 100 {
        lemma_hex_char_digit(u / 10);
        assert(t.drop_last() =~= seq![t[0]]);
        assert(seq![t[0]].drop_last() =~= Seq::<char>::empty());
        assert(hex_char(u / 10) != '0');
        assert(decimal_value(seq![t[0]]) == u / 10);
        assert((u / 10) * 10 + u % 10 == u) by (nonlinear_arith);
    } else {
        lemma_hex_char_digit(u / 100);
        lemma_hex_char_digit((u / 10) % 10);
        assert(u / 100 <= 2) by (nonlinear_arith)
            requires
                u < 256,
        ;
        assert(t.drop_last() =~= seq![t[0], t[1]]);
        assert(seq![t[0], t[1]].drop_last() =~= seq![t[0]]);
        assert(seq![t[0]].drop_last() =~= Seq::<char>::empty());
        assert(hex_char(u / 100) != '0') by {
            assert(u / 100 >= 1) by (nonlinear_arith)
                requires
                    u >= 100,
            ;
        }
        assert(decimal_value(seq![t[0]]) == u / 100);
        assert(decimal_value(seq![t[0], t[1]]) == (u / 100) * 10 + (u / 10) % 10);
        assert(((u / 100) * 10 + (u / 10) % 10) * 10 + u % 10 == u) by (nonlinear_arith);
    }
}

} // verus!
