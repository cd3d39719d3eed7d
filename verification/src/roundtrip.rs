//! What decoding gives back of encoding: register codes, flag bits,
//! operand bits and whole instruction words.
use crate::decode::{nibble_register, spec_data_from_word, spec_decode, spec_flags_from_word};
use crate::encode::{spec_data_code, spec_encode, spec_flags_code, spec_makedata, spec_operand_code};
use crate::isa::{
    flag_bits,
    flags_from_name,
    flags_name,
    flags_of_bits,
    register_code,
    register_from_code,
    CmpFlags,
    InstVariant,
    Instruction,
    InstructionData,
    Register,
};
use crate::vcore::CPUError;
use vstd::prelude::*;

verus! {

/// A register's code is below 16 and names the register again.
pub proof fn lemma_register_code_roundtrip(r: Register)
    ensures
        register_code(r) < 16,
        register_from_code(register_code(r)) == Ok::<Register, ()>(r),
{
}

/// A byte names a register exactly when it is below 16, and then the register's code is that byte.
pub proof fn lemma_code_register_roundtrip(v: u8)
    ensures
        (v < 16) == (register_from_code(v) is Ok),
        register_from_code(v) matches Ok(r) ==> register_code(r) == v,
{
}

/// The flag bits of a word give back the flags they were made from.
pub proof fn lemma_flags_roundtrip(f: CmpFlags)
    ensures
        spec_flags_from_word(spec_flags_code(f)) == f,
{
    let gt = f.gt;
    let eq = f.eq;
    let lt = f.lt;
    let c = spec_flags_code(f);
    assert((c & 0x04000000u32 != 0) == gt && (c & 0x02000000u32 != 0) == eq && (c & 0x01000000u32
        != 0) == lt) by (bit_vector)
        requires
            c == (if gt { 0x04000000u32 } else { 0u32 }) | (if eq { 0x02000000u32 } else { 0u32 })
                | (if lt { 0x01000000u32 } else { 0u32 }),
    ;
}

proof fn lemma_data_bits(var: u32, r1: u8, r2: u8, r3: u8, v: u8, w: u32)
    requires
        var < 8,
        r1 < 16,
        r2 < 16,
        r3 < 16,
        w & 0x7FFFF == spec_makedata(var, r1, r2, r3, v),
    ensures
        (w & 0x70000) >> 16 == var,
        (w & 0xF000) >> 12 == r1 as u32,
        (w & 0x0F00) >> 8 == r2 as u32,
        v == 0 ==> (w & 0x00F0) >> 4 == r3 as u32,
        r3 == 0 ==> (w & 0xFF) as u8 == v,
{
    assert((w & 0x70000) >> 16 == var && (w & 0xF000) >> 12 == r1 as u32 && (w & 0x0F00) >> 8
        == r2 as u32 && (v == 0 ==> (w & 0x00F0) >> 4 == r3 as u32) && (r3 == 0 ==> (w & 0xFF) as u8
        == v)) by (bit_vector)
        requires
            var < 8,
            r1 < 16,
            r2 < 16,
            r3 < 16,
            w & 0x7FFFF == var << 16u32 | (r1 as u32) << 12u32 | (r2 as u32) << 8u32 | (r3 as u32)
                << 4u32 | (v as u32),
    ;
}

proof fn lemma_makedata_small(var: u32, r1: u8, r2: u8, r3: u8, v: u8)
    requires
        var < 8,
        r1 < 16,
        r2 < 16,
        r3 < 16,
    ensures
        spec_makedata(var, r1, r2, r3, v) < 0x80000,
{
    assert(var << 16u32 | (r1 as u32) << 12u32 | (r2 as u32) << 8u32 | (r3 as u32) << 4u32 | (
    v as u32) < 0x80000) by (bit_vector)
        requires
            var < 8,
            r1 < 16,
            r2 < 16,
            r3 < 16,
    ;
}

/// The operand bits of `d` fit in the low 19 bits of a word.
pub proof fn lemma_data_code_small(d: InstructionData)
    ensures
        spec_data_code(d) < 0x80000,
{
    match d {
        InstructionData::RegisterAndU8(r1, v) => {
            lemma_register_code_roundtrip(r1);
            lemma_makedata_small(0, register_code(r1), 0, 0, v);
        },
        InstructionData::RegisterAndU32(r1, _) => {
            lemma_register_code_roundtrip(r1);
            lemma_makedata_small(1, register_code(r1), 0, 0, 0);
        },
        InstructionData::TwoRegistersAndU8(r1, r2, v) => {
            lemma_register_code_roundtrip(r1);
            lemma_register_code_roundtrip(r2);
            lemma_makedata_small(2, register_code(r1), register_code(r2), 0, v);
        },
        InstructionData::TwoRegistersAndU32(r1, r2, _) => {
            lemma_register_code_roundtrip(r1);
            lemma_register_code_roundtrip(r2);
            lemma_makedata_small(3, register_code(r1), register_code(r2), 0, 0);
        },
        InstructionData::OneRegister(r1) => {
            lemma_register_code_roundtrip(r1);
            lemma_makedata_small(4, register_code(r1), 0, 0, 0);
        },
        InstructionData::TwoRegisters(r1, r2) => {
            lemma_register_code_roundtrip(r1);
            lemma_register_code_roundtrip(r2);
            lemma_makedata_small(5, register_code(r1), register_code(r2), 0, 0);
        },
        InstructionData::ThreeRegisters(r1, r2, r3) => {
            lemma_register_code_roundtrip(r1);
            lemma_register_code_roundtrip(r2);
            lemma_register_code_roundtrip(r3);
            lemma_makedata_small(
                6,
                register_code(r1),
                register_code(r2),
                register_code(r3),
                0,
            );
        },
        InstructionData::ImmediateOnly(_) => {
            lemma_makedata_small(7, 0, 0, 0, 0);
        },
    }
}

proof fn lemma_nibble_register(r: Register, n: u32)
    requires
        n == register_code(r) as u32,
    ensures
        nibble_register(n) == r,
{
    lemma_register_code_roundtrip(r);
}

/// Any word whose low 19 bits are the operand bits of `d` decodes to `d`.
pub proof fn lemma_data_roundtrip(d: InstructionData, w: u32)
    requires
        w & 0x7FFFF == spec_data_code(d),
    ensures
        spec_data_from_word(w) == d,
{
    match d {
        InstructionData::RegisterAndU8(r1, v) => {
            lemma_register_code_roundtrip(r1);
            lemma_data_bits(0, register_code(r1), 0, 0, v, w);
            lemma_nibble_register(r1, (w & 0xF000) >> 12);
        },
        InstructionData::RegisterAndU32(r1, _) => {
            lemma_register_code_roundtrip(r1);
            lemma_data_bits(1, register_code(r1), 0, 0, 0, w);
            lemma_nibble_register(r1, (w & 0xF000) >> 12);
        },
        InstructionData::TwoRegistersAndU8(r1, r2, v) => {
            lemma_register_code_roundtrip(r1);
            lemma_register_code_roundtrip(r2);
            lemma_data_bits(2, register_code(r1), register_code(r2), 0, v, w);
            lemma_nibble_register(r1, (w & 0xF000) >> 12);
            lemma_nibble_register(r2, (w & 0x0F00) >> 8);
        },
        InstructionData::TwoRegistersAndU32(r1, r2, _) => {
            lemma_register_code_roundtrip(r1);
            lemma_register_code_roundtrip(r2);
            lemma_data_bits(3, register_code(r1), register_code(r2), 0, 0, w);
            lemma_nibble_register(r1, (w & 0xF000) >> 12);
            lemma_nibble_register(r2, (w & 0x0F00) >> 8);
        },
        InstructionData::OneRegister(r1) => {
            lemma_register_code_roundtrip(r1);
            lemma_data_bits(4, register_code(r1), 0, 0, 0, w);
            lemma_nibble_register(r1, (w & 0xF000) >> 12);
        },
        InstructionData::TwoRegisters(r1, r2) => {
            lemma_register_code_roundtrip(r1);
            lemma_register_code_roundtrip(r2);
            lemma_data_bits(5, register_code(r1), register_code(r2), 0, 0, w);
            lemma_nibble_register(r1, (w & 0xF000) >> 12);
            lemma_nibble_register(r2, (w & 0x0F00) >> 8);
        },
        InstructionData::ThreeRegisters(r1, r2, r3) => {
            lemma_register_code_roundtrip(r1);
            lemma_register_code_roundtrip(r2);
            lemma_register_code_roundtrip(r3);
            lemma_data_bits(
                6,
                register_code(r1),
                register_code(r2),
                register_code(r3),
                0,
                w,
            );
            lemma_nibble_register(r1, (w & 0xF000) >> 12);
            lemma_nibble_register(r2, (w & 0x0F00) >> 8);
            lemma_nibble_register(r3, (w & 0x00F0) >> 4);
        },
        InstructionData::ImmediateOnly(_) => {
            lemma_data_bits(7, 0, 0, 0, 0, w);
        },
    }
}

pub(crate) proof fn lemma_word_bits(op: u32, gt: bool, eq: bool, lt: bool, sign: bool, d: u32, w: u32)
    requires
        op < 32,
        d < 0x80000,
        w == (op << 27u32) | ((if gt { 0x04000000u32 } else { 0u32 }) | (if eq {
            0x02000000u32
        } else {
            0u32
        }) | (if lt { 0x01000000u32 } else { 0u32 })) | (if sign { 0x00080000u32 } else { 0u32 })
            | d,
    ensures
        w >> 27 == op,
        (w & 0x04000000 != 0) == gt,
        (w & 0x02000000 != 0) == eq,
        (w & 0x01000000 != 0) == lt,
        (w & 0x80000 != 0) == sign,
        w & 0x7FFFF == d,
        (w > 0) == (op != 0 || gt || eq || lt || sign || d != 0),
{
    assert(w >> 27 == op && (w & 0x04000000 != 0) == gt && (w & 0x02000000 != 0) == eq && (w
        & 0x01000000 != 0) == lt && (w & 0x80000 != 0) == sign && w & 0x7FFFF == d && (w > 0) == (
    op != 0 || gt || eq || lt || sign || d != 0)) by (bit_vector)
        requires
            op < 32,
            d < 0x80000,
            w == (op << 27u32) | ((if gt { 0x04000000u32 } else { 0u32 }) | (if eq {
                0x02000000u32
            } else {
                0u32
            }) | (if lt { 0x01000000u32 } else { 0u32 })) | (if sign {
                0x00080000u32
            } else {
                0u32
            }) | d,
    ;
}

/// Whether decoding changes the operation that `i` encodes: a `Nop` with any
/// condition flag or the sign set encodes to a nonzero word, which decodes as `Halt`.
pub open spec fn nop_becomes_halt(i: Instruction) -> bool {
    i.var == InstVariant::Nop && (i.cmp.gt || i.cmp.eq || i.cmp.lt || i.sign)
}

/// Decoding the word of an instruction gives the instruction back, but for a
/// `Nop` with condition flags or sign, which comes back as a `Halt`.
pub proof fn lemma_decode_encode(i: Instruction)
    ensures
        !nop_becomes_halt(i) ==> spec_decode(spec_encode(i)) == Ok::<Instruction, CPUError>(i),
        nop_becomes_halt(i) ==> spec_decode(spec_encode(i)) == Ok::<Instruction, CPUError>(
            Instruction { cmp: i.cmp, sign: i.sign, var: InstVariant::Halt },
        ),
{
    let w = spec_encode(i);
    let d = spec_operand_code(i.var);
    match i.var.data() {
        Some(id) => {
            lemma_data_code_small(id);
        },
        None => {},
    }
    assert(d < 0x80000);
    lemma_word_bits(
        crate::encode::spec_opcode(i.var),
        i.cmp.gt,
        i.cmp.eq,
        i.cmp.lt,
        i.sign,
        d,
        w,
    );
    match i.var.data() {
        Some(id) => {
            lemma_data_roundtrip(id, w);
        },
        None => {},
    }
    lemma_flags_roundtrip(i.cmp);
    assert(spec_flags_from_word(w) == i.cmp);
}

/// Writing flags into the state bits and reading them back gives the same
/// flags, and every other state bit keeps its value.
pub proof fn lemma_state_flags_roundtrip(s: u32, f: CmpFlags)
    ensures
        flags_of_bits((s & !7u32) | flag_bits(f)) == f,
        ((s & !7u32) | flag_bits(f)) & !7u32 == s & !7u32,
{
    let gt = f.gt;
    let eq = f.eq;
    let lt = f.lt;
    let t = (s & !7u32) | flag_bits(f);
    assert((t & 1 != 0) == gt && (t & 2 != 0) == eq && (t & 4 != 0) == lt && t & !7u32 == s
        & !7u32) by (bit_vector)
        requires
            t == (s & !7u32) | ((if gt { 1u32 } else { 0u32 }) | (if eq { 2u32 } else { 0u32 }) | (
            if lt {
                4u32
            } else {
                0u32
            })),
    ;
}

/// Writing back the flags read from the state bits leaves them unchanged.
pub proof fn lemma_state_flags_identity(s: u32)
    ensures
        (s & !7u32) | flag_bits(flags_of_bits(s)) == s,
{
    let f = flags_of_bits(s);
    let gt = f.gt;
    let eq = f.eq;
    let lt = f.lt;
    assert((s & !7u32) | ((if gt { 1u32 } else { 0u32 }) | (if eq { 2u32 } else { 0u32 }) | (if lt {
        4u32
    } else {
        0u32
    })) == s) by (bit_vector)
        requires
            gt == (s & 1 != 0),
            eq == (s & 2 != 0),
            lt == (s & 4 != 0),
    ;
}

/// The name of a flag combination reads back as that combination, and a name
/// that reads as a combination is that combination's name.
pub proof fn lemma_flags_name_roundtrip(f: CmpFlags, s: Seq<char>)
    ensures
        flags_from_name(flags_name(f)) == Ok::<CmpFlags, ()>(f),
        flags_from_name(s) matches Ok(g) ==> flags_name(g) == s,
{
    reveal_strlit("ALL");
    reveal_strlit("GE");
    reveal_strlit("NE");
    reveal_strlit("LE");
    reveal_strlit("GT");
    reveal_strlit("EQ");
    reveal_strlit("LT");
    reveal_strlit("NONE");
    let names = seq!["ALL"@, "GE"@, "NE"@, "LE"@, "GT"@, "EQ"@, "LT"@, "NONE"@];
    assert forall|i: int, j: int| 0 <= i < j < 8 implies names[i] != names[j] by {
        if names[i].len() == names[j].len() {
            if names[i][0] == names[j][0] {
                assert(names[i][1] != names[j][1]);
            } else {
                assert(names[i][0] != names[j][0]);
            }
        }
    }
}

} // verus!
