//! The instruction word's layout, stated field by field: the operation code
//! of each operation in bits 27-31, the condition flags in bits 24-26, the
//! sign in bit 19, the operand kind in bits 16-18, register codes in the
//! nibbles at bits 12, 8 and 4, and a byte in bits 0-7.
use crate::decode::spec_decode;
use crate::encode::{spec_data_code, spec_encode, spec_operand_code};
use crate::isa::{flags_name, register_code, CmpFlags, InstVariant, Instruction, InstructionData, Register};
use crate::memory::{addr_after, stored_byte, word_le};
use crate::vcore::addr_before;
use crate::roundtrip::{lemma_data_code_small, lemma_word_bits};
use vstd::prelude::*;

verus! {

/// The registers' codes follow their order: R0 to R9 are 0 to 9, then CS,
/// CA, ST, IA, RA and SA are 10 to 15.
pub proof fn lemma_register_codes()
    ensures
        register_code(Register::R0) == 0 && register_code(Register::R1) == 1 && register_code(
            Register::R2,
        ) == 2 && register_code(Register::R3) == 3 && register_code(Register::R4) == 4
            && register_code(Register::R5) == 5 && register_code(Register::R6) == 6
            && register_code(Register::R7) == 7 && register_code(Register::R8) == 8
            && register_code(Register::R9) == 9,
        register_code(Register::CS) == 10 && register_code(Register::CA) == 11 && register_code(
            Register::ST,
        ) == 12 && register_code(Register::IA) == 13 && register_code(Register::RA) == 14
            && register_code(Register::SA) == 15,
{
}

/// The operation code that encoding writes in bits 27-31 of each operation's word.
pub proof fn lemma_encoded_operation_codes(i: Instruction)
    ensures
        (i.var is Nop || i.var is Halt) ==> spec_encode(i) >> 27u32 == 0,
        i.var is Cmp ==> spec_encode(i) >> 27u32 == 1,
        i.var is SetEn ==> spec_encode(i) >> 27u32 == 2,
        i.var is Rst ==> spec_encode(i) >> 27u32 == 3,
        i.var is Call ==> spec_encode(i) >> 27u32 == 4,
        i.var is Ret ==> spec_encode(i) >> 27u32 == 5,
        i.var is Jmp ==> spec_encode(i) >> 27u32 == 6,
        i.var is JmpAbs ==> spec_encode(i) >> 27u32 == 7,
        i.var is Ld ==> spec_encode(i) >> 27u32 == 8,
        i.var is Sto ==> spec_encode(i) >> 27u32 == 9,
        i.var is Push ==> spec_encode(i) >> 27u32 == 11,
        i.var is Pop ==> spec_encode(i) >> 27u32 == 12,
        i.var is Mov ==> spec_encode(i) >> 27u32 == 13,
        i.var is Add ==> spec_encode(i) >> 27u32 == 16,
        i.var is Mul ==> spec_encode(i) >> 27u32 == 17,
        i.var is And ==> spec_encode(i) >> 27u32 == 18,
        i.var is Or ==> spec_encode(i) >> 27u32 == 19,
        i.var is Xor ==> spec_encode(i) >> 27u32 == 20,
        i.var is Not ==> spec_encode(i) >> 27u32 == 21,
        i.var is Lsl ==> spec_encode(i) >> 27u32 == 24,
        i.var is Lsr ==> spec_encode(i) >> 27u32 == 25,
        i.var is Asr ==> spec_encode(i) >> 27u32 == 26,
        i.var is Ror ==> spec_encode(i) >> 27u32 == 27,
        (spec_encode(i) & 0x04000000 != 0) == i.cmp.gt,
        (spec_encode(i) & 0x02000000 != 0) == i.cmp.eq,
        (spec_encode(i) & 0x01000000 != 0) == i.cmp.lt,
        (spec_encode(i) & 0x80000 != 0) == i.sign,
        i.var.data() matches Some(d) ==> spec_encode(i) & 0x7FFFF == spec_data_code(d),
        i.var is Halt ==> spec_encode(i) & 0x7FFFF == 1,
        (i.var.data() is None && !(i.var is Halt)) ==> spec_encode(i) & 0x7FFFF == 0,
{
    let d = spec_operand_code(i.var);
    match i.var.data() {
        Some(id) => {
            lemma_data_code_small(id);
        },
        None => {},
    }
    lemma_word_bits(
        crate::encode::spec_opcode(i.var),
        i.cmp.gt,
        i.cmp.eq,
        i.cmp.lt,
        i.sign,
        d,
        spec_encode(i),
    );
}

/// The operation that decoding reads from each operation code in bits
/// 27-31; codes 10, 14, 15, 22, 23 and 28 to 31 are invalid.
pub proof fn lemma_decoded_operation_codes(w: u32)
    ensures
        w >> 27u32 == 0 && w == 0 ==> (spec_decode(w) is Ok && spec_decode(w).unwrap().var is Nop),
        w >> 27u32 == 0 && w != 0 ==> (spec_decode(w) is Ok && spec_decode(w).unwrap().var is Halt),
        w >> 27u32 == 1 ==> (spec_decode(w) is Ok && spec_decode(w).unwrap().var is Cmp),
        w >> 27u32 == 2 ==> (spec_decode(w) is Ok && spec_decode(w).unwrap().var is SetEn),
        w >> 27u32 == 3 ==> (spec_decode(w) is Ok && spec_decode(w).unwrap().var is Rst),
        w >> 27u32 == 4 ==> (spec_decode(w) is Ok && spec_decode(w).unwrap().var is Call),
        w >> 27u32 == 5 ==> (spec_decode(w) is Ok && spec_decode(w).unwrap().var is Ret),
        w >> 27u32 == 6 ==> (spec_decode(w) is Ok && spec_decode(w).unwrap().var is Jmp),
        w >> 27u32 == 7 ==> (spec_decode(w) is Ok && spec_decode(w).unwrap().var is JmpAbs),
        w >> 27u32 == 8 ==> (spec_decode(w) is Ok && spec_decode(w).unwrap().var is Ld),
        w >> 27u32 == 9 ==> (spec_decode(w) is Ok && spec_decode(w).unwrap().var is Sto),
        w >> 27u32 == 11 ==> (spec_decode(w) is Ok && spec_decode(w).unwrap().var is Push),
        w >> 27u32 == 12 ==> (spec_decode(w) is Ok && spec_decode(w).unwrap().var is Pop),
        w >> 27u32 == 13 ==> (spec_decode(w) is Ok && spec_decode(w).unwrap().var is Mov),
        w >> 27u32 == 16 ==> (spec_decode(w) is Ok && spec_decode(w).unwrap().var is Add),
        w >> 27u32 == 17 ==> (spec_decode(w) is Ok && spec_decode(w).unwrap().var is Mul),
        w >> 27u32 == 18 ==> (spec_decode(w) is Ok && spec_decode(w).unwrap().var is And),
        w >> 27u32 == 19 ==> (spec_decode(w) is Ok && spec_decode(w).unwrap().var is Or),
        w >> 27u32 == 20 ==> (spec_decode(w) is Ok && spec_decode(w).unwrap().var is Xor),
        w >> 27u32 == 21 ==> (spec_decode(w) is Ok && spec_decode(w).unwrap().var is Not),
        w >> 27u32 == 24 ==> (spec_decode(w) is Ok && spec_decode(w).unwrap().var is Lsl),
        w >> 27u32 == 25 ==> (spec_decode(w) is Ok && spec_decode(w).unwrap().var is Lsr),
        w >> 27u32 == 26 ==> (spec_decode(w) is Ok && spec_decode(w).unwrap().var is Asr),
        w >> 27u32 == 27 ==> (spec_decode(w) is Ok && spec_decode(w).unwrap().var is Ror),
        (w >> 27u32 == 10 || w >> 27u32 == 14 || w >> 27u32 == 15 || w >> 27u32 == 22 || w >> 27u32
            == 23 || w >> 27u32 >= 28) ==> spec_decode(w) is Err,
        spec_decode(w) matches Ok(i) ==> i.sign == (w & 0x80000 != 0) && i.cmp.gt == (w
            & 0x04000000 != 0) && i.cmp.eq == (w & 0x02000000 != 0) && i.cmp.lt == (w & 0x01000000
            != 0),
{
}

/// The register whose code is the 4-bit field `n`.
pub open spec fn register_numbered(n: u32) -> Register {
    if n == 0 {
        Register::R0
    } else if n == 1 {
        Register::R1
    } else if n == 2 {
        Register::R2
    } else if n == 3 {
        Register::R3
    } else if n == 4 {
        Register::R4
    } else if n == 5 {
        Register::R5
    } else if n == 6 {
        Register::R6
    } else if n == 7 {
        Register::R7
    } else if n == 8 {
        Register::R8
    } else if n == 9 {
        Register::R9
    } else if n == 10 {
        Register::CS
    } else if n == 11 {
        Register::CA
    } else if n == 12 {
        Register::ST
    } else if n == 13 {
        Register::IA
    } else if n == 14 {
        Register::RA
    } else {
        Register::SA
    }
}

/// The operands that decoding reads from bits 0-18 of a word: the kind in
/// bits 16-18, the registers in the nibbles at bits 12, 8 and 4, the byte
/// in bits 0-7.
pub proof fn lemma_decoded_operands(w: u32)
    ensures
        ({
            let k = (w >> 16u32) & 7;
            let a = register_numbered((w >> 12u32) & 15);
            let b = register_numbered((w >> 8u32) & 15);
            let c = register_numbered((w >> 4u32) & 15);
            let v = (w & 0xFF) as u8;
            let d = crate::decode::spec_data_from_word(w);
            &&& k == 0 ==> d == InstructionData::RegisterAndU8(a, v)
            &&& k == 1 ==> d == InstructionData::RegisterAndU32(a, ())
            &&& k == 2 ==> d == InstructionData::TwoRegistersAndU8(a, b, v)
            &&& k == 3 ==> d == InstructionData::TwoRegistersAndU32(a, b, ())
            &&& k == 4 ==> d == InstructionData::OneRegister(a)
            &&& k == 5 ==> d == InstructionData::TwoRegisters(a, b)
            &&& k == 6 ==> d == InstructionData::ThreeRegisters(a, b, c)
            &&& k == 7 ==> d == InstructionData::ImmediateOnly(())
        }),
{
    assert((w & 0x70000) >> 16 == (w >> 16u32) & 7) by (bit_vector);
    assert((w & 0xF000) >> 12 == (w >> 12u32) & 15) by (bit_vector);
    assert((w & 0x0F00) >> 8 == (w >> 8u32) & 15) by (bit_vector);
    assert((w & 0x00F0) >> 4 == (w >> 4u32) & 15) by (bit_vector);
    assert((w >> 12u32) & 15 < 16 && (w >> 8u32) & 15 < 16 && (w >> 4u32) & 15 < 16) by (bit_vector);
}

/// The operand bits that encoding writes for each operand kind.
pub proof fn lemma_encoded_operands(d: InstructionData)
    ensures
        spec_data_code(d) == match d {
            InstructionData::RegisterAndU8(a, v) => (register_code(a) as u32) << 12u32 | (v as u32),
            InstructionData::RegisterAndU32(a, _) => 0x10000u32 | (register_code(a) as u32) << 12u32,
            InstructionData::TwoRegistersAndU8(a, b, v) => 0x20000u32 | (register_code(a) as u32)
                << 12u32 | (register_code(b) as u32) << 8u32 | (v as u32),
            InstructionData::TwoRegistersAndU32(a, b, _) => 0x30000u32 | (register_code(a) as u32)
                << 12u32 | (register_code(b) as u32) << 8u32,
            InstructionData::OneRegister(a) => 0x40000u32 | (register_code(a) as u32) << 12u32,
            InstructionData::TwoRegisters(a, b) => 0x50000u32 | (register_code(a) as u32) << 12u32 | (
            register_code(b) as u32) << 8u32,
            InstructionData::ThreeRegisters(a, b, c) => 0x60000u32 | (register_code(a) as u32)
                << 12u32 | (register_code(b) as u32) << 8u32 | (register_code(c) as u32) << 4u32,
            InstructionData::ImmediateOnly(_) => 0x70000u32,
        },
{
    match d {
        InstructionData::RegisterAndU8(a, v) => {
            let x = register_code(a) as u32;
            let y = v as u32;
            assert(0u32 << 16u32 | x << 12u32 | 0u32 << 8u32 | 0u32 << 4u32 | y == x << 12u32 | y)
                by (bit_vector);
        },
        InstructionData::RegisterAndU32(a, _) => {
            let x = register_code(a) as u32;
            assert(1u32 << 16u32 | x << 12u32 | 0u32 << 8u32 | 0u32 << 4u32 | 0u32 == 0x10000u32 | x
                << 12u32) by (bit_vector);
        },
        InstructionData::TwoRegistersAndU8(a, b, v) => {
            let x = register_code(a) as u32;
            let y = register_code(b) as u32;
            let z = v as u32;
            assert(2u32 << 16u32 | x << 12u32 | y << 8u32 | 0u32 << 4u32 | z == 0x20000u32 | x << 12u32
                | y << 8u32 | z) by (bit_vector);
        },
        InstructionData::TwoRegistersAndU32(a, b, _) => {
            let x = register_code(a) as u32;
            let y = register_code(b) as u32;
            assert(3u32 << 16u32 | x << 12u32 | y << 8u32 | 0u32 << 4u32 | 0u32 == 0x30000u32 | x
                << 12u32 | y << 8u32) by (bit_vector);
        },
        InstructionData::OneRegister(a) => {
            let x = register_code(a) as u32;
            assert(4u32 << 16u32 | x << 12u32 | 0u32 << 8u32 | 0u32 << 4u32 | 0u32 == 0x40000u32 | x
                << 12u32) by (bit_vector);
        },
        InstructionData::TwoRegisters(a, b) => {
            let x = register_code(a) as u32;
            let y = register_code(b) as u32;
            assert(5u32 << 16u32 | x << 12u32 | y << 8u32 | 0u32 << 4u32 | 0u32 == 0x50000u32 | x
                << 12u32 | y << 8u32) by (bit_vector);
        },
        InstructionData::ThreeRegisters(a, b, c) => {
            let x = register_code(a) as u32;
            let y = register_code(b) as u32;
            let z = register_code(c) as u32;
            assert(6u32 << 16u32 | x << 12u32 | y << 8u32 | z << 4u32 | 0u32 == 0x60000u32 | x << 12u32
                | y << 8u32 | z << 4u32) by (bit_vector);
        },
        InstructionData::ImmediateOnly(_) => {
            assert(7u32 << 16u32 | 0u32 << 12u32 | 0u32 << 8u32 | 0u32 << 4u32 | 0u32 == 0x70000u32)
                by (bit_vector);
        },
    }
}

/// Words are little-endian: the first byte is the least significant.
pub proof fn lemma_little_endian(b0: u8, b1: u8, b2: u8, b3: u8, v: u32)
    ensures
        word_le(b0, b1, b2, b3) == b0 + 0x100 * b1 + 0x1_0000 * b2 + 0x100_0000 * b3,
        stored_byte(v, 0) == v % 0x100,
        stored_byte(v, 1) == (v / 0x100) % 0x100,
        stored_byte(v, 2) == (v / 0x1_0000) % 0x100,
        stored_byte(v, 3) == v / 0x100_0000,
{
    let w = word_le(b0, b1, b2, b3);
    assert(w == b0 as u32 + 0x100 * (b1 as u32) + 0x1_0000 * (b2 as u32) + 0x100_0000 * (b3 as u32))
        by (bit_vector)
        requires
            w == (b0 as u32) | ((b1 as u32) << 8u32) | ((b2 as u32) << 16u32) | ((b3 as u32) << 24u32),
    ;
    assert((v & 0xFF) as u8 == v % 0x100 && ((v >> 8u32) & 0xFF) as u8 == (v / 0x100) % 0x100 && ((v
        >> 16u32) & 0xFF) as u8 == (v / 0x1_0000) % 0x100 && ((v >> 24u32) & 0xFF) as u8 == v
        / 0x100_0000) by (bit_vector);
}

/// Addresses wrap around the 32-bit address space.
pub proof fn lemma_address_wrap(a: u32, k: u32)
    ensures
        addr_after(a, k) == (a + k) % 0x1_0000_0000,
        addr_before(a, k) == (a - k + 0x1_0000_0000) % 0x1_0000_0000,
{
}

/// The names of the condition flag combinations, as the assembler writes
/// them: all three, greater or equal, not equal, less or equal, greater,
/// equal, less, none.
pub proof fn lemma_flag_names(f: CmpFlags)
    ensures
        (f.gt && f.eq && f.lt) ==> flags_name(f) == "ALL"@,
        (f.gt && f.eq && !f.lt) ==> flags_name(f) == "GE"@,
        (f.gt && !f.eq && f.lt) ==> flags_name(f) == "NE"@,
        (!f.gt && f.eq && f.lt) ==> flags_name(f) == "LE"@,
        (f.gt && !f.eq && !f.lt) ==> flags_name(f) == "GT"@,
        (!f.gt && f.eq && !f.lt) ==> flags_name(f) == "EQ"@,
        (!f.gt && !f.eq && f.lt) ==> flags_name(f) == "LT"@,
        (!f.gt && !f.eq && !f.lt) ==> flags_name(f) == "NONE"@,
{
}

/// The sign field is `-` for a set sign bit and `+` for a clear one.
pub proof fn lemma_sign_fields()
    ensures
        crate::assembly::sign_of_text("-"@) == Some(true),
        crate::assembly::sign_of_text("+"@) == Some(false),
        crate::assembly::spec_sign_text(true) == "-"@,
        crate::assembly::spec_sign_text(false) == "+"@,
{
    reveal_strlit("+");
    reveal_strlit("-");
    assert("-"@ != "+"@) by {
        assert("-"@[0] != "+"@[0]);
    }
}

} // verus!
