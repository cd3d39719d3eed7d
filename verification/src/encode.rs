//! Encoding of instructions into 32-bit words.
use crate::isa::{register_code, CmpFlags, InstVariant, Instruction, InstructionData};
use vstd::prelude::*;

verus! {

/// Bits 24-26 of a word that holds the condition flags `f`.
pub open spec fn spec_flags_code(f: CmpFlags) -> u32 {
    (if f.gt { 0x04000000u32 } else { 0u32 }) | (if f.eq { 0x02000000u32 } else { 0u32 }) | (
    if f.lt {
        0x01000000u32
    } else {
        0u32
    })
}

/// A word from an operation code, flag bits, sign and operand bits.
pub open spec fn spec_makeinstr(opcode: u32, flagcode: u32, sign: bool, idcode: u32) -> u32 {
    (opcode << 27u32) | flagcode | (if sign { 0x00080000u32 } else { 0u32 }) | idcode
}

/// Operand bits from an operand kind, three register codes and a byte.
pub open spec fn spec_makedata(variant: u32, reg1: u8, reg2: u8, reg3: u8, v: u8) -> u32 {
    variant << 16u32 | (reg1 as u32) << 12u32 | (reg2 as u32) << 8u32 | (reg3 as u32) << 4u32
        | (v as u32)
}

/// The operand bits of `d`.
pub open spec fn spec_data_code(d: InstructionData) -> u32 {
    match d {
        InstructionData::RegisterAndU8(r1, v) => spec_makedata(0, register_code(r1), 0, 0, v),
        InstructionData::RegisterAndU32(r1, _) => spec_makedata(1, register_code(r1), 0, 0, 0),
        InstructionData::TwoRegistersAndU8(r1, r2, v) => spec_makedata(
            2,
            register_code(r1),
            register_code(r2),
            0,
            v,
        ),
        InstructionData::TwoRegistersAndU32(r1, r2, _) => spec_makedata(
            3,
            register_code(r1),
            register_code(r2),
            0,
            0,
        ),
        InstructionData::OneRegister(r1) => spec_makedata(4, register_code(r1), 0, 0, 0),
        InstructionData::TwoRegisters(r1, r2) => spec_makedata(
            5,
            register_code(r1),
            register_code(r2),
            0,
            0,
        ),
        InstructionData::ThreeRegisters(r1, r2, r3) => spec_makedata(
            6,
            register_code(r1),
            register_code(r2),
            register_code(r3),
            0,
        ),
        InstructionData::ImmediateOnly(_) => spec_makedata(7, 0, 0, 0, 0),
    }
}

/// The 5-bit operation code of an operation.
pub open spec fn spec_opcode(v: InstVariant) -> u32 {
    match v {
        InstVariant::Nop => 0,
        InstVariant::Halt => 0,
        InstVariant::Cmp(_) => 1,
        InstVariant::SetEn => 2,
        InstVariant::Rst => 3,
        InstVariant::Call(_) => 4,
        InstVariant::Ret => 5,
        InstVariant::Jmp(_) => 6,
        InstVariant::JmpAbs(_) => 7,
        InstVariant::Ld(_) => 8,
        InstVariant::Sto(_) => 9,
        InstVariant::Push(_) => 11,
        InstVariant::Pop(_) => 12,
        InstVariant::Mov(_) => 13,
        InstVariant::Add(_) => 16,
        InstVariant::Mul(_) => 17,
        InstVariant::And(_) => 18,
        InstVariant::Or(_) => 19,
        InstVariant::Xor(_) => 20,
        InstVariant::Not(_) => 21,
        InstVariant::Lsl(_) => 24,
        InstVariant::Lsr(_) => 25,
        InstVariant::Asr(_) => 26,
        InstVariant::Ror(_) => 27,
    }
}

/// The low 19 bits of the word of an operation: its operands, 1 for `Halt`, 0 otherwise.
pub open spec fn spec_operand_code(v: InstVariant) -> u32 {
    match v.data() {
        Some(id) => spec_data_code(id),
        None => if v == InstVariant::Halt {
            1
        } else {
            0
        },
    }
}

/// The word that encodes an instruction.
pub open spec fn spec_encode(i: Instruction) -> u32 {
    spec_makeinstr(spec_opcode(i.var), spec_flags_code(i.cmp), i.sign, spec_operand_code(i.var))
}

impl From<CmpFlags> for u32 {
    fn from(f: CmpFlags) -> (r: u32)
        ensures
            r == spec_flags_code(f),
    {
        (if f.gt {
            0x04000000
        } else {
            0
        }) | (if f.eq {
            0x02000000
        } else {
            0
        }) | (if f.lt {
            0x01000000
        } else {
            0
        })
    }
}

impl vstd::std_specs::convert::FromSpecImpl<CmpFlags> for u32 {
    open spec fn obeys_from_spec() -> bool {
        true
    }

    open spec fn from_spec(f: CmpFlags) -> u32 {
        spec_flags_code(f)
    }
}

fn makeinstr(opcode: u32, flagcode: u32, sign: bool, idcode: u32) -> (r: u32)
    requires
        opcode < 32,
    ensures
        r == spec_makeinstr(opcode, flagcode, sign, idcode),
{
    (opcode << 27) | flagcode | (if sign {
        0x00080000
    } else {
        0
    }) | idcode
}

impl From<Instruction> for u32 {
    fn from(i: Instruction) -> (r: u32)
        ensures
            r == spec_encode(i),
    {
        let f = u32::from(i.cmp);
        let s = i.sign;
        match i.var {
            InstVariant::Nop => makeinstr(0b00000, f, s, 0),
            InstVariant::Halt => makeinstr(0b00000, f, s, 1),
            InstVariant::Cmp(id) => makeinstr(0b00001, f, s, u32::from(id)),
            InstVariant::SetEn => makeinstr(0b00010, f, s, 0),
            InstVariant::Rst => makeinstr(0b00011, f, s, 0),
            InstVariant::Call(id) => makeinstr(0b00100, f, s, u32::from(id)),
            InstVariant::Ret => makeinstr(0b00101, f, s, 0),
            InstVariant::Jmp(id) => makeinstr(0b00110, f, s, u32::from(id)),
            InstVariant::JmpAbs(id) => makeinstr(0b00111, f, s, u32::from(id)),
            InstVariant::Ld(id) => makeinstr(0b01000, f, s, u32::from(id)),
            InstVariant::Sto(id) => makeinstr(0b01001, f, s, u32::from(id)),
            InstVariant::Push(id) => makeinstr(0b01011, f, s, u32::from(id)),
            InstVariant::Pop(id) => makeinstr(0b01100, f, s, u32::from(id)),
            InstVariant::Mov(id) => makeinstr(0b01101, f, s, u32::from(id)),
            InstVariant::Add(id) => makeinstr(0b10000, f, s, u32::from(id)),
            InstVariant::Mul(id) => makeinstr(0b10001, f, s, u32::from(id)),
            InstVariant::And(id) => makeinstr(0b10010, f, s, u32::from(id)),
            InstVariant::Or(id) => makeinstr(0b10011, f, s, u32::from(id)),
            InstVariant::Xor(id) => makeinstr(0b10100, f, s, u32::from(id)),
            InstVariant::Not(id) => makeinstr(0b10101, f, s, u32::from(id)),
            InstVariant::Lsl(id) => makeinstr(0b11000, f, s, u32::from(id)),
            InstVariant::Lsr(id) => makeinstr(0b11001, f, s, u32::from(id)),
            InstVariant::Asr(id) => makeinstr(0b11010, f, s, u32::from(id)),
            InstVariant::Ror(id) => makeinstr(0b11011, f, s, u32::from(id)),
        }
    }
}

impl vstd::std_specs::convert::FromSpecImpl<Instruction> for u32 {
    open spec fn obeys_from_spec() -> bool {
        true
    }

    open spec fn from_spec(i: Instruction) -> u32 {
        spec_encode(i)
    }
}

fn makedata(variant: u32, reg1: u8, reg2: u8, reg3: u8, v: u8) -> (r: u32)
    requires
        variant < 8,
    ensures
        r == spec_makedata(variant, reg1, reg2, reg3, v),
{
    variant << 16 | u32::from(reg1) << 12 | u32::from(reg2) << 8 | u32::from(reg3) << 4 | u32::from(
        v,
    )
}

impl From<InstructionData> for u32 {
    fn from(d: InstructionData) -> (r: u32)
        ensures
            r == spec_data_code(d),
    {
        match d {
            InstructionData::RegisterAndU8(r1, v) => makedata(0b000, r1.into(), 0, 0, v),
            InstructionData::RegisterAndU32(r1, _v) => makedata(0b001, r1.into(), 0, 0, 0),
            InstructionData::TwoRegistersAndU8(r1, r2, v) => makedata(
                0b010,
                r1.into(),
                r2.into(),
                0,
                v,
            ),
            InstructionData::TwoRegistersAndU32(r1, r2, _v) => makedata(
                0b011,
                r1.into(),
                r2.into(),
                0,
                0,
            ),
            InstructionData::OneRegister(r1) => makedata(0b100, r1.into(), 0, 0, 0),
            InstructionData::TwoRegisters(r1, r2) => makedata(0b101, r1.into(), r2.into(), 0, 0),
            InstructionData::ThreeRegisters(r1, r2, r3) => makedata(
                0b110,
                r1.into(),
                r2.into(),
                r3.into(),
                0,
            ),
            InstructionData::ImmediateOnly(_v) => makedata(0b111, 0, 0, 0, 0),
        }
    }
}

impl vstd::std_specs::convert::FromSpecImpl<InstructionData> for u32 {
    open spec fn obeys_from_spec() -> bool {
        true
    }

    open spec fn from_spec(d: InstructionData) -> u32 {
        spec_data_code(d)
    }
}

} // verus!
