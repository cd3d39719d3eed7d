//! Decoding of 32-bit instruction words.
use crate::isa::{register_from_code, CmpFlags, InstVariant, Instruction, InstructionData, Register};
use crate::vcore::CPUError;
use vstd::prelude::*;

verus! {

/// The condition flags held in bits 24-26 of a word.
pub open spec fn spec_flags_from_word(w: u32) -> CmpFlags {
    CmpFlags { gt: w & 0x04000000 != 0, eq: w & 0x02000000 != 0, lt: w & 0x01000000 != 0 }
}

/// The register with the code `n`; a 4-bit field always names one.
pub open spec fn nibble_register(n: u32) -> Register {
    match register_from_code(n as u8) {
        Ok(r) => r,
        Err(_) => Register::R0,
    }
}

/// The operands held in the low 19 bits of a word.
pub open spec fn spec_data_from_word(w: u32) -> InstructionData {
    let r1 = nibble_register((w & 0xF000) >> 12);
    let r2 = nibble_register((w & 0x0F00) >> 8);
    let r3 = nibble_register((w & 0x00F0) >> 4);
    let v = (w & 0xFF) as u8;
    let variant = (w & 0x70000) >> 16;
    if variant == 0 {
        InstructionData::RegisterAndU8(r1, v)
    } else if variant == 1 {
        InstructionData::RegisterAndU32(r1, ())
    } else if variant == 2 {
        InstructionData::TwoRegistersAndU8(r1, r2, v)
    } else if variant == 3 {
        InstructionData::TwoRegistersAndU32(r1, r2, ())
    } else if variant == 4 {
        InstructionData::OneRegister(r1)
    } else if variant == 5 {
        InstructionData::TwoRegisters(r1, r2)
    } else if variant == 6 {
        InstructionData::ThreeRegisters(r1, r2, r3)
    } else {
        InstructionData::ImmediateOnly(())
    }
}

/// The operation selected by the 5-bit operation code `op` of word `w`,
/// whose operands are `id`; unassigned codes select none.
pub open spec fn spec_variant(op: u32, w: u32, id: InstructionData) -> Option<InstVariant> {
    if op == 0 {
        Some(
            if w > 0 {
                InstVariant::Halt
            } else {
                InstVariant::Nop
            },
        )
    } else if op == 1 {
        Some(InstVariant::Cmp(id))
    } else if op == 2 {
        Some(InstVariant::SetEn)
    } else if op == 3 {
        Some(InstVariant::Rst)
    } else if op == 4 {
        Some(InstVariant::Call(id))
    } else if op == 5 {
        Some(InstVariant::Ret)
    } else if op == 6 {
        Some(InstVariant::Jmp(id))
    } else if op == 7 {
        Some(InstVariant::JmpAbs(id))
    } else if op == 8 {
        Some(InstVariant::Ld(id))
    } else if op == 9 {
        Some(InstVariant::Sto(id))
    } else if op == 11 {
        Some(InstVariant::Push(id))
    } else if op == 12 {
        Some(InstVariant::Pop(id))
    } else if op == 13 {
        Some(InstVariant::Mov(id))
    } else if op == 16 {
        Some(InstVariant::Add(id))
    } else if op == 17 {
        Some(InstVariant::Mul(id))
    } else if op == 18 {
        Some(InstVariant::And(id))
    } else if op == 19 {
        Some(InstVariant::Or(id))
    } else if op == 20 {
        Some(InstVariant::Xor(id))
    } else if op == 21 {
        Some(InstVariant::Not(id))
    } else if op == 24 {
        Some(InstVariant::Lsl(id))
    } else if op == 25 {
        Some(InstVariant::Lsr(id))
    } else if op == 26 {
        Some(InstVariant::Asr(id))
    } else if op == 27 {
        Some(InstVariant::Ror(id))
    } else {
        None
    }
}

/// The instruction that a word encodes, or the error for an unassigned operation code.
pub open spec fn spec_decode(w: u32) -> Result<Instruction, CPUError> {
    match spec_variant(w >> 27, w, spec_data_from_word(w)) {
        Some(var) => Ok(
            Instruction { cmp: spec_flags_from_word(w), sign: w & 0x80000 != 0, var },
        ),
        None => Err(CPUError::InvalidInstruction),
    }
}

/// The register in a 4-bit field of an instruction word.
fn field_register(n: u8) -> (r: Register)
    requires
        n < 16,
    ensures
        register_from_code(n) == Ok::<Register, ()>(r),
{
    Register::try_from(n).unwrap()
}

impl TryFrom<u32> for Instruction {
    type Error = CPUError;

    fn try_from(value: u32) -> (r: Result<Instruction, CPUError>)
        ensures
            r == spec_decode(value),
    {
        let flags = CmpFlags::from(value);
        let sign = (value & 0x00080000) != 0;
        let id = InstructionData::from(value);
        let op = value >> 27;
        let var = if op == 0 {
            if value > 0 {
                InstVariant::Halt
            } else {
                InstVariant::Nop
            }
        } else if op == 1 {
            InstVariant::Cmp(id)
        } else if op == 2 {
            InstVariant::SetEn
        } else if op == 3 {
            InstVariant::Rst
        } else if op == 4 {
            InstVariant::Call(id)
        } else if op == 5 {
            InstVariant::Ret
        } else if op == 6 {
            InstVariant::Jmp(id)
        } else if op == 7 {
            InstVariant::JmpAbs(id)
        } else if op == 8 {
            InstVariant::Ld(id)
        } else if op == 9 {
            InstVariant::Sto(id)
        } else if op == 11 {
            InstVariant::Push(id)
        } else if op == 12 {
            InstVariant::Pop(id)
        } else if op == 13 {
            InstVariant::Mov(id)
        } else if op == 16 {
            InstVariant::Add(id)
        } else if op == 17 {
            InstVariant::Mul(id)
        } else if op == 18 {
            InstVariant::And(id)
        } else if op == 19 {
            InstVariant::Or(id)
        } else if op == 20 {
            InstVariant::Xor(id)
        } else if op == 21 {
            InstVariant::Not(id)
        } else if op == 24 {
            InstVariant::Lsl(id)
        } else if op == 25 {
            InstVariant::Lsr(id)
        } else if op == 26 {
            InstVariant::Asr(id)
        } else if op == 27 {
            InstVariant::Ror(id)
        } else {
            return Err(CPUError::InvalidInstruction);
        };
        Ok(Instruction { cmp: flags, sign, var })
    }
}

impl vstd::std_specs::convert::TryFromSpecImpl<u32> for Instruction {
    open spec fn obeys_try_from_spec() -> bool {
        true
    }

    open spec fn try_from_spec(value: u32) -> Result<Instruction, CPUError> {
        spec_decode(value)
    }
}

impl From<u32> for InstructionData {
    fn from(value: u32) -> (d: InstructionData)
        ensures
            d == spec_data_from_word(value),
    {
        let variant = (value & 0x00070000) >> 16;
        let n1 = (value & 0x0000F000) >> 12;
        let n2 = (value & 0x00000F00) >> 8;
        let n3 = (value & 0x000000F0) >> 4;
        assert(n1 < 16 && n2 < 16 && n3 < 16 && variant < 8) by (bit_vector)
            requires
                variant == (value & 0x00070000) >> 16,
                n1 == (value & 0x0000F000) >> 12,
                n2 == (value & 0x00000F00) >> 8,
                n3 == (value & 0x000000F0) >> 4,
        ;
        let r1 = n1 as u8;
        let r2 = n2 as u8;
        let r3 = n3 as u8;
        let v = (value & 0x000000FF) as u8;
        if variant == 0b000 {
            InstructionData::RegisterAndU8(field_register(r1), v)
        } else if variant == 0b001 {
            InstructionData::RegisterAndU32(field_register(r1), ())
        } else if variant == 0b010 {
            InstructionData::TwoRegistersAndU8(field_register(r1), field_register(r2), v)
        } else if variant == 0b011 {
            InstructionData::TwoRegistersAndU32(field_register(r1), field_register(r2), ())
        } else if variant == 0b100 {
            InstructionData::OneRegister(field_register(r1))
        } else if variant == 0b101 {
            InstructionData::TwoRegisters(field_register(r1), field_register(r2))
        } else if variant == 0b110 {
            InstructionData::ThreeRegisters(
                field_register(r1),
                field_register(r2),
                field_register(r3),
            )
        } else {
            InstructionData::ImmediateOnly(())
        }
    }
}

impl vstd::std_specs::convert::FromSpecImpl<u32> for InstructionData {
    open spec fn obeys_from_spec() -> bool {
        true
    }

    open spec fn from_spec(value: u32) -> InstructionData {
        spec_data_from_word(value)
    }
}

impl From<u32> for CmpFlags {
    fn from(value: u32) -> (f: CmpFlags)
        ensures
            f == spec_flags_from_word(value),
    {
        let gt = (value & 0x04000000) != 0;
        let eq = (value & 0x02000000) != 0;
        let lt = (value & 0x01000000) != 0;
        CmpFlags { gt, eq, lt }
    }
}

impl vstd::std_specs::convert::FromSpecImpl<u32> for CmpFlags {
    open spec fn obeys_from_spec() -> bool {
        true
    }

    open spec fn from_spec(value: u32) -> CmpFlags {
        spec_flags_from_word(value)
    }
}

} // verus!
