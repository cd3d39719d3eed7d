//! The instruction set: registers, flags, instructions and the register file.
//!
//! Instructions are 32 bits wide; every instruction may be made conditional
//! on the comparison flags held in the state register; I/O is memory mapped;
//! there are 16 registers and a 32-bit address space.
use core::cmp::Ordering;
use vstd::prelude::*;
use vstd::std_specs::cmp::PartialEqSpec;
use vstd::std_specs::cmp::PartialOrdSpec;

verus! {

/// The sixteen registers of the machine, in encoding order.
#[derive(Clone, Copy, Debug, PartialEq, Eq, Structural)]
pub enum Register {
    R0,
    R1,
    R2,
    R3,
    R4,
    R5,
    R6,
    R7,
    R8,
    R9,
    /// call stack pointer
    CS,
    /// carry
    CA,
    /// state: comparison and control flags
    ST,
    /// instruction address
    IA,
    /// return address
    RA,
    /// stack address
    SA,
}

/// The 4-bit code of a register.
pub open spec fn register_code(r: Register) -> u8 {
    match r {
        Register::R0 => 0,
        Register::R1 => 1,
        Register::R2 => 2,
        Register::R3 => 3,
        Register::R4 => 4,
        Register::R5 => 5,
        Register::R6 => 6,
        Register::R7 => 7,
        Register::R8 => 8,
        Register::R9 => 9,
        Register::CS => 10,
        Register::CA => 11,
        Register::ST => 12,
        Register::IA => 13,
        Register::RA => 14,
        Register::SA => 15,
    }
}

/// The register with a given code; codes from 16 up name no register.
pub open spec fn register_from_code(v: u8) -> Result<Register, ()> {
    match v {
        0 => Ok(Register::R0),
        1 => Ok(Register::R1),
        2 => Ok(Register::R2),
        3 => Ok(Register::R3),
        4 => Ok(Register::R4),
        5 => Ok(Register::R5),
        6 => Ok(Register::R6),
        7 => Ok(Register::R7),
        8 => Ok(Register::R8),
        9 => Ok(Register::R9),
        10 => Ok(Register::CS),
        11 => Ok(Register::CA),
        12 => Ok(Register::ST),
        13 => Ok(Register::IA),
        14 => Ok(Register::RA),
        15 => Ok(Register::SA),
        _ => Err(()),
    }
}

impl TryFrom<u8> for Register {
    type Error = ();

    fn try_from(value: u8) -> (r: Result<Register, ()>)
        ensures
            r == register_from_code(value),
    {
        match value {
            0 => Ok(Register::R0),
            1 => Ok(Register::R1),
            2 => Ok(Register::R2),
            3 => Ok(Register::R3),
            4 => Ok(Register::R4),
            5 => Ok(Register::R5),
            6 => Ok(Register::R6),
            7 => Ok(Register::R7),
            8 => Ok(Register::R8),
            9 => Ok(Register::R9),
            10 => Ok(Register::CS),
            11 => Ok(Register::CA),
            12 => Ok(Register::ST),
            13 => Ok(Register::IA),
            14 => Ok(Register::RA),
            15 => Ok(Register::SA),
            _ => Err(()),
        }
    }
}

impl vstd::std_specs::convert::TryFromSpecImpl<u8> for Register {
    open spec fn obeys_try_from_spec() -> bool {
        true
    }

    open spec fn try_from_spec(value: u8) -> Result<Register, ()> {
        register_from_code(value)
    }
}

impl From<Register> for u8 {
    fn from(r: Register) -> (v: u8)
        ensures
            v == register_code(r),
    {
        match r {
            Register::R0 => 0,
            Register::R1 => 1,
            Register::R2 => 2,
            Register::R3 => 3,
            Register::R4 => 4,
            Register::R5 => 5,
            Register::R6 => 6,
            Register::R7 => 7,
            Register::R8 => 8,
            Register::R9 => 9,
            Register::CS => 10,
            Register::CA => 11,
            Register::ST => 12,
            Register::IA => 13,
            Register::RA => 14,
            Register::SA => 15,
        }
    }
}

impl vstd::std_specs::convert::FromSpecImpl<Register> for u8 {
    open spec fn obeys_from_spec() -> bool {
        true
    }

    open spec fn from_spec(r: Register) -> u8 {
        register_code(r)
    }
}

/// The state register: a set of flag bits.
#[derive(Clone, Copy, Debug, PartialEq, Eq, Structural, PartialOrd, Ord, Hash)]
pub struct State(pub u32);

/// The comparison flags: which of "greater", "equal", "less" hold.
#[derive(Clone, Copy, Debug, PartialEq, Eq, Structural)]
pub struct CmpFlags {
    pub gt: bool,
    pub eq: bool,
    pub lt: bool,
}

/// The low three bits of the state register that hold the given flags.
pub open spec fn flag_bits(f: CmpFlags) -> u32 {
    (if f.gt { 1u32 } else { 0u32 }) | (if f.eq { 2u32 } else { 0u32 }) | (if f.lt { 4u32 } else {
        0u32
    })
}

/// The flags that the state bits `s` hold.
pub open spec fn flags_of_bits(s: u32) -> CmpFlags {
    CmpFlags { gt: s & 1 != 0, eq: s & 2 != 0, lt: s & 4 != 0 }
}

/// The flags that compare `a` with `b` in the order that `T` defines.
pub open spec fn compare_flags<T: PartialOrd>(a: T, b: T) -> CmpFlags {
    CmpFlags {
        gt: a.partial_cmp_spec(&b) == Some(Ordering::Greater),
        eq: a.eq_spec(&b),
        lt: a.partial_cmp_spec(&b) == Some(Ordering::Less),
    }
}

impl CmpFlags {
    /// The flags for the comparison of `a` with `b`.
    pub fn new<T: Ord>(a: T, b: T) -> (r: Self)
        ensures
            T::obeys_partial_cmp_spec() && T::obeys_eq_spec() ==> r == compare_flags(a, b),
    {
        CmpFlags { gt: a > b, eq: a == b, lt: a < b }
    }
}

impl Default for CmpFlags {
    fn default() -> (r: Self)
        ensures
            r == (CmpFlags { gt: false, eq: false, lt: false }),
    {
        CmpFlags { gt: false, eq: false, lt: false }
    }
}

impl From<CmpFlags> for State {
    fn from(f: CmpFlags) -> (s: State)
        ensures
            s == State(flag_bits(f)),
    {
        let g: u32 = if f.gt { 1 } else { 0 };
        let e: u32 = if f.eq { 2 } else { 0 };
        let l: u32 = if f.lt { 4 } else { 0 };
        State(g | e | l)
    }
}

impl vstd::std_specs::convert::FromSpecImpl<CmpFlags> for State {
    open spec fn obeys_from_spec() -> bool {
        true
    }

    open spec fn from_spec(f: CmpFlags) -> State {
        State(flag_bits(f))
    }
}

impl State {
    /// comparison result: greater
    pub const CMP_GT: u32 = 1;

    /// comparison result: equal
    pub const CMP_EQ: u32 = 2;

    /// comparison result: less
    pub const CMP_LT: u32 = 4;

    /// conditional execution enabled
    pub const CMP_EN: u32 = 8;

    /// return state
    pub const RET_ST: u32 = 16;

    /// Whether every bit of `other` is set here.
    pub fn contains(&self, other: State) -> (r: bool)
        ensures
            r == (self.0 & other.0 == other.0),
    {
        self.0 & other.0 == other.0
    }

    /// Sets the bits of `other` when `value` holds, clears them otherwise.
    pub fn set(&mut self, other: State, value: bool)
        ensures
            final(self).0 == (if value { old(self).0 | other.0 } else { old(self).0 & !other.0 }),
    {
        if value {
            self.0 = self.0 | other.0;
        } else {
            self.0 = self.0 & !other.0;
        }
    }

    /// Replaces the three comparison bits by `new`, keeping all other bits.
    pub fn set_cmp(&mut self, new: CmpFlags)
        ensures
            final(self).0 == (old(self).0 & !7u32) | flag_bits(new),
    {
        self.set(State(State::CMP_GT), new.gt);
        self.set(State(State::CMP_EQ), new.eq);
        self.set(State(State::CMP_LT), new.lt);
        proof {
            let s = old(self).0;
            let g = new.gt;
            let e = new.eq;
            let l = new.lt;
            let s1 = if g { s | 1u32 } else { s & !1u32 };
            let s2 = if e { s1 | 2u32 } else { s1 & !2u32 };
            let s3 = if l { s2 | 4u32 } else { s2 & !4u32 };
            assert(s3 == (s & !7u32) | ((if g { 1u32 } else { 0u32 }) | (if e { 2u32 } else {
                0u32
            }) | (if l { 4u32 } else { 0u32 }))) by (bit_vector)
                requires
                    s1 == (if g { s | 1u32 } else { s & !1u32 }),
                    s2 == (if e { s1 | 2u32 } else { s1 & !2u32 }),
                    s3 == (if l { s2 | 4u32 } else { s2 & !4u32 }),
            ;
        }
    }

    /// The comparison flags held in the three comparison bits.
    pub fn get_cmp(&self) -> (r: CmpFlags)
        ensures
            r == flags_of_bits(self.0),
    {
        let gt = self.contains(State(State::CMP_GT));
        let eq = self.contains(State(State::CMP_EQ));
        let lt = self.contains(State(State::CMP_LT));
        proof {
            let s = self.0;
            assert((s & 1u32 == 1u32) == (s & 1u32 != 0u32)) by (bit_vector);
            assert((s & 2u32 == 2u32) == (s & 2u32 != 0u32)) by (bit_vector);
            assert((s & 4u32 == 4u32) == (s & 4u32 != 0u32)) by (bit_vector);
        }
        CmpFlags { gt, eq, lt }
    }
}

impl Default for State {
    /// All three comparison flags set: every conditional instruction runs.
    fn default() -> (r: Self)
        ensures
            r == State(7),
    {
        State(7)
    }
}


/// The name of a flag combination, as the assembler writes it.
pub open spec fn flags_name(f: CmpFlags) -> Seq<char> {
    match (f.gt, f.eq, f.lt) {
        (true, true, true) => "ALL"@,
        (true, true, false) => "GE"@,
        (true, false, true) => "NE"@,
        (false, true, true) => "LE"@,
        (true, false, false) => "GT"@,
        (false, true, false) => "EQ"@,
        (false, false, true) => "LT"@,
        (false, false, false) => "NONE"@,
    }
}

/// The flag combination that a name stands for, if any.
pub open spec fn flags_from_name(s: Seq<char>) -> Result<CmpFlags, ()> {
    if s == "ALL"@ {
        Ok(CmpFlags { gt: true, eq: true, lt: true })
    } else if s == "GE"@ {
        Ok(CmpFlags { gt: true, eq: true, lt: false })
    } else if s == "NE"@ {
        Ok(CmpFlags { gt: true, eq: false, lt: true })
    } else if s == "LE"@ {
        Ok(CmpFlags { gt: false, eq: true, lt: true })
    } else if s == "GT"@ {
        Ok(CmpFlags { gt: true, eq: false, lt: false })
    } else if s == "EQ"@ {
        Ok(CmpFlags { gt: false, eq: true, lt: false })
    } else if s == "LT"@ {
        Ok(CmpFlags { gt: false, eq: false, lt: true })
    } else if s == "NONE"@ {
        Ok(CmpFlags { gt: false, eq: false, lt: false })
    } else {
        Err(())
    }
}

impl From<CmpFlags> for &'static str {
    fn from(f: CmpFlags) -> (r: &'static str)
        ensures
            r@ == flags_name(f),
    {
        match (f.gt, f.eq, f.lt) {
            (true, true, true) => "ALL",
            (true, true, false) => "GE",
            (true, false, true) => "NE",
            (false, true, true) => "LE",
            (true, false, false) => "GT",
            (false, true, false) => "EQ",
            (false, false, true) => "LT",
            (false, false, false) => "NONE",
        }
    }
}

impl vstd::std_specs::convert::FromSpecImpl<CmpFlags> for &'static str {
    open spec fn obeys_from_spec() -> bool {
        true
    }

    open spec fn from_spec(f: CmpFlags) -> &'static str {
        match (f.gt, f.eq, f.lt) {
            (true, true, true) => "ALL",
            (true, true, false) => "GE",
            (true, false, true) => "NE",
            (false, true, true) => "LE",
            (true, false, false) => "GT",
            (false, true, false) => "EQ",
            (false, false, true) => "LT",
            (false, false, false) => "NONE",
        }
    }
}

/// Whether two strings hold the same characters.
pub(crate) fn str_equal(a: &str, b: &str) -> (r: bool)
    ensures
        r == (a@ == b@),
{
    let n = a.unicode_len();
    if n != b.unicode_len() {
        return false;
    }
    let mut i: usize = 0;
    while i < n
        invariant
            n == a@.len(),
            n == b@.len(),
            i <= n,
            forall|j: int| 0 <= j < i ==> a@[j] == b@[j],
        decreases n - i,
    {
        if a.get_char(i) != b.get_char(i) {
            return false;
        }
        i = i + 1;
    }
    assert(a@ =~= b@);
    true
}

impl<'a> TryFrom<&'a str> for CmpFlags {
    type Error = ();

    fn try_from(value: &'a str) -> (r: Result<CmpFlags, ()>)
        ensures
            r == flags_from_name(value@),
    {
        if str_equal(value, "ALL") {
            Ok(CmpFlags { gt: true, eq: true, lt: true })
        } else if str_equal(value, "GE") {
            Ok(CmpFlags { gt: true, eq: true, lt: false })
        } else if str_equal(value, "NE") {
            Ok(CmpFlags { gt: true, eq: false, lt: true })
        } else if str_equal(value, "LE") {
            Ok(CmpFlags { gt: false, eq: true, lt: true })
        } else if str_equal(value, "GT") {
            Ok(CmpFlags { gt: true, eq: false, lt: false })
        } else if str_equal(value, "EQ") {
            Ok(CmpFlags { gt: false, eq: true, lt: false })
        } else if str_equal(value, "LT") {
            Ok(CmpFlags { gt: false, eq: false, lt: true })
        } else if str_equal(value, "NONE") {
            Ok(CmpFlags { gt: false, eq: false, lt: false })
        } else {
            Err(())
        }
    }
}

impl<'a> vstd::std_specs::convert::TryFromSpecImpl<&'a str> for CmpFlags {
    open spec fn obeys_try_from_spec() -> bool {
        true
    }

    open spec fn try_from_spec(value: &'a str) -> Result<CmpFlags, ()> {
        flags_from_name(value@)
    }
}

/// The register file: ten general registers and six special ones.
pub struct RegisterFile {
    pub r0: u32,
    pub r1: u32,
    pub r2: u32,
    pub r3: u32,
    pub r4: u32,
    pub r5: u32,
    pub r6: u32,
    pub r7: u32,
    pub r8: u32,
    pub r9: u32,
    /// call stack
    pub cs: u32,
    /// "carry", used by the alu for extended results
    pub ca: u32,
    /// "state", internal state and alu flags
    pub st: State,
    /// instruction address
    pub ia: u32,
    /// return address
    pub ra: u32,
    /// stack address
    pub sa: u32,
}

impl RegisterFile {
    /// The value held in register `r`.
    pub open spec fn value(self, r: Register) -> u32 {
        match r {
            Register::R0 => self.r0,
            Register::R1 => self.r1,
            Register::R2 => self.r2,
            Register::R3 => self.r3,
            Register::R4 => self.r4,
            Register::R5 => self.r5,
            Register::R6 => self.r6,
            Register::R7 => self.r7,
            Register::R8 => self.r8,
            Register::R9 => self.r9,
            Register::CS => self.cs,
            Register::CA => self.ca,
            Register::ST => self.st.0,
            Register::IA => self.ia,
            Register::RA => self.ra,
            Register::SA => self.sa,
        }
    }

    /// This register file with register `r` holding `v`.
    pub open spec fn with(self, r: Register, v: u32) -> RegisterFile {
        match r {
            Register::R0 => RegisterFile { r0: v, ..self },
            Register::R1 => RegisterFile { r1: v, ..self },
            Register::R2 => RegisterFile { r2: v, ..self },
            Register::R3 => RegisterFile { r3: v, ..self },
            Register::R4 => RegisterFile { r4: v, ..self },
            Register::R5 => RegisterFile { r5: v, ..self },
            Register::R6 => RegisterFile { r6: v, ..self },
            Register::R7 => RegisterFile { r7: v, ..self },
            Register::R8 => RegisterFile { r8: v, ..self },
            Register::R9 => RegisterFile { r9: v, ..self },
            Register::CS => RegisterFile { cs: v, ..self },
            Register::CA => RegisterFile { ca: v, ..self },
            Register::ST => RegisterFile { st: State(v), ..self },
            Register::IA => RegisterFile { ia: v, ..self },
            Register::RA => RegisterFile { ra: v, ..self },
            Register::SA => RegisterFile { sa: v, ..self },
        }
    }

    /// Reads register `r`.
    pub fn get(&self, r: Register) -> (v: u32)
        ensures
            v == self.value(r),
    {
        match r {
            Register::R0 => self.r0,
            Register::R1 => self.r1,
            Register::R2 => self.r2,
            Register::R3 => self.r3,
            Register::R4 => self.r4,
            Register::R5 => self.r5,
            Register::R6 => self.r6,
            Register::R7 => self.r7,
            Register::R8 => self.r8,
            Register::R9 => self.r9,
            Register::CS => self.cs,
            Register::CA => self.ca,
            Register::ST => self.st.0,
            Register::IA => self.ia,
            Register::RA => self.ra,
            Register::SA => self.sa,
        }
    }

    /// Writes `v` into register `r`.
    pub fn set(&mut self, r: Register, v: u32)
        ensures
            *final(self) == old(self).with(r, v),
    {
        match r {
            Register::R0 => self.r0 = v,
            Register::R1 => self.r1 = v,
            Register::R2 => self.r2 = v,
            Register::R3 => self.r3 = v,
            Register::R4 => self.r4 = v,
            Register::R5 => self.r5 = v,
            Register::R6 => self.r6 = v,
            Register::R7 => self.r7 = v,
            Register::R8 => self.r8 = v,
            Register::R9 => self.r9 = v,
            Register::CS => self.cs = v,
            Register::CA => self.ca = v,
            Register::ST => self.st.0 = v,
            Register::IA => self.ia = v,
            Register::RA => self.ra = v,
            Register::SA => self.sa = v,
        }
    }

    /// Reads the register with code `index`; there are only 16 registers.
    pub fn get_by_code(&self, index: u8) -> (v: u32)
        requires
            index < 16,
        ensures
            register_from_code(index) matches Ok(r) && v == self.value(r),
    {
        let r = Register::try_from(index);
        match r {
            Ok(reg) => self.get(reg),
            Err(_) => 0,
        }
    }

    /// Writes `v` into the register with code `index`; there are only 16 registers.
    pub fn set_by_code(&mut self, index: u8, v: u32)
        requires
            index < 16,
        ensures
            register_from_code(index) matches Ok(r) && *final(self) == old(self).with(r, v),
    {
        let r = Register::try_from(index);
        match r {
            Ok(reg) => self.set(reg, v),
            Err(_) => {},
        }
    }
}

impl Default for RegisterFile {
    /// All registers zero, but the state register, which holds `State::default()`.
    fn default() -> (r: Self)
        ensures
            r == (RegisterFile {
                r0: 0,
                r1: 0,
                r2: 0,
                r3: 0,
                r4: 0,
                r5: 0,
                r6: 0,
                r7: 0,
                r8: 0,
                r9: 0,
                cs: 0,
                ca: 0,
                st: State(7),
                ia: 0,
                ra: 0,
                sa: 0,
            }),
    {
        RegisterFile {
            r0: 0,
            r1: 0,
            r2: 0,
            r3: 0,
            r4: 0,
            r5: 0,
            r6: 0,
            r7: 0,
            r8: 0,
            r9: 0,
            cs: 0,
            ca: 0,
            st: State::default(),
            ia: 0,
            ra: 0,
            sa: 0,
        }
    }
}

/// A marker that makes the cpu read the next 4 bytes of the program as a literal value.
pub type UpcomingU32 = ();

/// The operands of an instruction: 16 bits of the instruction word.
#[derive(Clone, Copy, Debug, PartialEq, Eq)]
pub enum InstructionData {
    OneRegister(Register),
    TwoRegisters(Register, Register),
    ThreeRegisters(Register, Register, Register),
    RegisterAndU8(Register, u8),
    RegisterAndU32(Register, UpcomingU32),
    TwoRegistersAndU8(Register, Register, u8),
    TwoRegistersAndU32(Register, Register, UpcomingU32),
    ImmediateOnly(UpcomingU32),
}

/// The operation of an instruction.
///
/// Word layout: bits 27-31 the operation, bits 24-26 the condition flags
/// (gt, eq, lt), bits 20-23 padding, bit 19 the sign, bits 16-18 the operand
/// kind and bits 0-15 the operands.
#[derive(Clone, Copy, Debug, PartialEq, Eq)]
pub enum InstVariant {
    // data processing
    Add(InstructionData),
    Mul(InstructionData),
    And(InstructionData),
    Or(InstructionData),
    Xor(InstructionData),
    Not(InstructionData),
    // comparison, branch control
    Cmp(InstructionData),
    /// sets or clears conditional execution, by the sign bit
    SetEn,
    Rst,
    // shifts
    Lsl(InstructionData),
    Lsr(InstructionData),
    Asr(InstructionData),
    Ror(InstructionData),
    // load, store and move
    Ld(InstructionData),
    Sto(InstructionData),
    Push(InstructionData),
    Pop(InstructionData),
    Mov(InstructionData),
    // subroutines and jumps
    Call(InstructionData),
    Ret,
    Jmp(InstructionData),
    JmpAbs(InstructionData),
    // misc
    Nop,
    Halt,
}

impl Default for InstVariant {
    fn default() -> (r: Self)
        ensures
            r == InstVariant::Nop,
    {
        InstVariant::Nop
    }
}

impl InstVariant {
    /// The operands of this operation, for the operations that take any.
    pub open spec fn data(self) -> Option<InstructionData> {
        match self {
            InstVariant::Add(id) => Some(id),
            InstVariant::Mul(id) => Some(id),
            InstVariant::And(id) => Some(id),
            InstVariant::Or(id) => Some(id),
            InstVariant::Xor(id) => Some(id),
            InstVariant::Not(id) => Some(id),
            InstVariant::Cmp(id) => Some(id),
            InstVariant::Lsl(id) => Some(id),
            InstVariant::Lsr(id) => Some(id),
            InstVariant::Asr(id) => Some(id),
            InstVariant::Ror(id) => Some(id),
            InstVariant::Ld(id) => Some(id),
            InstVariant::Sto(id) => Some(id),
            InstVariant::Push(id) => Some(id),
            InstVariant::Pop(id) => Some(id),
            InstVariant::Mov(id) => Some(id),
            InstVariant::Call(id) => Some(id),
            InstVariant::Jmp(id) => Some(id),
            InstVariant::JmpAbs(id) => Some(id),
            _ => None,
        }
    }
}

impl InstructionData {
    /// Whether these operands carry a 32-bit literal in the following word.
    pub open spec fn carries_u32(self) -> bool {
        match self {
            InstructionData::RegisterAndU32(_, _) => true,
            InstructionData::TwoRegistersAndU32(_, _, _) => true,
            InstructionData::ImmediateOnly(_) => true,
            _ => false,
        }
    }
}

/// An instruction: condition flags, sign bit and operation.
#[derive(Clone, Copy, Debug, PartialEq, Eq)]
pub struct Instruction {
    pub cmp: CmpFlags,
    pub sign: bool,
    pub var: InstVariant,
}

impl Instruction {
    /// Whether the word after this instruction is a literal operand of it.
    pub open spec fn spec_has_upcoming_value(self) -> bool {
        match self.var.data() {
            Some(id) => id.carries_u32(),
            None => false,
        }
    }

    /// Whether the word after this instruction is a literal operand of it.
    pub fn has_upcoming_value(&self) -> (r: bool)
        ensures
            r == self.spec_has_upcoming_value(),
    {
        match self.var {
            InstVariant::SetEn | InstVariant::Rst | InstVariant::Ret | InstVariant::Nop
            | InstVariant::Halt => false,
            InstVariant::Add(id) | InstVariant::Mul(id) | InstVariant::And(id) | InstVariant::Or(
                id,
            ) | InstVariant::Xor(id) | InstVariant::Not(id) | InstVariant::Cmp(id)
            | InstVariant::Lsl(id) | InstVariant::Lsr(id) | InstVariant::Asr(id)
            | InstVariant::Ror(id) | InstVariant::Ld(id) | InstVariant::Sto(id)
            | InstVariant::Push(id) | InstVariant::Pop(id) | InstVariant::Mov(id)
            | InstVariant::Call(id) | InstVariant::Jmp(id) | InstVariant::JmpAbs(id) => {
                match id {
                    InstructionData::RegisterAndU32(_, _) | InstructionData::TwoRegistersAndU32(
                        _,
                        _,
                        _,
                    ) | InstructionData::ImmediateOnly(_) => true,
                    _ => false,
                }
            },
        }
    }
}

} // verus!
