use alea_core::text::word_string;
use alea_core::isa::{CmpFlags, InstVariant, Instruction, InstructionData, Register, RegisterFile, State};
use alea_core::vcore::CPUError;

const ALL: [Register; 16] = [
    Register::R0,
    Register::R1,
    Register::R2,
    Register::R3,
    Register::R4,
    Register::R5,
    Register::R6,
    Register::R7,
    Register::R8,
    Register::R9,
    Register::CS,
    Register::CA,
    Register::ST,
    Register::IA,
    Register::RA,
    Register::SA,
];

fn flags(gt: bool, eq: bool, lt: bool) -> CmpFlags {
    CmpFlags { gt, eq, lt }
}

fn none() -> CmpFlags {
    flags(false, false, false)
}

#[test]
fn register_codes_roundtrip() {
    for (i, r) in ALL.iter().enumerate() {
        let code: u8 = (*r).into();
        assert_eq!(code as usize, i);
        assert_eq!(Register::try_from(code), Ok(*r));
    }
    assert_eq!(Register::try_from(16u8), Err(()));
    assert_eq!(Register::try_from(255u8), Err(()));
}

#[test]
fn flag_words_roundtrip() {
    for bits in 0..8u32 {
        let f = flags(bits & 1 != 0, bits & 2 != 0, bits & 4 != 0);
        let w: u32 = f.into();
        assert_eq!(CmpFlags::from(w), f);
    }
    let w: u32 = flags(true, false, true).into();
    assert_eq!(w, 0x0500_0000);
}

#[test]
fn flag_names_roundtrip() {
    let names = ["ALL", "GE", "NE", "LE", "GT", "EQ", "LT", "NONE"];
    for n in names {
        let f = CmpFlags::try_from(n).unwrap();
        let back: &str = f.into();
        assert_eq!(back, n);
    }
    assert_eq!(CmpFlags::try_from("GE"), Ok(flags(true, true, false)));
    assert_eq!(CmpFlags::try_from("LT"), Ok(flags(false, false, true)));
    assert_eq!(CmpFlags::try_from("ge"), Err(()));
    assert_eq!(CmpFlags::try_from(""), Err(()));
    assert_eq!(CmpFlags::try_from("ALL "), Err(()));
}

#[test]
fn compare_flags_of_numbers() {
    assert_eq!(CmpFlags::new(3u32, 5u32), flags(false, false, true));
    assert_eq!(CmpFlags::new(5u32, 5u32), flags(false, true, false));
    assert_eq!(CmpFlags::new(7u32, 5u32), flags(true, false, false));
    assert_eq!(CmpFlags::new(-1i32, 0i32), flags(false, false, true));
}

#[test]
fn state_flags() {
    assert_eq!(State::default(), State(7));
    let mut s = State(0b11000);
    s.set_cmp(flags(true, false, true));
    assert_eq!(s, State(0b11101));
    assert_eq!(s.get_cmp(), flags(true, false, true));
    s.set_cmp(none());
    assert_eq!(s, State(0b11000));
    assert!(s.contains(State(State::CMP_EN)));
    assert!(!s.contains(State(State::CMP_GT)));
    s.set(State(State::CMP_EN), false);
    assert_eq!(s, State(0b10000));
    s.set(State(State::CMP_EQ), true);
    assert_eq!(s, State(0b10010));
    assert_eq!(State::from(flags(false, true, true)), State(6));
}

#[test]
fn register_file_access() {
    let mut rf = RegisterFile::default();
    assert_eq!(rf.get(Register::ST), 7);
    rf.set(Register::R3, 42);
    rf.set(Register::SA, 0x4000);
    assert_eq!(rf.r3, 42);
    assert_eq!(rf.get(Register::SA), 0x4000);
    assert_eq!(rf.get_by_code(15), 0x4000);
    rf.set_by_code(12, 9);
    assert_eq!(rf.st, State(9));
}

#[test]
fn encode_known_words() {
    let add = Instruction {
        cmp: none(),
        sign: false,
        var: InstVariant::Add(InstructionData::TwoRegisters(Register::R1, Register::R2)),
    };
    assert_eq!(u32::from(add), 0x8005_1200);
    let mov = Instruction {
        cmp: flags(false, true, false),
        sign: true,
        var: InstVariant::Mov(InstructionData::RegisterAndU8(Register::SA, 0xAB)),
    };
    assert_eq!(u32::from(mov), (13 << 27) | 0x0200_0000 | 0x0008_0000 | 0xF0AB);
    let halt = Instruction { cmp: none(), sign: false, var: InstVariant::Halt };
    assert_eq!(u32::from(halt), 1);
    let nop = Instruction { cmp: none(), sign: false, var: InstVariant::Nop };
    assert_eq!(u32::from(nop), 0);
    let data: u32 = InstructionData::ThreeRegisters(Register::R1, Register::R2, Register::R3).into();
    assert_eq!(data, 0x0006_1230);
}

#[test]
fn decode_known_words() {
    assert_eq!(
        Instruction::try_from(0u32),
        Ok(Instruction { cmp: none(), sign: false, var: InstVariant::Nop })
    );
    assert_eq!(
        Instruction::try_from(1u32),
        Ok(Instruction { cmp: none(), sign: false, var: InstVariant::Halt })
    );
    assert_eq!(
        Instruction::try_from(0x8005_1200u32),
        Ok(Instruction {
            cmp: none(),
            sign: false,
            var: InstVariant::Add(InstructionData::TwoRegisters(Register::R1, Register::R2)),
        })
    );
    for op in [10u32, 14, 15, 22, 23, 28, 29, 30, 31] {
        assert_eq!(Instruction::try_from(op << 27), Err(CPUError::InvalidInstruction));
    }
    assert_eq!(InstructionData::from(0x0007_FFFFu32), InstructionData::ImmediateOnly(()));
    assert_eq!(
        InstructionData::from(0x0000_C0FFu32),
        InstructionData::RegisterAndU8(Register::ST, 0xFF)
    );
}

fn all_data() -> Vec<InstructionData> {
    vec![
        InstructionData::OneRegister(Register::CA),
        InstructionData::TwoRegisters(Register::R9, Register::R0),
        InstructionData::ThreeRegisters(Register::SA, Register::RA, Register::IA),
        InstructionData::RegisterAndU8(Register::R4, 0x7F),
        InstructionData::RegisterAndU32(Register::R5, ()),
        InstructionData::TwoRegistersAndU8(Register::R6, Register::R7, 0xFE),
        InstructionData::TwoRegistersAndU32(Register::R8, Register::CS, ()),
        InstructionData::ImmediateOnly(()),
    ]
}

fn all_variants(id: InstructionData) -> Vec<InstVariant> {
    vec![
        InstVariant::Add(id),
        InstVariant::Mul(id),
        InstVariant::And(id),
        InstVariant::Or(id),
        InstVariant::Xor(id),
        InstVariant::Not(id),
        InstVariant::Cmp(id),
        InstVariant::SetEn,
        InstVariant::Rst,
        InstVariant::Lsl(id),
        InstVariant::Lsr(id),
        InstVariant::Asr(id),
        InstVariant::Ror(id),
        InstVariant::Ld(id),
        InstVariant::Sto(id),
        InstVariant::Push(id),
        InstVariant::Pop(id),
        InstVariant::Mov(id),
        InstVariant::Call(id),
        InstVariant::Ret,
        InstVariant::Jmp(id),
        InstVariant::JmpAbs(id),
        InstVariant::Nop,
        InstVariant::Halt,
    ]
}

#[test]
fn decode_of_encode_gives_back_the_instruction() {
    for id in all_data() {
        let w: u32 = id.into();
        assert_eq!(InstructionData::from(w), id);
        for var in all_variants(id) {
            for bits in 0..8u32 {
                for sign in [false, true] {
                    let cmp = flags(bits & 1 != 0, bits & 2 != 0, bits & 4 != 0);
                    let i = Instruction { cmp, sign, var };
                    let back = Instruction::try_from(u32::from(i)).unwrap();
                    if var == InstVariant::Nop && (bits != 0 || sign) {
                        assert_eq!(back, Instruction { cmp, sign, var: InstVariant::Halt });
                    } else {
                        assert_eq!(back, i);
                    }
                    assert_eq!(back.has_upcoming_value(), i.has_upcoming_value());
                }
            }
        }
    }
}

#[test]
fn upcoming_values() {
    let mk = |var| Instruction { cmp: none(), sign: false, var };
    assert!(mk(InstVariant::Add(InstructionData::RegisterAndU32(Register::R0, ()))).has_upcoming_value());
    assert!(mk(InstVariant::Jmp(InstructionData::ImmediateOnly(()))).has_upcoming_value());
    assert!(mk(InstVariant::Push(InstructionData::TwoRegistersAndU32(Register::R0, Register::R1, ())))
        .has_upcoming_value());
    assert!(!mk(InstVariant::Add(InstructionData::RegisterAndU8(Register::R0, 1))).has_upcoming_value());
    assert!(!mk(InstVariant::Halt).has_upcoming_value());
    assert!(!mk(InstVariant::Ret).has_upcoming_value());
}

#[test]
fn word_texts() {
    for v in [0u32, 1, 0xDEAD_BEEF, u32::MAX, 0x0000_2000] {
        assert_eq!(word_string(v), format!("{:#010x}", v));
        assert_eq!(alea_core::assembly::literal_value(&word_string(v)), Ok(v));
    }
}

#[test]
fn register_table_text() {
    let mut rf = RegisterFile::default();
    rf.r1 = 0x2a;
    rf.sa = 0x8000;
    let t = rf.table();
    let mut expected = String::from("RegisterFile {\n");
    for regs in ALL.chunks(4) {
        for r in regs {
            expected += &format!("  {:?}: {:#010x}", r, rf.get(*r));
        }
        expected += "\n";
    }
    expected += "};";
    assert_eq!(t, expected);
}

#[test]
fn display_texts() {
    assert_eq!(flags(true, true, false).text(), "CmpFlags(GE)");
    assert_eq!(none().text(), "CmpFlags(NONE)");
    let cases = [
        InstVariant::Mov(InstructionData::RegisterAndU32(Register::R0, ())),
        InstVariant::Add(InstructionData::TwoRegistersAndU8(Register::R1, Register::SA, 255)),
        InstVariant::Jmp(InstructionData::RegisterAndU8(Register::IA, 7)),
        InstVariant::Push(InstructionData::ThreeRegisters(Register::R9, Register::CS, Register::CA)),
        InstVariant::Cmp(InstructionData::OneRegister(Register::ST)),
        InstVariant::Ld(InstructionData::TwoRegisters(Register::RA, Register::R4)),
        InstVariant::Sto(InstructionData::TwoRegistersAndU32(Register::R2, Register::R3, ())),
        InstVariant::Call(InstructionData::ImmediateOnly(())),
        InstVariant::Mul(InstructionData::RegisterAndU8(Register::R5, 42)),
        InstVariant::Halt,
        InstVariant::Ret,
    ];
    for var in cases {
        let i = Instruction { cmp: flags(false, true, true), sign: true, var };
        assert_eq!(i.text(), format!("Instruction(CmpFlags(LE) Neg {:?})", var));
    }
    let set = Instruction { cmp: flags(true, true, true), sign: false, var: InstVariant::SetEn };
    assert_eq!(set.text(), "Instruction(CmpFlags(ALL) Pos Set)");
}
