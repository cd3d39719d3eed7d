use alea_core::assembly::{
    line_instruction, listing_kind, literal_value, parse_hex, plan_line, sign_text, split_fields,
    strip_leading, trim_end_copies, trim_white, HexError, LineError, LinePlan, ListingKind,
};
use alea_core::isa::{CmpFlags, InstVariant, Instruction, InstructionData, Register};

#[test]
fn hex_numbers() {
    assert_eq!(parse_hex("0"), Ok(0));
    assert_eq!(parse_hex("ff"), Ok(0xFF));
    assert_eq!(parse_hex("DeadBeef"), Ok(0xDEAD_BEEF));
    assert_eq!(parse_hex("+10"), Ok(0x10));
    assert_eq!(parse_hex("FFFFFFFF"), Ok(u32::MAX));
    assert_eq!(parse_hex("000000000001"), Ok(1));
    assert_eq!(parse_hex(""), Err(HexError::Empty));
    assert_eq!(parse_hex("+"), Err(HexError::InvalidDigit));
    assert_eq!(parse_hex("-1"), Err(HexError::InvalidDigit));
    assert_eq!(parse_hex("12g"), Err(HexError::InvalidDigit));
    assert_eq!(parse_hex(" 1"), Err(HexError::InvalidDigit));
    assert_eq!(parse_hex("100000000"), Err(HexError::Overflow));
    assert_eq!(parse_hex("100000000x"), Err(HexError::Overflow));
    assert_eq!(parse_hex("1000000x00"), Err(HexError::InvalidDigit));
    assert_eq!(parse_hex("é"), Err(HexError::InvalidDigit));
}

#[test]
fn hex_numbers_agree_with_std() {
    for t in ["0", "7f", "+a", "", "+", "-", "ffffffff", "100000000", "zz", "1_0", "00000000000fff"] {
        let ours = parse_hex(t);
        let std = u32::from_str_radix(t, 16);
        assert_eq!(ours.ok(), std.clone().ok(), "{}", t);
    }
}

#[test]
fn trimming_and_stripping() {
    assert_eq!(trim_white("  a b \t"), "a b");
    assert_eq!(trim_white("\u{3000}x\u{A0}"), "x");
    assert_eq!(trim_white(" \n "), "");
    assert_eq!(trim_end_copies("10::", ':'), "10");
    assert_eq!(trim_end_copies(":a:", ':'), ":a");
    assert_eq!(strip_leading("0x0x12", "0x"), "12");
    assert_eq!(strip_leading("00x12", "0x"), "00x12");
    assert_eq!(strip_leading("0x", "0x"), "");
}

#[test]
fn fields_split_at_tabs() {
    assert_eq!(split_fields(""), vec![""]);
    assert_eq!(split_fields("a"), vec!["a"]);
    assert_eq!(split_fields("a\tb\t\tc"), vec!["a", "b", "", "c"]);
    assert_eq!(split_fields("\t"), vec!["", ""]);
    assert_eq!(split_fields("x\t"), vec!["x", ""]);
}

fn emit(p: LinePlan) -> (u32, Option<(String, String, String)>, Option<String>) {
    match p {
        LinePlan::Comment => panic!("comment"),
        LinePlan::Emit { pad, operation, literal } => (
            pad,
            operation
                .unwrap()
                .map(|o| (o.flags.to_string(), o.sign.to_string(), o.operation.to_string())),
            literal.map(|l| l.to_string()),
        ),
    }
}

#[test]
fn comment_lines() {
    assert!(matches!(plan_line("# a comment", 0), Ok(LinePlan::Comment)));
    assert!(matches!(plan_line("   \t#\tx", 0), Ok(LinePlan::Comment)));
    assert!(!matches!(plan_line("a#", 0), Ok(LinePlan::Comment)));
}

#[test]
fn plans_of_lines() {
    assert_eq!(emit(plan_line("", 0).unwrap()), (0, None, None));
    assert_eq!(
        emit(plan_line("\tALL\t+\tHalt", 8).unwrap()),
        (0, Some(("ALL".into(), "+".into(), "Halt".into())), None)
    );
    assert_eq!(
        emit(plan_line(" 10: \tEQ\t-\tMov(RegisterAndU32(R0, ()))\t0x2000", 8).unwrap()),
        (8, Some(("EQ".into(), "-".into(), "Mov(RegisterAndU32(R0, ()))".into())), Some("0x2000".into()))
    );
    assert_eq!(emit(plan_line("20:\t\t\t\t1234", 0x20).unwrap()), (0, None, Some("1234".into())));
    assert_eq!(emit(plan_line("\t\t\t\t", 0).unwrap()), (0, None, None));
}

fn operation_error(line: &str, index: u32) -> Option<(u32, LineError)> {
    match plan_line(line, index) {
        Ok(LinePlan::Emit { pad, operation: Err(e), .. }) => Some((pad, e)),
        _ => None,
    }
}

#[test]
fn line_errors() {
    assert_eq!(plan_line("zz:\tALL\t+\tNop", 0).err(), Some(LineError::Offset(HexError::InvalidDigit)));
    assert_eq!(plan_line("4:\tALL\t+\tNop", 8).err(), Some(LineError::OffsetBehind(8, 4)));
    assert_eq!(operation_error("\tALL", 0), Some((0, LineError::InvalidLine)));
    assert_eq!(operation_error("\tALL\t+", 0), Some((0, LineError::InvalidLine)));
    assert_eq!(operation_error("\tALL\t\tNop", 0), Some((0, LineError::InvalidLine)));
    // the padding comes before the malformed fields
    assert_eq!(operation_error("10:\tALL\t\tNop", 4), Some((12, LineError::InvalidLine)));
    // the offset is read before the other fields
    assert_eq!(plan_line(":\tALL", 0).err(), Some(LineError::Offset(HexError::Empty)));
}

#[test]
fn line_instructions() {
    let var = InstVariant::Mov(InstructionData::RegisterAndU8(Register::SA, 0xAB));
    let expected = Instruction { cmp: CmpFlags { gt: false, eq: true, lt: false }, sign: true, var };
    assert_eq!(line_instruction("EQ", "-", var), Ok(expected));
    assert_eq!(u32::from(line_instruction("EQ", "-", var).unwrap()), (13 << 27) | 0x0208_F0AB);
    assert_eq!(line_instruction("eq", "-", var), Err(LineError::Flags));
    assert_eq!(line_instruction("EQ", "*", var), Err(LineError::Sign));
    assert_eq!(line_instruction("EQ", "", var), Err(LineError::Sign));
    assert_eq!(line_instruction("XX", "*", var), Err(LineError::Flags));
    let halt = line_instruction("NONE", "+", InstVariant::Halt).unwrap();
    assert_eq!(u32::from(halt), 1);
}

#[test]
fn literal_values() {
    assert_eq!(literal_value("0x2000"), Ok(0x2000));
    assert_eq!(literal_value("2000"), Ok(0x2000));
    assert_eq!(literal_value("0x0xff"), Ok(0xFF));
    assert_eq!(literal_value("0x"), Err(LineError::Literal(HexError::Empty)));
    assert_eq!(literal_value(" 1"), Err(LineError::Literal(HexError::InvalidDigit)));
}

#[test]
fn converted_fields_read_back() {
    let var = InstVariant::Add(InstructionData::ThreeRegisters(Register::R1, Register::R2, Register::R3));
    for bits in 0..8u32 {
        for sign in [false, true] {
            let cmp = CmpFlags { gt: bits & 1 != 0, eq: bits & 2 != 0, lt: bits & 4 != 0 };
            let name: &str = cmp.into();
            let i = Instruction { cmp, sign, var };
            assert_eq!(line_instruction(name, sign_text(sign), var), Ok(i));
        }
    }
}

#[test]
fn listing_kinds() {
    assert!(matches!(listing_kind("0x00002000"), ListingKind::Literal));
    assert!(matches!(listing_kind(".org .org 100"), ListingKind::Origin("100")));
    assert!(matches!(listing_kind(".org"), ListingKind::Other));
    assert!(matches!(listing_kind("{\"cmp\":1}"), ListingKind::Instruction));
    assert!(matches!(listing_kind("# 0000: "), ListingKind::Other));
    assert!(matches!(listing_kind(""), ListingKind::Other));
}
