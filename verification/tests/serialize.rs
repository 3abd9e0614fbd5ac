use esta::util::text::{parse_i64, trim};
use esta::vm::bytecode::{ByteCode, Inst};
use esta::vm::encoding::{assemble_u8, disassemble_u8};
use esta::vm::serialize::Converter;

#[test]
fn listing_reads_names_and_operands() {
    let code = Converter::raw_to_inst("LOADC 4\nLOADC -12\nADD\nHALT").unwrap();
    assert_eq!(
        code,
        vec![
            Inst::new_data(ByteCode::LOADC, 4),
            Inst::new_data(ByteCode::LOADC, -12),
            Inst::new_inst(ByteCode::ADD),
            Inst::new_inst(ByteCode::HALT),
        ]
    );
}

#[test]
fn listing_passes_over_what_is_no_opcode() {
    let code = Converter::raw_to_inst("  0 ALLOC 1; 1 MARK, frobnicate 7 -- halt HALT.").unwrap();
    assert_eq!(
        code,
        vec![
            Inst::new_data(ByteCode::ALLOC, 1),
            Inst::new_inst(ByteCode::MARK),
            Inst::new_inst(ByteCode::HALT),
        ]
    );
    assert_eq!(Converter::raw_to_inst(""), Ok(vec![]));
}

#[test]
fn operand_beyond_the_range_is_left_out() {
    let code = Converter::raw_to_inst("LOADC 99999999999999999999").unwrap();
    assert_eq!(code, vec![Inst::new_inst(ByteCode::LOADC)]);
}

#[test]
fn captures_give_instructions_in_order() {
    let caps = vec![
        (Some("RET".to_string()), Some(" 2".to_string())),
        (Some("ret".to_string()), Some(" 2".to_string())),
        (None, Some(" 2".to_string())),
        (Some("HALT".to_string()), None),
        (Some("JUMP".to_string()), Some(" x".to_string())),
    ];
    assert_eq!(
        Converter::captures_to_inst(&caps),
        vec![
            Inst::new_data(ByteCode::RET, 2),
            Inst::new_inst(ByteCode::HALT),
            Inst::new_inst(ByteCode::JUMP),
        ]
    );
}

#[test]
fn every_opcode_is_found_by_its_name_and_byte() {
    for byte in 0..=255u8 {
        match ByteCode::from_u8(byte) {
            Some(code) => {
                assert!(byte < 32);
                assert_eq!(code.to_u8(), byte);
                assert_eq!(u8::from(code), byte);
                assert_eq!(ByteCode::from_name(code.name()), Some(code));
            }
            None => assert!(byte >= 32),
        }
    }
    assert_eq!(ByteCode::from_u8(0), Some(ByteCode::HALT));
    assert_eq!(ByteCode::from_name("STOREH"), Some(ByteCode::STOREH));
    assert_eq!(ByteCode::from_name("halt"), None);
    assert!(ByteCode::RET.has_operand());
    assert!(!ByteCode::ADD.has_operand());
}

#[test]
fn bytes_round_trip() {
    let code = vec![
        Inst::new_data(ByteCode::LOADC, -1),
        Inst::new_data(ByteCode::LOADC, i64::MIN),
        Inst::new_data(ByteCode::LOADC, i64::MAX),
        Inst::new_data(ByteCode::JUMP, 258),
        Inst::new_inst(ByteCode::ADD),
        Inst::new_inst(ByteCode::HALT),
    ];
    let bytes = assemble_u8(&code);
    assert_eq!(bytes.len(), 4 * 9 + 2);
    assert_eq!(&bytes[0..9], &[3, 255, 255, 255, 255, 255, 255, 255, 255]);
    assert_eq!(&bytes[27..36], &[10, 2, 1, 0, 0, 0, 0, 0, 0]);
    assert_eq!(disassemble_u8(&bytes), Some(code));
}

#[test]
fn bytes_that_spell_no_code_are_rejected() {
    assert_eq!(disassemble_u8(&vec![200]), None);
    assert_eq!(disassemble_u8(&vec![3, 1, 2]), None);
    assert_eq!(disassemble_u8(&vec![]), Some(vec![]));
    assert_eq!(disassemble_u8(&vec![0, 1]), Some(vec![
        Inst::new_inst(ByteCode::HALT),
        Inst::new_inst(ByteCode::NOP),
    ]));
}

#[test]
fn trim_removes_white_space_at_both_ends() {
    assert_eq!(trim("  \t 12 3\n"), "12 3");
    assert_eq!(trim("\u{3000}x\u{a0}"), "x");
    assert_eq!(trim("   "), "");
    assert_eq!(trim(""), "");
    assert_eq!(trim("abc"), "abc");
}

#[test]
fn integers_are_read_with_an_optional_sign() {
    assert_eq!(parse_i64("0"), Some(0));
    assert_eq!(parse_i64("-3"), Some(-3));
    assert_eq!(parse_i64("+17"), Some(17));
    assert_eq!(parse_i64("0042"), Some(42));
    assert_eq!(parse_i64("9223372036854775807"), Some(i64::MAX));
    assert_eq!(parse_i64("9223372036854775808"), None);
    assert_eq!(parse_i64("-9223372036854775808"), Some(i64::MIN));
    assert_eq!(parse_i64("-9223372036854775809"), None);
    assert_eq!(parse_i64(""), None);
    assert_eq!(parse_i64("-"), None);
    assert_eq!(parse_i64("+"), None);
    assert_eq!(parse_i64("1 "), None);
    assert_eq!(parse_i64("12a"), None);
    assert_eq!(parse_i64("--1"), None);
    for text in ["7", "-0", "+0", "18446744073709551616", "000000000000000000000000000001"] {
        assert_eq!(parse_i64(text), text.parse::<i64>().ok());
    }
}
