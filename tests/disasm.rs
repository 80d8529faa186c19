use constpool::disasm::{disassemble, render_listing, ByteCode, DisassembleError, Instruction};
use constpool::value::{ObjectPool, Value};

#[test]
fn listing_of_constant_then_return() {
    let code = [ByteCode::ConstantByte.to_byte(), 3, ByteCode::Return.to_byte()];
    let ins = disassemble(&code).unwrap();
    assert_eq!(
        ins,
        vec![
            Instruction { offset: 0, op: ByteCode::ConstantByte, operand: Some(3) },
            Instruction { offset: 2, op: ByteCode::Return, operand: None },
        ]
    );
    let last = ins[ins.len() - 1];
    assert_eq!(last.offset + 1, code.len());
    let lines = render_listing(&ins);
    assert_eq!(lines, vec!["0000 CONSTANT_BYTE 3".to_string(), "0002 RETURN".to_string()]);
}

#[test]
fn empty_body_has_no_lines() {
    assert_eq!(disassemble(&[]).unwrap(), vec![]);
}

#[test]
fn byte_codes_map_both_ways() {
    assert_eq!(ByteCode::from_byte(0), Some(ByteCode::ConstantByte));
    assert_eq!(ByteCode::from_byte(1), Some(ByteCode::Return));
    assert_eq!(ByteCode::from_byte(2), None);
    assert_eq!(ByteCode::from_byte(255), None);
    assert_eq!(ByteCode::Return.mnemonic(), "RETURN");
}

#[test]
fn unknown_op_is_reported() {
    assert_eq!(
        disassemble(&[1, 9, 1]),
        Err(DisassembleError::UnknownOp { offset: 1, byte: 9 })
    );
}

#[test]
fn missing_operand_is_reported() {
    assert_eq!(disassemble(&[1, 0]), Err(DisassembleError::MissingOperand { offset: 1 }));
}

#[test]
fn offsets_are_padded_to_four_digits() {
    let mut code = vec![1u8; 1001];
    code[0] = 0;
    code[1] = 255;
    let lines = render_listing(&disassemble(&code).unwrap());
    assert_eq!(lines.len(), 1000);
    assert_eq!(lines[0], "0000 CONSTANT_BYTE 255");
    assert_eq!(lines[1], "0002 RETURN");
    assert_eq!(lines[10], "0011 RETURN");
    assert_eq!(lines[99], "0100 RETURN");
    assert_eq!(lines[999], "1000 RETURN");
}

#[test]
fn scalars_display_their_literal() {
    assert_eq!(Value::Int(100).display().unwrap(), vec!["100".to_string()]);
    assert_eq!(Value::Int(-42).display().unwrap(), vec!["-42".to_string()]);
    assert_eq!(Value::Int(0).display().unwrap(), vec!["0".to_string()]);
    assert_eq!(Value::Int(i32::MIN).display().unwrap(), vec!["-2147483648".to_string()]);
    assert_eq!(Value::Bool(true).display().unwrap(), vec!["true".to_string()]);
    assert_eq!(Value::Bool(false).display().unwrap(), vec!["false".to_string()]);
}

#[test]
fn objects_display_text_and_listing() {
    let mut pool = ObjectPool::new();
    let s = Value::from_string("Hello!", &mut pool);
    assert_eq!(s.display().unwrap(), vec!["Hello!".to_string()]);
    let f = Value::from_function_literal("foo_bar", 1, &[0, 3, 1], &mut pool);
    assert_eq!(
        f.display().unwrap(),
        vec![
            "func<'foo_bar', 1>".to_string(),
            "0000 CONSTANT_BYTE 3".to_string(),
            "0002 RETURN".to_string(),
        ]
    );
    let bad = Value::from_function_literal("g", 0, &[0], &mut pool);
    assert_eq!(bad.display(), Err(DisassembleError::MissingOperand { offset: 0 }));
}
