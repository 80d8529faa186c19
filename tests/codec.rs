use constpool::codec::{read_string, read_values, write_values, DecodeError};
use constpool::disasm::ByteCode;
use constpool::value::{Object, ObjectPool, Value};

fn sample(pool: &mut ObjectPool) -> Vec<Value> {
    vec![
        Value::Int(100),
        Value::Bool(false),
        Value::from_string("Hello!", pool),
        Value::from_function_literal(
            "foo_bar",
            1,
            &[ByteCode::ConstantByte.to_byte(), 3, ByteCode::Return.to_byte()],
            pool,
        ),
    ]
}

fn encode(values: &[Value]) -> Vec<u8> {
    let mut out = Vec::new();
    write_values(&mut out, values);
    out
}

#[test]
fn round_trip_keeps_every_value() {
    let mut pool = ObjectPool::new();
    let values = sample(&mut pool);
    let bytes = encode(&values);
    let mut loaded_pool = ObjectPool::new();
    let loaded = read_values(&bytes, &mut loaded_pool).unwrap();
    assert_eq!(loaded.len(), 4);
    assert!(matches!(loaded[0], Value::Int(100)));
    assert!(matches!(loaded[1], Value::Bool(false)));
    match &loaded[2] {
        Value::Object(o) => assert!(matches!(&**o, Object::String(s) if s == "Hello!")),
        _ => panic!("expected a string object"),
    }
    match &loaded[3] {
        Value::Object(o) => match &**o {
            Object::Function { identifier, param_count, code } => {
                assert_eq!(identifier, "foo_bar");
                assert_eq!(*param_count, 1);
                assert_eq!(code, &vec![0u8, 3, 1]);
            }
            _ => panic!("expected a function object"),
        },
        _ => panic!("expected an object"),
    }
}

#[test]
fn builders_register_objects_in_order() {
    let mut pool = ObjectPool::new();
    let _ = sample(&mut pool);
    assert_eq!(pool.len(), 2);
    assert!(matches!(&*pool[0], Object::String(s) if s == "Hello!"));
    assert!(matches!(&*pool[1], Object::Function { identifier, .. } if identifier == "foo_bar"));
}

#[test]
fn count_field_matches_records() {
    let mut pool = ObjectPool::new();
    let values = sample(&mut pool);
    let mut out = Vec::new();
    let written = write_values(&mut out, &values);
    assert_eq!(written, 4);
    assert_eq!(&out[0..8], &[0u8, 0, 0, 0, 0, 0, 0, 4]);
}

#[test]
fn reader_takes_exactly_count_records() {
    let mut pool = ObjectPool::new();
    let values = vec![Value::Int(7), Value::Bool(true)];
    let mut bytes = encode(&values);
    // a third record after the two that the count announces
    bytes.extend_from_slice(&[0, 0, 0, 0, 9]);
    let loaded = read_values(&bytes, &mut pool).unwrap();
    assert_eq!(loaded.len(), 2);
    assert!(matches!(loaded[0], Value::Int(7)));
    assert!(matches!(loaded[1], Value::Bool(true)));
}

#[test]
fn type_ids_are_stable() {
    let mut pool = ObjectPool::new();
    let values = sample(&mut pool);
    let ids: Vec<u8> = values.iter().map(|v| v.to_type_id()).collect();
    assert_eq!(ids, vec![0, 1, 2, 3]);
    assert_eq!(pool[0].to_type_id(), 2);
    assert_eq!(pool[1].to_type_id(), 3);
    let bytes = encode(&values[0..1]);
    assert_eq!(bytes[8], 0);
}

#[test]
fn pool_holds_each_loaded_object_once_in_order() {
    let mut pool = ObjectPool::new();
    let values = vec![
        Value::from_string("a", &mut pool),
        Value::Int(1),
        Value::from_function_literal("f", 0, &[1], &mut pool),
        Value::from_string("a", &mut pool),
    ];
    let bytes = encode(&values);
    let mut loaded_pool = ObjectPool::new();
    let loaded = read_values(&bytes, &mut loaded_pool).unwrap();
    assert_eq!(loaded_pool.len(), 3);
    assert!(matches!(&*loaded_pool[0], Object::String(s) if s == "a"));
    assert!(matches!(&*loaded_pool[1], Object::Function { identifier, .. } if identifier == "f"));
    assert!(matches!(&*loaded_pool[2], Object::String(s) if s == "a"));
    match (&loaded[0], &loaded[3]) {
        (Value::Object(first), Value::Object(last)) => {
            assert!(std::rc::Rc::ptr_eq(first, &loaded_pool[0]));
            assert!(std::rc::Rc::ptr_eq(last, &loaded_pool[2]));
        }
        _ => panic!("expected objects"),
    }
}

#[test]
fn empty_list_round_trips() {
    let bytes = encode(&[]);
    assert_eq!(bytes, vec![0u8; 8]);
    let mut pool = ObjectPool::new();
    let loaded = read_values(&bytes, &mut pool).unwrap();
    assert!(loaded.is_empty());
    assert!(pool.is_empty());
}

#[test]
fn negative_int_round_trips() {
    let bytes = encode(&[Value::Int(-1)]);
    assert_eq!(&bytes[8..], &[0u8, 0xff, 0xff, 0xff, 0xff]);
    let mut pool = ObjectPool::new();
    let loaded = read_values(&bytes, &mut pool).unwrap();
    assert!(matches!(loaded[0], Value::Int(-1)));
    let bytes = encode(&[Value::Int(i32::MIN)]);
    assert_eq!(&bytes[8..], &[0u8, 0x80, 0, 0, 0]);
    let loaded = read_values(&bytes, &mut pool).unwrap();
    assert!(matches!(loaded[0], Value::Int(i32::MIN)));
}

#[test]
fn string_record_layout() {
    let mut pool = ObjectPool::new();
    let v = Value::from_string("Hi", &mut pool);
    let bytes = encode(&[v]);
    assert_eq!(&bytes[8..], &[2u8, 0, 0, 0, 0, 0, 0, 0, 2, b'H', b'i']);
}

#[test]
fn function_record_layout() {
    let mut pool = ObjectPool::new();
    let v = Value::from_function_literal("f", 2, &[0, 5, 1], &mut pool);
    let bytes = encode(&[v, Value::Bool(true)]);
    assert_eq!(
        &bytes[8..],
        &[3u8, 0, 0, 0, 0, 0, 0, 0, 1, b'f', 2, 0, 0, 0, 0, 0, 0, 0, 3, 0, 5, 1, 1, 1]
    );
}

#[test]
fn multibyte_text_round_trips() {
    let mut pool = ObjectPool::new();
    let v = Value::from_string("h\u{e9}llo \u{1f600}", &mut pool);
    let bytes = encode(&[v]);
    assert_eq!(&bytes[9..17], &[0u8, 0, 0, 0, 0, 0, 0, 11]);
    let (text, end) = read_string(&bytes, 9).unwrap();
    assert_eq!(text, "h\u{e9}llo \u{1f600}");
    assert_eq!(end, bytes.len());
}

#[test]
fn invalid_utf8_is_rejected() {
    let span = [0u8, 0, 0, 0, 0, 0, 0, 2, 0xff, 0xfe];
    assert_eq!(read_string(&span, 0), Err(DecodeError::InvalidUtf8));
    let mut file = vec![0u8, 0, 0, 0, 0, 0, 0, 1, 2];
    file.extend_from_slice(&span);
    let mut pool = ObjectPool::new();
    assert_eq!(read_values(&file, &mut pool).err(), Some(DecodeError::InvalidUtf8));
    assert!(pool.is_empty());
}

#[test]
fn unknown_tag_is_rejected() {
    let bytes = [0u8, 0, 0, 0, 0, 0, 0, 1, 7, 0];
    let mut pool = ObjectPool::new();
    assert_eq!(read_values(&bytes, &mut pool).err(), Some(DecodeError::UnknownTag(7)));
}

#[test]
fn truncated_input_is_rejected() {
    let mut pool = ObjectPool::new();
    assert_eq!(read_values(&[0u8, 0, 0], &mut pool).err(), Some(DecodeError::UnexpectedEnd));
    let short_int = [0u8, 0, 0, 0, 0, 0, 0, 1, 0, 0xff];
    assert_eq!(read_values(&short_int, &mut pool).err(), Some(DecodeError::UnexpectedEnd));
    let missing_record = [0u8, 0, 0, 0, 0, 0, 0, 2, 1, 1];
    assert_eq!(read_values(&missing_record, &mut pool).err(), Some(DecodeError::UnexpectedEnd));
    let long_span = [0u8, 0, 0, 0, 0, 0, 0, 1, 2, 0, 0, 0, 0, 0, 0, 0, 9, b'a'];
    assert_eq!(read_values(&long_span, &mut pool).err(), Some(DecodeError::UnexpectedEnd));
    let huge_span = [0u8, 0, 0, 0, 0, 0, 0, 1, 2, 0xff, 0xff, 0xff, 0xff, 0xff, 0xff, 0xff, 0xff];
    assert_eq!(read_values(&huge_span, &mut pool).err(), Some(DecodeError::UnexpectedEnd));
}

#[test]
fn bool_byte_other_than_one_reads_false() {
    let bytes = [0u8, 0, 0, 0, 0, 0, 0, 2, 1, 1, 1, 2];
    let mut pool = ObjectPool::new();
    let loaded = read_values(&bytes, &mut pool).unwrap();
    assert!(matches!(loaded[0], Value::Bool(true)));
    assert!(matches!(loaded[1], Value::Bool(false)));
}
