use anchor_litesvm::{decode_args, encode_args, Shape, Value};

fn text(s: &str) -> Value {
    Value::Text(s.to_string())
}

fn same(a: &Value, b: &Value) -> bool {
    match (a, b) {
        (Value::Bool(x), Value::Bool(y)) => x == y,
        (Value::U8(x), Value::U8(y)) => x == y,
        (Value::U16(x), Value::U16(y)) => x == y,
        (Value::U32(x), Value::U32(y)) => x == y,
        (Value::U64(x), Value::U64(y)) => x == y,
        (Value::U128(x), Value::U128(y)) => x == y,
        (Value::I8(x), Value::I8(y)) => x == y,
        (Value::I16(x), Value::I16(y)) => x == y,
        (Value::I32(x), Value::I32(y)) => x == y,
        (Value::I64(x), Value::I64(y)) => x == y,
        (Value::I128(x), Value::I128(y)) => x == y,
        (Value::Text(x), Value::Text(y)) => x == y,
        (Value::Bytes(x), Value::Bytes(y)) => x == y,
        (Value::Opt(None), Value::Opt(None)) => true,
        (Value::Opt(Some(x)), Value::Opt(Some(y))) => same(x, y),
        (Value::List(x), Value::List(y)) | (Value::Record(x), Value::Record(y)) => {
            x.len() == y.len() && x.iter().zip(y.iter()).all(|(p, q)| same(p, q))
        }
        _ => false,
    }
}

fn round_trip(args: Vec<Value>, shapes: Vec<Shape>) {
    let bytes = encode_args(&args);
    let back = decode_args(&shapes, &bytes).expect("the layout decodes");
    assert_eq!(back.len(), args.len());
    for (a, b) in args.iter().zip(back.iter()) {
        assert!(same(a, b));
    }
}

#[test]
fn integers_are_little_endian() {
    assert_eq!(encode_args(&vec![Value::U64(42)]), vec![42, 0, 0, 0, 0, 0, 0, 0]);
    assert_eq!(encode_args(&vec![Value::U16(0x1234)]), vec![0x34, 0x12]);
    assert_eq!(encode_args(&vec![Value::U32(0x0102_0304)]), vec![4, 3, 2, 1]);
    assert_eq!(encode_args(&vec![Value::U8(255)]), vec![255]);
    assert_eq!(encode_args(&vec![Value::U64(u64::MAX)]), vec![255; 8]);
}

#[test]
fn booleans_take_one_byte() {
    assert_eq!(encode_args(&vec![Value::Bool(true), Value::Bool(false)]), vec![1, 0]);
}

#[test]
fn text_has_a_length_prefix() {
    assert_eq!(encode_args(&vec![text("abc")]), vec![3, 0, 0, 0, b'a', b'b', b'c']);
    assert_eq!(encode_args(&vec![text("")]), vec![0, 0, 0, 0]);
    assert_eq!(encode_args(&vec![text("é")]), vec![2, 0, 0, 0, 0xc3, 0xa9]);
}

#[test]
fn options_have_a_presence_tag() {
    assert_eq!(encode_args(&vec![Value::Opt(None)]), vec![0]);
    assert_eq!(
        encode_args(&vec![Value::Opt(Some(Box::new(Value::U16(7))))]),
        vec![1, 7, 0]
    );
}

#[test]
fn lists_have_a_count_and_records_have_none() {
    let list = Value::List(vec![Value::U8(1), Value::U8(2)]);
    assert_eq!(encode_args(&vec![list]), vec![2, 0, 0, 0, 1, 2]);
    let record = Value::Record(vec![Value::U8(9), Value::Bool(true)]);
    assert_eq!(encode_args(&vec![record]), vec![9, 1]);
    assert_eq!(encode_args(&vec![Value::List(vec![])]), vec![0, 0, 0, 0]);
    assert_eq!(encode_args(&vec![Value::Bytes(vec![5, 6])]), vec![2, 0, 0, 0, 5, 6]);
}

#[test]
fn layout_matches_borsh() {
    let expected = borsh::to_vec(&(42u64, true, String::from("hi"), Some(3u32), vec![1u16, 2])).unwrap();
    let args = vec![
        Value::U64(42),
        Value::Bool(true),
        text("hi"),
        Value::Opt(Some(Box::new(Value::U32(3)))),
        Value::List(vec![Value::U16(1), Value::U16(2)]),
    ];
    assert_eq!(encode_args(&args), expected);
    let none: Option<u64> = None;
    assert_eq!(encode_args(&vec![Value::Opt(None)]), borsh::to_vec(&none).unwrap());
}

#[test]
fn round_trip_boundary_values() {
    round_trip(
        vec![
            Value::U64(0),
            Value::U64(u64::MAX),
            text(""),
            Value::List(vec![]),
            Value::Opt(None),
            Value::Bool(false),
            Value::U8(0),
            Value::U16(u16::MAX),
            Value::U32(u32::MAX),
            Value::Bytes(vec![]),
        ],
        vec![
            Shape::U64,
            Shape::U64,
            Shape::Text,
            Shape::List(Box::new(Shape::U8)),
            Shape::Opt(Box::new(Shape::Text)),
            Shape::Bool,
            Shape::U8,
            Shape::U16,
            Shape::U32,
            Shape::Bytes,
        ],
    );
}

#[test]
fn round_trip_nested_records() {
    let inner = Value::Record(vec![text("vault"), Value::Opt(Some(Box::new(Value::U64(7))))]);
    let args = vec![
        Value::Record(vec![Value::U32(1), inner]),
        Value::List(vec![
            Value::Record(vec![Value::Bool(true), Value::U8(2)]),
            Value::Record(vec![Value::Bool(false), Value::U8(3)]),
        ]),
    ];
    let inner_shape = Shape::Record(vec![Shape::Text, Shape::Opt(Box::new(Shape::U64))]);
    let shapes = vec![
        Shape::Record(vec![Shape::U32, inner_shape]),
        Shape::List(Box::new(Shape::Record(vec![Shape::Bool, Shape::U8]))),
    ];
    round_trip(args, shapes);
}

#[test]
fn decoding_rejects_malformed_input() {
    assert!(decode_args(&vec![Shape::Bool], &[2]).is_none());
    assert!(decode_args(&vec![Shape::U64], &[1, 2, 3]).is_none());
    assert!(decode_args(&vec![Shape::Text], &[5, 0, 0, 0, b'a']).is_none());
    assert!(decode_args(&vec![Shape::Text], &[2, 0, 0, 0, 0xff, 0xfe]).is_none());
    assert!(decode_args(&vec![Shape::Opt(Box::new(Shape::U8))], &[2, 1]).is_none());
    assert!(decode_args(&vec![Shape::U8], &[1, 2]).is_none());
}

#[test]
fn decoding_reads_text() {
    let back = decode_args(&vec![Shape::Text, Shape::U8], &[2, 0, 0, 0, b'o', b'k', 9]).unwrap();
    assert!(same(&back[0], &text("ok")));
    assert!(same(&back[1], &Value::U8(9)));
}

#[test]
fn signed_integers_are_twos_complement() {
    assert_eq!(encode_args(&vec![Value::I8(-1)]), vec![0xff]);
    assert_eq!(encode_args(&vec![Value::I16(-2)]), vec![0xfe, 0xff]);
    assert_eq!(encode_args(&vec![Value::I32(i32::MIN)]), vec![0, 0, 0, 0x80]);
    assert_eq!(encode_args(&vec![Value::I64(-42)]), borsh::to_vec(&(-42i64)).unwrap());
    assert_eq!(encode_args(&vec![Value::I128(i128::MIN)]), borsh::to_vec(&i128::MIN).unwrap());
    assert_eq!(encode_args(&vec![Value::I128(-7)]), borsh::to_vec(&(-7i128)).unwrap());
    assert_eq!(encode_args(&vec![Value::U128(u128::MAX)]), vec![0xff; 16]);
    assert_eq!(encode_args(&vec![Value::U128(300)]), borsh::to_vec(&300u128).unwrap());
}

#[test]
fn round_trip_signed_and_wide_integers() {
    round_trip(
        vec![
            Value::I8(i8::MIN),
            Value::I8(i8::MAX),
            Value::I16(-1),
            Value::I32(i32::MIN),
            Value::I64(i64::MIN),
            Value::I64(i64::MAX),
            Value::I64(0),
            Value::I128(i128::MIN),
            Value::I128(i128::MAX),
            Value::I128(-1),
            Value::U128(u128::MAX),
            Value::U128(0),
        ],
        vec![
            Shape::I8,
            Shape::I8,
            Shape::I16,
            Shape::I32,
            Shape::I64,
            Shape::I64,
            Shape::I64,
            Shape::I128,
            Shape::I128,
            Shape::I128,
            Shape::U128,
            Shape::U128,
        ],
    );
}
