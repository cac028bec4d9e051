use bonsai_git_mapping::binary_protocol::{BinaryProtocolDeserializer, BinaryProtocolSerializer};
use bonsai_git_mapping::ttype::{MessageType, ProtocolError, TType};
use bytes::Buf;

const BOOL_VALUES: [bool; 2] = [false, true];
const BYTE_VALUES: [i8; 7] = [i8::MIN, i8::MIN + 1, -1, 0, 1, i8::MAX - 1, i8::MAX];
const INT16_VALUES: [i16; 9] = [
    i16::MIN,
    i16::MIN + 1,
    -256,
    -1,
    0,
    1,
    255,
    i16::MAX - 1,
    i16::MAX,
];
const INT32_VALUES: [i32; 11] = [
    i32::MIN,
    i32::MIN + 1,
    -65536,
    -256,
    -1,
    0,
    1,
    255,
    65535,
    i32::MAX - 1,
    i32::MAX,
];
const INT64_VALUES: [i64; 13] = [
    i64::MIN,
    i64::MIN + 1,
    -4294967296,
    -65536,
    -256,
    -1,
    0,
    1,
    255,
    65535,
    4294967295,
    i64::MAX - 1,
    i64::MAX,
];
const FLOAT_VALUES: [f32; 11] = [
    f32::NEG_INFINITY,
    f32::MIN,
    -1.0,
    -f32::MIN_POSITIVE,
    -0.0,
    0.0,
    f32::MIN_POSITIVE,
    1.0,
    f32::MAX,
    f32::INFINITY,
    f32::NAN,
];
const DOUBLE_VALUES: [f64; 11] = [
    f64::NEG_INFINITY,
    f64::MIN,
    -1.0,
    -f64::MIN_POSITIVE,
    -0.0,
    0.0,
    f64::MIN_POSITIVE,
    1.0,
    f64::MAX,
    f64::INFINITY,
    f64::NAN,
];

#[test]
fn read_write_bool_list() {
    let thetype = TType::Bool;
    let thelen = BOOL_VALUES.len();

    let mut p = BinaryProtocolSerializer::new();
    p.write_list_begin(thetype, thelen);
    for v in &BOOL_VALUES {
        p.write_bool(*v);
    }
    p.write_list_end();
    let buf = p.finish();

    let mut deserializer = BinaryProtocolDeserializer::new(buf);
    let (thetype2, thelen2) = deserializer
        .read_list_begin_unchecked()
        .expect("failed to read header");

    assert_eq!(thetype, thetype2);
    assert_eq!(Some(thelen), thelen2);

    for v in &BOOL_VALUES {
        assert_eq!(*v, deserializer.read_bool().expect("failed to read bool"));
    }
    deserializer
        .read_list_end()
        .expect("failed to read list end");
}

#[test]
fn read_write_string_list() {
    let string_values = vec![
        String::from(""),
        String::from("a"),
        String::from("st[uf]f"),
        String::from("st,u:ff with spaces"),
        String::from("stuff\twith\nescape\\characters'...\"lots{of}fun</xml>"),
    ];
    let thetype = TType::String;
    let thelen = string_values.len();

    let mut p = BinaryProtocolSerializer::new();
    p.write_list_begin(thetype, thelen);
    for v in &string_values {
        p.write_string(v);
    }
    p.write_list_end();
    let buf = p.finish();

    let mut deserializer = BinaryProtocolDeserializer::new(buf);
    let (thetype2, thelen2) = deserializer
        .read_list_begin_unchecked()
        .expect("failed to read header");

    assert_eq!(thetype, thetype2);
    assert_eq!(Some(thelen), thelen2);

    for v in &string_values {
        assert_eq!(
            *v,
            deserializer.read_string().expect("failed to read string")
        );
    }
    deserializer
        .read_list_end()
        .expect("failed to read list end");
}

#[test]
fn read_write_byte_list() {
    let thetype = TType::Byte;
    let thelen = BYTE_VALUES.len();

    let mut p = BinaryProtocolSerializer::new();
    p.write_list_begin(thetype, thelen);
    for v in &BYTE_VALUES {
        p.write_byte(*v);
    }
    p.write_list_end();
    let buf = p.finish();

    let mut deserializer = BinaryProtocolDeserializer::new(buf);
    let (thetype2, thelen2) = deserializer
        .read_list_begin_unchecked()
        .expect("failed to read header");

    assert_eq!(thetype, thetype2);
    assert_eq!(Some(thelen), thelen2);

    for v in &BYTE_VALUES {
        assert_eq!(*v, deserializer.read_byte().expect("failed to read byte"));
    }
    deserializer
        .read_list_end()
        .expect("failed to read list end");
}

#[test]
fn read_write_i16_list() {
    let thetype = TType::I16;
    let thelen = INT16_VALUES.len();

    let mut p = BinaryProtocolSerializer::new();
    p.write_list_begin(thetype, thelen);
    for v in &INT16_VALUES {
        p.write_i16(*v);
    }
    p.write_list_end();
    let buf = p.finish();

    let mut deserializer = BinaryProtocolDeserializer::new(buf);
    let (thetype2, thelen2) = deserializer
        .read_list_begin_unchecked()
        .expect("failed to read header");

    assert_eq!(thetype, thetype2);
    assert_eq!(Some(thelen), thelen2);

    for v in &INT16_VALUES {
        assert_eq!(*v, deserializer.read_i16().expect("failed to read i16"));
    }
    deserializer
        .read_list_end()
        .expect("failed to read list end");
}

#[test]
fn read_write_i32_list() {
    let thetype = TType::I32;
    let thelen = INT32_VALUES.len();

    let mut p = BinaryProtocolSerializer::new();
    p.write_list_begin(thetype, thelen);
    for v in &INT32_VALUES {
        p.write_i32(*v);
    }
    p.write_list_end();
    let buf = p.finish();

    let mut deserializer = BinaryProtocolDeserializer::new(buf);
    let (thetype2, thelen2) = deserializer
        .read_list_begin_unchecked()
        .expect("failed to read header");

    assert_eq!(thetype, thetype2);
    assert_eq!(Some(thelen), thelen2);

    for v in &INT32_VALUES {
        assert_eq!(*v, deserializer.read_i32().expect("failed to read i32"));
    }
    deserializer
        .read_list_end()
        .expect("failed to read list end");
}

#[test]
fn read_write_i64_list() {
    let thetype = TType::I64;
    let thelen = INT64_VALUES.len();

    let mut p = BinaryProtocolSerializer::new();
    p.write_list_begin(thetype, thelen);
    for v in &INT64_VALUES {
        p.write_i64(*v);
    }
    p.write_list_end();
    let buf = p.finish();

    let mut deserializer = BinaryProtocolDeserializer::new(buf);
    let (thetype2, thelen2) = deserializer
        .read_list_begin_unchecked()
        .expect("failed to read header");

    assert_eq!(thetype, thetype2);
    assert_eq!(Some(thelen), thelen2);

    for v in &INT64_VALUES {
        assert_eq!(*v, deserializer.read_i64().expect("failed to read i64"));
    }
    deserializer
        .read_list_end()
        .expect("failed to read list end");
}

#[test]
fn read_write_f32_list() {
    let thetype = TType::Float;
    let thelen = FLOAT_VALUES.len();

    let mut p = BinaryProtocolSerializer::new();
    p.write_list_begin(thetype, thelen);
    for v in &FLOAT_VALUES {
        p.write_float_bits(v.to_bits());
    }
    p.write_list_end();
    let buf = p.finish();

    let mut deserializer = BinaryProtocolDeserializer::new(buf);
    let (thetype2, thelen2) = deserializer
        .read_list_begin_unchecked()
        .expect("failed to read header");

    assert_eq!(thetype, thetype2);
    assert_eq!(Some(thelen), thelen2);

    for v in &FLOAT_VALUES {
        let val = f32::from_bits(deserializer.read_float_bits().expect("failed to read f32"));
        if v.is_nan() {
            assert!(val.is_nan());
        } else {
            assert_eq!(*v, val);
        }
    }
    deserializer
        .read_list_end()
        .expect("failed to read list end");
}

#[test]
fn read_write_f64_list() {
    let thetype = TType::Double;
    let thelen = DOUBLE_VALUES.len();

    let mut p = BinaryProtocolSerializer::new();
    p.write_list_begin(thetype, thelen);
    for v in &DOUBLE_VALUES {
        p.write_double_bits(v.to_bits());
    }
    p.write_list_end();
    let buf = p.finish();

    let mut deserializer = BinaryProtocolDeserializer::new(buf);
    let (thetype2, thelen2) = deserializer
        .read_list_begin_unchecked()
        .expect("failed to read header");

    assert_eq!(thetype, thetype2);
    assert_eq!(Some(thelen), thelen2);

    for v in &DOUBLE_VALUES {
        let val = f64::from_bits(deserializer.read_double_bits().expect("failed to read f64"));
        if v.is_nan() {
            assert!(val.is_nan());
        } else {
            assert_eq!(*v, val);
        }
    }
    deserializer
        .read_list_end()
        .expect("failed to read list end");
}

#[test]
fn read_write_f64_set() {
    let thetype = TType::Double;
    let thelen = DOUBLE_VALUES.len();

    let mut p = BinaryProtocolSerializer::new();
    p.write_set_begin(thetype, thelen);
    for v in &DOUBLE_VALUES {
        p.write_double_bits(v.to_bits());
    }
    p.write_list_end();
    let buf = p.finish();

    let mut deserializer = BinaryProtocolDeserializer::new(buf);
    let (thetype2, thelen2) = deserializer
        .read_set_begin_unchecked()
        .expect("failed to read header");

    assert_eq!(thetype, thetype2);
    assert_eq!(Some(thelen), thelen2);

    for v in &DOUBLE_VALUES {
        let val = f64::from_bits(deserializer.read_double_bits().expect("failed to read f64"));
        if v.is_nan() {
            assert!(val.is_nan());
        } else {
            assert_eq!(*v, val);
        }
    }
    assert!(deserializer.read_set_end().is_ok());
}

#[test]
fn read_write_string_i64_map() {
    let key_type = TType::String;
    let value_type = TType::I64;
    let thelen = INT64_VALUES.len();
    let string_keys: Vec<String> = INT64_VALUES.iter().map(|&v| v.to_string()).collect();

    let mut p = BinaryProtocolSerializer::new();
    p.write_map_begin(key_type, value_type, thelen);
    for (k, v) in string_keys.iter().zip(INT64_VALUES.iter()) {
        p.write_string(k);
        p.write_i64(*v);
    }
    p.write_map_end();
    let buf = p.finish();

    let mut deserializer = BinaryProtocolDeserializer::new(buf);
    let (key_type2, value_type2, thelen2) = deserializer
        .read_map_begin_unchecked()
        .expect("failed to read header");

    assert_eq!(key_type, key_type2);
    assert_eq!(value_type, value_type2);
    assert_eq!(Some(thelen), thelen2);

    for (k, v) in string_keys.iter().zip(INT64_VALUES.iter()) {
        assert_eq!(
            *k,
            deserializer.read_string().expect("failed to read string")
        );
        assert_eq!(*v, deserializer.read_i64().expect("failed to read i64"));
    }
    assert!(deserializer.read_map_end().is_ok());
}

#[test]
fn read_write_message() {
    let msg_name = String::from("hello_message");
    let msg_type = MessageType::Call;
    let seq_id = 1;

    let mut p = BinaryProtocolSerializer::new();
    p.write_message_begin(&msg_name, msg_type, seq_id);
    p.write_message_end();
    let buf = p.finish();

    let mut deserializer = BinaryProtocolDeserializer::new(buf);
    let (msg_name2, msg_type2, seq_id2) = deserializer
        .read_message_begin()
        .expect("failed to read message");
    let msg_name2 = String::from_utf8(msg_name2).expect("bad msg");
    assert_eq!(msg_name, msg_name2);
    assert_eq!(msg_type, msg_type2);
    assert_eq!(seq_id, seq_id2);

    assert!(deserializer.read_message_end().is_ok());
}

#[test]
fn write_message_begin() {
    // Version with the kind of the message in its low byte: [128, 1, 0, 1];
    // the name behind its length: [0, 0, 0, 4, 116, 101, 115, 116];
    // the sequence number: [0, 0, 0, 1].
    let mut serializer = BinaryProtocolSerializer::new();
    serializer.write_message_begin(
        "test",
        MessageType::from_code(1).expect("try_from failed"),
        1,
    );
    serializer.write_message_end();
    let buf = serializer.finish();

    let vec = vec![128, 1, 0, 1, 0, 0, 0, 4, 116, 101, 115, 116, 0, 0, 0, 1];

    assert_eq!(vec, buf);
}

#[test]
fn serializer_overflow() {
    let vec: Vec<u8> = (0..u8::MAX).collect();
    let mut p = BinaryProtocolSerializer::new();
    for i in 0..u8::MAX {
        p.write_byte(i as i8);
    }
    let buf = p.finish();

    assert_eq!(vec, buf);
}

#[test]
fn read_message_begin() {
    let vec = vec![128, 1, 0, 1, 0, 0, 0, 4, 116, 101, 115, 116, 0, 0, 0, 1];
    let mut deserializer = BinaryProtocolDeserializer::new(vec);

    let rmb = deserializer.read_message_begin();
    let _ = deserializer.read_message_end();

    match rmb {
        Ok((name, mty, sid)) => {
            assert_eq!(String::from_utf8(name).expect("bad msg"), "test");
            assert_eq!(mty, MessageType::from_code(1).expect("try_from failed"));
            assert_eq!(sid, 1);
        }
        Err(_) => panic!(),
    }
}

#[test]
fn deserializer_underflow() {
    let vec = vec![0u8, 0u8, 0u8, 1u8];
    let mut deserializer = BinaryProtocolDeserializer::new(vec);

    let last_val = deserializer.read_i32();

    match last_val {
        Ok(i) => assert_eq!(i, 1i32, "read incorrect value for last_val"),
        Err(_) => panic!("Error encoutered reading final i32 from vec"),
    };

    match deserializer.read_i32() {
        Ok(v) => panic!("got unexpected value {}", v),
        Err(ProtocolError::EOF) => {}
        Err(err) => panic!("got unexpected err {:?}", err),
    }
}

#[test]
fn read_binary_from_chained_buffer() {
    let buf1 = std::io::Cursor::new(b"\x00\x00\x00\x05hello\x00\x00\x00\x06 ");
    let buf2 = std::io::Cursor::new(b"world");
    let mut joined = buf1.chain(buf2);
    let bytes = joined.copy_to_bytes(joined.remaining()).to_vec();

    let mut deserializer = BinaryProtocolDeserializer::new(bytes);

    let result: Vec<u8> = deserializer
        .read_binary()
        .expect("read \"hello\" from the buffer");
    assert_eq!(result.as_slice(), b"hello");

    let result: Vec<u8> = deserializer
        .read_binary()
        .expect("read \" world\" from the buffer");
    assert_eq!(result.as_slice(), b" world");
}

#[test]
fn read_bool_refuses_other_bytes() {
    let mut deserializer = BinaryProtocolDeserializer::new(vec![2]);
    assert_eq!(deserializer.read_bool(), Err(ProtocolError::InvalidValue));
}

#[test]
fn read_binary_refuses_negative_length() {
    let mut deserializer = BinaryProtocolDeserializer::new(vec![0xff, 0xff, 0xff, 0xff, 1]);
    assert_eq!(
        deserializer.read_binary(),
        Err(ProtocolError::InvalidDataLength)
    );
}

#[test]
fn read_binary_refuses_short_input() {
    let mut deserializer = BinaryProtocolDeserializer::new(vec![0, 0, 0, 3, 1, 2]);
    assert_eq!(deserializer.read_binary(), Err(ProtocolError::EOF));
}

#[test]
fn read_string_refuses_bytes_that_are_not_utf8() {
    let mut deserializer = BinaryProtocolDeserializer::new(vec![0, 0, 0, 2, 0xc3, 0x28]);
    assert_eq!(deserializer.read_string(), Err(ProtocolError::InvalidUtf8));
}

#[test]
fn read_list_begin_refuses_unknown_tag() {
    let mut deserializer = BinaryProtocolDeserializer::new(vec![5, 0, 0, 0, 0]);
    assert_eq!(
        deserializer.read_list_begin_unchecked(),
        Err(ProtocolError::InvalidTypeTag)
    );
}

#[test]
fn read_message_begin_refuses_other_versions() {
    let mut deserializer =
        BinaryProtocolDeserializer::new(vec![128, 2, 0, 1, 0, 0, 0, 0, 0, 0, 0, 1]);
    assert_eq!(
        deserializer.read_message_begin(),
        Err(ProtocolError::BadVersion)
    );
}

#[test]
fn read_message_begin_refuses_unknown_kind() {
    let mut deserializer =
        BinaryProtocolDeserializer::new(vec![128, 1, 0, 9, 0, 0, 0, 0, 0, 0, 0, 1]);
    assert_eq!(
        deserializer.read_message_begin(),
        Err(ProtocolError::InvalidMessageType)
    );
}

#[test]
fn write_i32_is_big_endian_twos_complement() {
    let mut p = BinaryProtocolSerializer::new();
    p.write_i32(-2);
    p.write_i16(0x0102);
    p.write_i64(1);
    assert_eq!(
        p.finish(),
        vec![0xff, 0xff, 0xff, 0xfe, 1, 2, 0, 0, 0, 0, 0, 0, 0, 1]
    );
}

#[test]
fn type_tags_are_the_bytes_of_the_protocol() {
    assert_eq!(TType::Bool.tag(), 2);
    assert_eq!(TType::String.tag(), 11);
    assert_eq!(TType::TMap.tag(), 13);
    assert_eq!(TType::TSet.tag(), 14);
    assert_eq!(TType::List.tag(), 15);
    assert_eq!(TType::from_tag(19), Ok(TType::Float));
    assert_eq!(TType::from_tag(7), Err(ProtocolError::InvalidTypeTag));
    assert_eq!(MessageType::Oneway.code(), 4);
}
