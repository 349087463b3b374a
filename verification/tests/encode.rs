use osc_codec::{create_osc_message, encoded_len, parse, write_address, OscMessage, OscValue};

fn message(address: &str, value: OscValue) -> OscMessage {
    OscMessage { address: String::from(address), value }
}

#[test]
fn serialize_osc_message() {
    let mut buf: [u8; 4096] = [0; 4096];
    let osc_message = message("/test_message/meme", OscValue::Int(42));

    create_osc_message(&mut buf, &osc_message);
    match parse(&buf) {
        Ok(message) => {
            assert_eq!(message.address, "/test_message/meme", "Address was resolved incorrectly.");
            assert_eq!(message.value, OscValue::Int(42), "Value was resolved incorrectly.");
        }
        Err(_) => assert!(false, "Failed to parse message."),
    }
}

#[test]
fn encode_int_bytes() {
    let mut buf = [0xaa_u8; 20];
    let written = create_osc_message(&mut buf, &message("/test", OscValue::Int(9)));
    assert_eq!(written, Some(16));
    assert_eq!(
        buf,
        [
            47, 116, 101, 115, 116, 0, 0, 0, 44, 105, 0, 0, 0, 0, 0, 9, 0xaa, 0xaa, 0xaa, 0xaa
        ]
    );
}

#[test]
fn encode_negative_int_bytes() {
    let mut buf = [0u8; 12];
    assert_eq!(create_osc_message(&mut buf, &message("/a", OscValue::Int(-2))), Some(12));
    assert_eq!(buf, [47, 97, 0, 0, 44, 105, 0, 0, 0xff, 0xff, 0xff, 0xfe]);
    assert_eq!(create_osc_message(&mut buf, &message("/a", OscValue::Int(i32::MIN))), Some(12));
    assert_eq!(buf, [47, 97, 0, 0, 44, 105, 0, 0, 0x80, 0, 0, 0]);
}

#[test]
fn encode_float_bytes() {
    let mut buf = [0xaa_u8; 16];
    let value = OscValue::Float(69.42_f32.to_bits());
    assert_eq!(create_osc_message(&mut buf, &message("/test", value)), Some(16));
    assert_eq!(buf[..12], [47, 116, 101, 115, 116, 0, 0, 0, 44, 102, 0, 0]);
    assert_eq!(buf[12..], 69.42_f32.to_be_bytes());
}

#[test]
fn encode_bool_bytes() {
    let mut buf = [0xaa_u8; 12];
    assert_eq!(create_osc_message(&mut buf, &message("/test", OscValue::Bool(true))), Some(12));
    assert_eq!(buf, [47, 116, 101, 115, 116, 0, 0, 0, 44, 84, 0, 0]);
    assert_eq!(create_osc_message(&mut buf, &message("/test", OscValue::Bool(false))), Some(12));
    assert_eq!(buf, [47, 116, 101, 115, 116, 0, 0, 0, 44, 70, 0, 0]);
}

#[test]
fn encode_string_bytes() {
    let mut buf = [0xaa_u8; 24];
    let value = OscValue::String(String::from("hello"));
    assert_eq!(create_osc_message(&mut buf, &message("/test", value)), Some(20));
    assert_eq!(
        buf[..20],
        [47, 116, 101, 115, 116, 0, 0, 0, 44, 115, 0, 0, 104, 101, 108, 108, 111, 0, 0, 0]
    );
    assert_eq!(buf[20..], [0xaa; 4]);
}

#[test]
fn encode_string_that_fills_its_block() {
    let mut buf = [0xaa_u8; 16];
    let value = OscValue::String(String::from("abcd"));
    assert_eq!(create_osc_message(&mut buf, &message("/a", value)), Some(16));
    assert_eq!(buf, [47, 97, 0, 0, 44, 115, 0, 0, 97, 98, 99, 100, 0, 0, 0, 0]);
}

#[test]
fn encode_empty_string() {
    let mut buf = [0xaa_u8; 12];
    let value = OscValue::String(String::new());
    assert_eq!(create_osc_message(&mut buf, &message("/a", value)), Some(12));
    assert_eq!(buf, [47, 97, 0, 0, 44, 115, 0, 0, 0, 0, 0, 0]);
}

#[test]
fn encode_writes_the_padding() {
    // A buffer that is not zeroed beforehand gives the same message.
    let mut dirty = [0xff_u8; 12];
    let mut clean = [0u8; 12];
    let msg = message("/a", OscValue::Bool(true));
    assert_eq!(create_osc_message(&mut dirty, &msg), Some(8));
    assert_eq!(create_osc_message(&mut clean, &msg), Some(8));
    assert_eq!(dirty[..8], clean[..8]);
    assert_eq!(dirty, [47, 97, 0, 0, 44, 84, 0, 0, 0xff, 0xff, 0xff, 0xff]);
}

#[test]
fn encode_fails_in_a_short_buffer() {
    let msg = message("/test", OscValue::Int(9));
    for len in 0..16 {
        let mut buf = vec![0xaa_u8; len];
        assert_eq!(create_osc_message(&mut buf, &msg), None, "length {}", len);
        assert_eq!(buf, vec![0xaa_u8; len]);
    }
    let mut exact = [0u8; 16];
    assert_eq!(create_osc_message(&mut exact, &msg), Some(16));
}

#[test]
fn encode_fails_where_only_the_payload_is_too_long() {
    let msg = message("/a", OscValue::String(String::from("hello")));
    let mut buf = [0xaa_u8; 12];
    assert_eq!(create_osc_message(&mut buf, &msg), None);
    assert_eq!(buf, [0xaa_u8; 12]);
}

#[test]
fn encoded_len_is_what_is_written() {
    let msgs = [
        message("/a", OscValue::Bool(true)),
        message("/ab", OscValue::Int(1)),
        message("/abc", OscValue::Float(0)),
        message("/abcd", OscValue::String(String::from("xyz"))),
        message("/test_message/meme", OscValue::Int(42)),
    ];
    let expected = [8, 12, 16, 16, 28];
    for (msg, len) in msgs.iter().zip(expected) {
        assert_eq!(encoded_len(msg, 4096), Some(len));
        assert_eq!(encoded_len(msg, len), Some(len));
        assert_eq!(encoded_len(msg, len - 1), None);
        let mut buf = [0u8; 64];
        assert_eq!(create_osc_message(&mut buf, msg), Some(len));
    }
}

#[test]
fn write_address_pads_to_four() {
    let cases: [(&str, usize); 6] =
        [("/", 4), ("/a", 4), ("/ab", 4), ("/abc", 8), ("/abcd", 8), ("/abcdefg", 12)];
    for (address, len) in cases {
        let mut buf = [0xaa_u8; 16];
        let mut ix = 0;
        assert!(write_address(&mut buf, &mut ix, address));
        assert_eq!(ix, len, "{}", address);
        assert_eq!(ix % 4, 0);
        let n = address.len();
        assert_eq!(&buf[..n], address.as_bytes());
        assert!(buf[n..len].iter().all(|b| *b == 0));
        assert!(buf[len..].iter().all(|b| *b == 0xaa));
        assert_eq!(buf.iter().position(|b| *b == 0), Some(n));
    }
}

#[test]
fn write_address_at_a_cursor() {
    let mut buf = [0xaa_u8; 12];
    let mut ix = 4;
    assert!(write_address(&mut buf, &mut ix, "/test"));
    assert_eq!(ix, 12);
    assert_eq!(buf, [0xaa, 0xaa, 0xaa, 0xaa, 47, 116, 101, 115, 116, 0, 0, 0]);
}

#[test]
fn write_address_fails_without_room() {
    let mut buf = [0xaa_u8; 7];
    let mut ix = 0;
    assert!(!write_address(&mut buf, &mut ix, "/test"));
    assert_eq!(ix, 0);
    assert_eq!(buf, [0xaa_u8; 7]);

    let mut buf = [0xaa_u8; 8];
    let mut ix = 1;
    assert!(!write_address(&mut buf, &mut ix, "/test"));
    assert_eq!(ix, 1);
    assert_eq!(buf, [0xaa_u8; 8]);

    let mut ix = 9;
    assert!(!write_address(&mut buf, &mut ix, "/"));
    assert_eq!(ix, 9);
}

#[test]
fn write_address_writes_utf8() {
    let mut buf = [0xaa_u8; 8];
    let mut ix = 0;
    assert!(write_address(&mut buf, &mut ix, "/\u{e9}"));
    assert_eq!(ix, 4);
    assert_eq!(buf[..4], [47, 0xc3, 0xa9, 0]);
}

#[test]
fn type_tag_block_is_four_bytes() {
    let values = [
        (OscValue::Int(1), b'i'),
        (OscValue::Float(1), b'f'),
        (OscValue::Bool(true), b'T'),
        (OscValue::Bool(false), b'F'),
        (OscValue::String(String::from("x")), b's'),
    ];
    for (value, tag) in values {
        let mut buf = [0xaa_u8; 32];
        let written = create_osc_message(&mut buf, &message("/ab", value)).unwrap();
        assert_eq!(buf[4..8], [b',', tag, 0, 0]);
        assert!(written >= 8);
    }
}

#[test]
fn round_trip_of_each_type() {
    let msgs = [
        message("/test_message/meme", OscValue::Int(42)),
        message("/i", OscValue::Int(-1)),
        message("/i/min", OscValue::Int(i32::MIN)),
        message("/i/max", OscValue::Int(i32::MAX)),
        message("/f", OscValue::Float(3.14_f32.to_bits())),
        message("/f/nan", OscValue::Float(f32::NAN.to_bits())),
        message("/f/neg", OscValue::Float((-0.0_f32).to_bits())),
        message("/t", OscValue::Bool(true)),
        message("/f", OscValue::Bool(false)),
        message("/s", OscValue::String(String::from("hello"))),
        message("/s/empty", OscValue::String(String::new())),
        message("/", OscValue::Int(0)),
    ];
    for msg in msgs.iter() {
        assert!(msg.is_valid());
        let mut buf = [0x55_u8; 4096];
        let written = create_osc_message(&mut buf, msg).unwrap();
        assert_eq!(written % 4, 0);
        assert_eq!(parse(&buf), Ok(msg.clone()));
        assert_eq!(parse(&buf[..written]), Ok(msg.clone()));
    }
}

#[test]
fn validity() {
    assert!(message("/a", OscValue::Int(0)).is_valid());
    assert!(message("/", OscValue::Bool(true)).is_valid());
    assert!(message("/a", OscValue::String(String::from("plain"))).is_valid());
    assert!(!message("", OscValue::Int(0)).is_valid());
    assert!(!message("a", OscValue::Int(0)).is_valid());
    assert!(!message("/a\0b", OscValue::Int(0)).is_valid());
    assert!(!message("/\u{e9}", OscValue::Int(0)).is_valid());
    assert!(!message("/a", OscValue::String(String::from("a\0"))).is_valid());
    assert!(!message("/a", OscValue::String(String::from("\u{e9}"))).is_valid());
    assert!(OscValue::Float(7).is_valid());
    assert!(!OscValue::String(String::from("\u{80}")).is_valid());
}

#[test]
fn invalid_address_does_not_come_back() {
    let msg = message("/a\0b", OscValue::Bool(true));
    let mut buf = [0u8; 16];
    assert_eq!(create_osc_message(&mut buf, &msg), Some(12));
    assert_eq!(buf[..12], [47, 97, 0, 98, 0, 0, 0, 0, 44, 84, 0, 0]);
    assert!(parse(&buf) != Ok(msg));
}
