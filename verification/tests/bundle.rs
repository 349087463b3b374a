use osc_codec::{
    create_osc_bundle, create_osc_bundle_at, create_osc_bundle_with, create_osc_message,
    current_timetag, parse, timetag, timetag_since_epoch, OscMessage, OscValue,
};
use std::time::{Duration, SystemTime, UNIX_EPOCH};

fn message(address: &str, value: OscValue) -> OscMessage {
    OscMessage { address: String::from(address), value }
}

fn three() -> [OscMessage; 3] {
    [
        message("/test_message/meme", OscValue::Int(42)),
        message("/test_message/meme2", OscValue::Float(3.14_f32.to_bits())),
        message("/test_message/meme3", OscValue::Bool(true)),
    ]
}

#[test]
fn serialize_osc_bundle() {
    let messages = three();

    let mut buf: [u8; 4096] = [0; 4096];
    let mut index: usize = 0;
    let len1 = create_osc_bundle(&mut buf, &messages, &mut index).unwrap();

    index = 1;
    let len2 = create_osc_bundle(&mut buf, &messages, &mut index).unwrap();

    assert!(
        len2 < len1,
        "Length of bundle was not calculated correctly. Second bundle should be smaller than the first."
    );
}

#[test]
fn bundle_bytes_are_exact() {
    let messages = [message("/a", OscValue::Int(9)), message("/test", OscValue::Bool(true))];
    let mut buf = [0xaa_u8; 64];
    let mut index = 0;
    let written = create_osc_bundle_at(&mut buf, 0x0102_0304_0506_0708, &messages, &mut index);
    assert_eq!(written, 16 + 4 + 12 + 4 + 12);
    assert_eq!(index, 2);
    let expected: [u8; 48] = [
        b'#', b'b', b'u', b'n', b'd', b'l', b'e', 0, // marker
        1, 2, 3, 4, 5, 6, 7, 8, // time tag
        0, 0, 0, 12, // length
        47, 97, 0, 0, 44, 105, 0, 0, 0, 0, 0, 9, // "/a" 9
        0, 0, 0, 12, // length
        47, 116, 101, 115, 116, 0, 0, 0, 44, 84, 0, 0, // "/test" true
    ];
    assert_eq!(buf[..48], expected);
    assert!(buf[48..].iter().all(|b| *b == 0xaa));
}

#[test]
fn bundle_elements_decode() {
    let messages = three();
    let mut buf = [0u8; 4096];
    let mut index = 0;
    let written = create_osc_bundle_at(&mut buf, 1, &messages, &mut index);
    assert_eq!(index, 3);
    let mut at = 16;
    for msg in messages.iter() {
        let len = u32::from_be_bytes([buf[at], buf[at + 1], buf[at + 2], buf[at + 3]]) as usize;
        let mut alone = [0u8; 64];
        assert_eq!(create_osc_message(&mut alone, msg), Some(len));
        assert_eq!(buf[at + 4..at + 4 + len], alone[..len]);
        assert_eq!(parse(&buf[at + 4..at + 4 + len]), Ok(msg.clone()));
        at += 4 + len;
    }
    assert_eq!(at, written);
}

#[test]
fn bundle_lengths_of_three_messages() {
    let messages = three();
    let mut buf = [0u8; 4096];
    let mut index = 0;
    // 16 + (4 + 28) + (4 + 28) + (4 + 24)
    assert_eq!(create_osc_bundle_at(&mut buf, 0, &messages, &mut index), 108);
    assert_eq!(index, 3);
    index = 1;
    assert_eq!(create_osc_bundle_at(&mut buf, 0, &messages, &mut index), 76);
    assert_eq!(index, 3);
    index = 2;
    assert_eq!(create_osc_bundle_at(&mut buf, 0, &messages, &mut index), 44);
    assert_eq!(index, 3);
    index = 3;
    assert_eq!(create_osc_bundle_at(&mut buf, 0, &messages, &mut index), 16);
    assert_eq!(index, 3);
}

#[test]
fn bundle_stops_where_the_buffer_is_full() {
    let messages = three();
    // Room for the header and the first two elements, one byte short of the third.
    let mut buf = [0xaa_u8; 107];
    let mut index = 0;
    assert_eq!(create_osc_bundle_at(&mut buf, 0, &messages, &mut index), 80);
    assert_eq!(index, 2);
    assert!(buf[80..].iter().all(|b| *b == 0xaa));

    let mut rest = [0xaa_u8; 107];
    assert_eq!(create_osc_bundle_at(&mut rest, 0, &messages, &mut index), 44);
    assert_eq!(index, 3);
    assert_eq!(parse(&rest[20..44]), Ok(messages[2].clone()));
}

#[test]
fn bundle_in_a_buffer_that_fits_exactly() {
    let messages = three();
    let mut buf = [0u8; 108];
    let mut index = 0;
    assert_eq!(create_osc_bundle_at(&mut buf, 0, &messages, &mut index), 108);
    assert_eq!(index, 3);
}

#[test]
fn bundle_never_writes_behind_the_buffer() {
    let messages = three();
    for cap in 0..130 {
        for start in 0..5 {
            let mut buf = vec![0xaa_u8; cap];
            let mut index = start;
            let written = create_osc_bundle_at(&mut buf, 7, &messages, &mut index);
            assert!(written <= cap);
            assert_eq!(buf.len(), cap);
            assert!(buf[written..].iter().all(|b| *b == 0xaa));
            assert!(index >= start);
            if start <= 3 {
                assert!(index <= 3);
            } else {
                assert_eq!(index, start);
            }
            if cap < 16 {
                assert_eq!(written, 0);
                assert_eq!(index, start);
            } else {
                assert!(written >= 16);
                assert_eq!(buf[..8], *b"#bundle\0");
            }
            if cap >= 108 && start <= 3 {
                assert_eq!(index, 3);
            }
        }
    }
}

#[test]
fn bundle_with_room_for_the_header_only() {
    let messages = three();
    let mut buf = [0xaa_u8; 16];
    let mut index = 0;
    assert_eq!(create_osc_bundle_at(&mut buf, 0xffff_ffff_ffff_ffff, &messages, &mut index), 16);
    assert_eq!(index, 0);
    assert_eq!(buf, [b'#', b'b', b'u', b'n', b'd', b'l', b'e', 0, 255, 255, 255, 255, 255, 255, 255, 255]);
}

#[test]
fn bundle_of_no_messages() {
    let mut buf = [0u8; 32];
    let mut index = 0;
    assert_eq!(create_osc_bundle_at(&mut buf, 0, &[], &mut index), 16);
    assert_eq!(index, 0);
}

#[test]
fn bundle_resumes_until_all_are_written() {
    let messages: Vec<OscMessage> =
        (0..40).map(|i| message("/test_message/meme", OscValue::Int(i))).collect();
    let mut index = 0;
    let mut seen = Vec::new();
    let mut rounds = 0;
    while index < messages.len() {
        let mut buf = [0u8; 100];
        let before = index;
        let written = create_osc_bundle_at(&mut buf, 0, &messages, &mut index);
        // 16 + 2 * (4 + 28) = 80; a third element would end at 112.
        assert_eq!(written, 80);
        assert_eq!(index, before + 2);
        let mut at = 16;
        while at < written {
            let len = u32::from_be_bytes([buf[at], buf[at + 1], buf[at + 2], buf[at + 3]]) as usize;
            seen.push(parse(&buf[at + 4..at + 4 + len]).unwrap());
            at += 4 + len;
        }
        rounds += 1;
    }
    assert_eq!(rounds, 20);
    assert_eq!(seen, messages);
}

#[test]
fn resuming_later_can_write_more() {
    // The long message ends the first bundle; without the short one before it, it fits.
    let messages = [
        message("/a", OscValue::Bool(true)),
        message("/a", OscValue::String(String::from("0123456789abcdef"))),
    ];
    let mut buf = [0u8; 48];
    let mut index = 0;
    assert_eq!(create_osc_bundle_at(&mut buf, 0, &messages, &mut index), 28);
    assert_eq!(index, 1);
    let mut index = 1;
    assert_eq!(create_osc_bundle_at(&mut buf, 0, &messages, &mut index), 48);
    assert_eq!(index, 2);
}

#[test]
fn resuming_after_a_complete_bundle_writes_less() {
    let messages = three();
    for k in 0..3 {
        let mut buf = [0u8; 4096];
        let mut first = k;
        let len1 = create_osc_bundle_at(&mut buf, 0, &messages, &mut first);
        let mut second = k + 1;
        let len2 = create_osc_bundle_at(&mut buf, 0, &messages, &mut second);
        assert_eq!(first, 3);
        assert!(len2 < len1);
    }
}

#[test]
fn timetag_has_seconds_above_nanoseconds() {
    assert_eq!(timetag(0, 0), 0);
    assert_eq!(timetag(1, 0), 0x1_0000_0000);
    assert_eq!(timetag(5, 6), 0x0000_0005_0000_0006);
    assert_eq!(timetag(1_700_000_000, 999_999_999), 0x6553_f100_3b9a_c9ff);
    assert_eq!(timetag(0xffff_ffff, 0xffff_ffff), 0xffff_ffff_ffff_ffff);
}

#[test]
fn timetag_keeps_the_low_half_of_the_seconds() {
    assert_eq!(timetag(0x1_0000_0000, 1), 1);
    assert_eq!(timetag(0x12_3456_789a, 0), 0x3456_789a_0000_0000);
}

#[test]
fn current_timetag_counts_nanoseconds_below_a_second() {
    let tag = current_timetag().unwrap();
    assert!(tag & 0xffff_ffff < 1_000_000_000);
    // The clock of this machine stands after the year 2001.
    assert!(tag >> 32 > 1_000_000_000);
}

#[test]
fn bundle_carries_the_current_time() {
    let messages = three();
    let mut buf = [0u8; 4096];
    let mut index = 0;
    let before = current_timetag().unwrap();
    let written = create_osc_bundle(&mut buf, &messages, &mut index).unwrap();
    let after = current_timetag().unwrap();
    assert_eq!(written, 108);
    assert_eq!(index, 3);
    assert_eq!(buf[..8], *b"#bundle\0");
    let mut tag = [0u8; 8];
    tag.copy_from_slice(&buf[8..16]);
    let tag = u64::from_be_bytes(tag);
    assert!(before <= tag && tag <= after);
    assert_eq!(parse(&buf[20..48]), Ok(messages[0].clone()));
}

#[test]
fn timetag_of_a_clock_after_the_epoch() {
    assert_eq!(timetag_since_epoch(Ok(Duration::new(5, 6))), Some(0x0000_0005_0000_0006));
    assert_eq!(timetag_since_epoch(Ok(Duration::new(0, 0))), Some(0));
    assert_eq!(
        timetag_since_epoch(Ok(Duration::new(1_700_000_000, 999_999_999))),
        Some(0x6553_f100_3b9a_c9ff)
    );
    assert_eq!(timetag_since_epoch(Ok(Duration::new(0x1_0000_0000, 1))), Some(1));
}

#[test]
fn no_timetag_for_a_clock_before_the_epoch() {
    let before = UNIX_EPOCH - Duration::new(10, 0);
    assert_eq!(timetag_since_epoch(before.duration_since(UNIX_EPOCH)), None);
    let now = SystemTime::now();
    assert!(timetag_since_epoch(now.duration_since(UNIX_EPOCH)).is_some());
}

#[test]
fn bundle_with_a_reading_of_the_clock() {
    let messages = three();
    let mut with = [0xaa_u8; 128];
    let mut at = [0xaa_u8; 128];
    let mut index = 0;
    let mut index_at = 0;
    let tag = 0x0102_0304_0506_0708;
    let written = create_osc_bundle_with(&mut with, Some(tag), &messages, &mut index);
    assert_eq!(written, Some(108));
    assert_eq!(written, Some(create_osc_bundle_at(&mut at, tag, &messages, &mut index_at)));
    assert_eq!(index, 3);
    assert_eq!(with, at);
    assert_eq!(with[8..16], [1, 2, 3, 4, 5, 6, 7, 8]);
}

#[test]
fn bundle_without_a_reading_of_the_clock() {
    let messages = three();
    let mut buf = [0xaa_u8; 128];
    let mut index = 1;
    assert_eq!(create_osc_bundle_with(&mut buf, None, &messages, &mut index), None);
    assert_eq!(index, 1);
    assert_eq!(buf, [0xaa_u8; 128]);
}
