use cts6_emulator::clock::{local_time, LocalTime, MeetDate};
use cts6_emulator::protocol::{
    ascii_from_null_padded, assemble_frame, build_event_response, comm_test_ack, commit_ack, cts6_chk,
    event_response_for_year, finalize_ack, frame_rest_len, hex, identify_reply, load_ack,
    meet_status_reply, nack, no_data_reply, parse_request, slot_reply, status_reply_for, Request, Verb,
};
use cts6_emulator::race::{LaneResultRow, LaneTime, Race};

fn lane(touches: &[u32], dq: bool, place: u8) -> Option<LaneResultRow> {
    let lane = LaneTime { touches_ms: touches.to_vec(), dq, finished_at: None };
    Some(LaneResultRow { lane, place })
}

fn race(lanes: Vec<Option<LaneResultRow>>, splits_count: u8) -> Race {
    let mut lanes = lanes;
    while lanes.len() < 10 {
        lanes.push(None);
    }
    Race { event: 0x0203, heat: 4, id: 0x0506, lanes, splits_count }
}

fn le32(b: &[u8], at: usize) -> u32 {
    u32::from_le_bytes([b[at], b[at + 1], b[at + 2], b[at + 3]])
}

#[test]
fn checksums() {
    assert_eq!(cts6_chk(&[]), 0xFF);
    assert_eq!(cts6_chk(&[0xFF]), 0);
    assert_eq!(cts6_chk(&[0x80, 0x80]), 0xFF);
    let frame = [0x12u8, 0x34, 0xFE];
    let sum: u32 = frame.iter().map(|b| *b as u32).sum::<u32>() + cts6_chk(&frame) as u32;
    assert_eq!(sum % 256, 255);
}

#[test]
fn text_fields() {
    assert_eq!(ascii_from_null_padded(b"Girls\0\0\0"), "Girls");
    assert_eq!(ascii_from_null_padded(b"a\x07b\x7Fc~ \0zz"), "abc~ ");
    assert_eq!(ascii_from_null_padded(b"full"), "full");
    assert_eq!(ascii_from_null_padded(b"\0x"), "");
    assert_eq!(ascii_from_null_padded(&[0xC3, 0xA9, 0x41]), "A");
}

#[test]
fn a_short_event_frame() {
    let r = race(vec![lane(&[25_000], false, 1), None, lane(&[], true, 0), lane(&[2], false, 2)], 0);
    let b = event_response_for_year(&r, 2025);
    assert_eq!(b.len(), 219);
    assert_eq!(&b[..8], [0x05, 0x01, 0x03, 4, 0, 0, 0x06, 0x05]);
    assert_eq!(b[16], 0);
    assert_eq!(&b[40..49], [0xE9, 0x07, 0, 0, 0x03, 0x02, 4, 0, 0x06]);
    let base = 49;
    assert_eq!(b[base], 1);
    assert_eq!(le32(&b, base + 1), 25_000);
    assert_eq!(le32(&b, base + 5), 25_003);
    assert_eq!(&b[base + 9..base + 17], [0; 8]);
    assert_eq!(le32(&b, base + 17), 24_998);
    assert!(b[base + 21..base + 42].iter().all(|x| *x == 0));
    let dq = base + 42;
    assert_eq!(b[dq], 0xFF);
    assert_eq!((le32(&b, dq + 1), le32(&b, dq + 5), le32(&b, dq + 17)), (0, 3, 0));
    let fast = base + 63;
    assert_eq!((b[fast], le32(&b, fast + 17)), (2, 1));
    assert_eq!(&b[217..], [0x00, 0xFA]);
}

#[test]
fn a_long_event_frame() {
    let r = race(vec![lane(&[10, 20, 30], false, 1), lane(&[15, u32::MAX], false, 2)], 2);
    let b = event_response_for_year(&r, 1999);
    assert_eq!(b.len(), 49 + 8 * 29 + 2);
    assert_eq!(b[16], 8);
    assert_eq!(&b[40..42], [0xCF, 0x07]);
    assert_eq!((b[49], le32(&b, 50), le32(&b, 54), le32(&b, 58)), (1, 10, 20, 30));
    let second = 49 + 29;
    assert_eq!((b[second], le32(&b, second + 1), le32(&b, second + 5)), (2, 15, 0));
    assert_eq!(le32(&b, second + 9), u32::MAX);
    assert_eq!(le32(&b, second + 13), u32::MAX);
    assert_eq!(le32(&b, second + 25), u32::MAX - 2);
}

#[test]
fn lanes_nine_and_ten_are_not_on_the_wire() {
    let mut r = race(vec![], 0);
    r.lanes[8] = lane(&[1_000], false, 1);
    let empty = event_response_for_year(&race(vec![], 0), 2025);
    assert_eq!(event_response_for_year(&r, 2025), empty);
}

#[test]
fn the_frame_carries_the_current_year() {
    let r = race(vec![], 0);
    let b = build_event_response(&r);
    let year = cts6_emulator::clock::current_year();
    assert_eq!(b, event_response_for_year(&r, year));
}

fn fetch(b: &[u8]) -> (Verb, u8, u16) {
    match parse_request(b) {
        Request::Fetch { verb, heat, event } => (verb, heat, event),
        r => panic!("{r:?}"),
    }
}

#[test]
fn fixed_requests() {
    assert!(matches!(parse_request(&[0x05, 0x00, 0x57, 0xA3, 0xFF]), Request::Identify));
    assert!(matches!(parse_request(&[0x05, 0x00, 0x57, 0x8D, 0xFF]), Request::CommTest));
    assert!(matches!(parse_request(&[0x06, 0x00, 0x52, 0x72, 0x35, 0xFF]), Request::Commit));
    assert!(matches!(parse_request(&[0x05, 0x00, 0x54, 0xA6, 0xFF]), Request::MeetStatus));
}

#[test]
fn slot_requests() {
    assert!(matches!(parse_request(&[0x07, 0, 0x52, 0x73, 3, 0x31, 0xFF]), Request::Slot(3)));
    assert!(matches!(parse_request(&[0x07, 0, 0x49, 0x72, 7, 0x31, 0xFF]), Request::FinalizeSlot { slot: 7 }));
    assert!(matches!(parse_request(&[0x07, 0, 0x49, 0x72, 1, 0x31, 0xFE]), Request::FinalizeSlot { slot: 1 }));
    assert!(matches!(parse_request(&[0x07, 0, 0x52, 0x73, 3, 0x31, 0xFE]), Request::Unknown(_)));
}

#[test]
fn queries() {
    let short = |verb: u8, a: u8, b: u8| [0x0B, 0x00, 0x53, 0x53, 0x42, 0x49, verb, a, b, 0x99, 0xFE];
    assert_eq!(fetch(&short(0x45, 2, 9)), (Verb::Latest, 2, 9));
    assert_eq!(fetch(&short(0x4C, 1, 255)), (Verb::Previous, 1, 255));
    assert_eq!(fetch(&short(0x4E, 0, 0)), (Verb::Next, 0, 0));
    assert!(matches!(parse_request(&short(0x52, 42, 7)), Request::FetchByRace { race: 42 }));
    assert!(matches!(parse_request(&short(0x41, 1, 1)), Request::Unknown(_)));
    let long = |verb: u8| [0x0D, 0x01, 0x53, 0x53, 0x42, 0x49, verb, 3, 8, 0x2C, 0x01, 0x99, 0xFD];
    assert_eq!(fetch(&long(0x45)), (Verb::Latest, 3, 300));
    assert_eq!(fetch(&long(0x4C)), (Verb::Previous, 3, 300));
    assert_eq!(fetch(&long(0x4E)), (Verb::Next, 3, 300));
    assert!(matches!(parse_request(&long(0x52)), Request::Unknown(_)));
    let mut bad = short(0x45, 1, 1);
    bad[10] = 0xFD;
    assert!(matches!(parse_request(&bad), Request::Unknown(_)));
}

#[test]
fn download_frames() {
    let mut name = vec![0x1C, 0, 0x49, 0x73, 5];
    name.extend_from_slice(b"Spring Invitational\0\0");
    name.extend_from_slice(&[0x12, 0x34]);
    match parse_request(&name) {
        Request::LoadMeetName { slot, name } => assert_eq!((slot, name.as_str()), (5, "Spring Invitational")),
        r => panic!("{r:?}"),
    }
    let mut label = vec![0x18, 0, 0x49, 0x74, 2, 4];
    label.extend_from_slice(b"Butterfly\0\0\0\0\0\0\0");
    label.extend_from_slice(&[0x12, 0x34]);
    match parse_request(&label) {
        Request::LoadCategoryLabel { category, idx, label } => {
            assert_eq!((category, idx, label.as_str()), (2, 4, "Butterfly"))
        }
        r => panic!("{r:?}"),
    }
    let event = [0x12, 0, 0x49, 0x75, 5, 0x2C, 0x01, 0xC8, 0x00, 2, 0x0C, 0x10, 1, 2, 0, 0, 9, 9];
    match parse_request(&event) {
        Request::LoadEventRecord { slot, event_num, distance, gender_idx, stroke_idx, is_relay, is_clear } => {
            assert_eq!((slot, event_num, distance, gender_idx, stroke_idx), (5, 300, 200, 1, 2));
            assert!(is_relay && !is_clear);
        }
        r => panic!("{r:?}"),
    }
}

#[test]
fn clearing_records() {
    let record = |distance: u8, gender: u8, stroke: u8, relay: u8| {
        let b = [0x12, 0, 0x49, 0x75, 1, 7, 0, distance, 0, gender, stroke, relay, 0, 0, 0, 0, 9, 9];
        match parse_request(&b) {
            Request::LoadEventRecord { is_clear, gender_idx, stroke_idx, .. } => (is_clear, gender_idx, stroke_idx),
            r => panic!("{r:?}"),
        }
    };
    assert_eq!(record(0, 0, 0, 0), (true, 0, 0));
    assert_eq!(record(0, 0, 0, 1), (true, 0, 0));
    assert_eq!(record(0, 0, 0, 0x10), (true, 0, 0));
    assert_eq!(record(1, 0, 0, 0x10), (false, 0, 0));
    assert_eq!(record(1, 0, 0, 0), (false, 0, 0));
    assert_eq!(record(0, 1, 0, 0), (false, 0, 0));
    assert_eq!(record(0, 0, 5, 0), (false, 0, 0));
    assert_eq!(record(0, 3, 0x0B, 0), (false, 2, 1));
    let blank_relay = [0x12, 0, 0x49, 0x75, 1, 5, 0, 0, 0, 0, 0, 0x10, 0, 0, 0, 0, 0, 0];
    match parse_request(&blank_relay) {
        Request::LoadEventRecord { slot, event_num, is_clear, .. } => assert_eq!((slot, event_num, is_clear), (1, 5, true)),
        r => panic!("{r:?}"),
    }
}

#[test]
fn unknown_frames_keep_their_bytes() {
    for b in [&[][..], &[0], &[5, 0, 0x57], &[0x0B; 11]] {
        match parse_request(b) {
            Request::Unknown(bytes) => assert_eq!(bytes, b),
            r => panic!("{r:?}"),
        }
    }
}

#[test]
fn fixed_replies() {
    assert_eq!(identify_reply(), [0x0A, 0x00, 0x31, 0x2E, 0x32, 0x33, 0x32, 0x00, 0xFF, 0xFE]);
    assert_eq!(commit_ack(), [0x05, 0x00, 0x07, 0xF3, 0xFF]);
    assert_eq!(comm_test_ack(), [0x06, 0x00, 0x32, 0x01, 0x3B, 0xEB]);
    assert_eq!(load_ack(), [0x06, 0x00, 0x06, 0x00, 0xF3, 0xFF]);
    assert_eq!(finalize_ack(), [0x06, 0x00, 0x64, 0x00, 0x95, 0xFF]);
    assert_eq!(no_data_reply(), [0x06, 0x00, 0x32, 0x00, 0xC7, 0xFF]);
    assert_eq!(nack(), no_data_reply());
}

#[test]
fn slot_replies() {
    let b = slot_reply(3, "Dual");
    assert_eq!(b.len(), 26);
    assert_eq!(&b[..7], [0x1A, 0x00, 3, b'D', b'u', b'a', b'l']);
    assert!(b[7..25].iter().all(|x| *x == 0));
    assert_eq!(b[25], cts6_chk(&b[..25]));
    let long = slot_reply(1, "abcdefghijklmnopqrstuvwxyz");
    assert_eq!(&long[3..23], b"abcdefghijklmnopqrst");
    assert_eq!(long[23], 0);
}

#[test]
fn meet_status() {
    let b = meet_status_reply(&MeetDate { utc_secs: 1_709_210_096, offset_secs: 7_200 });
    assert_eq!(b.len(), 51);
    assert_eq!(b[0], 0x33);
    assert_eq!(&b[8..15], [56, 34, 14, 5, 2, 29, 24]);
    assert_eq!(&b[40..42], [0xE8, 0x07]);
    assert_eq!(b[50], 0xFB);
    assert!(b[1..8].iter().chain(&b[15..40]).chain(&b[42..50]).all(|x| *x == 0));
}

#[test]
fn years_in_the_meet_status() {
    let at = |year: i32| {
        let t = local_time(MeetDate { utc_secs: 0, offset_secs: 0 });
        let b = status_reply_for(LocalTime { year, ..t });
        (b[14], b[40], b[41])
    };
    assert_eq!(at(1999), (0, 0xCF, 0x07));
    assert_eq!(at(2000), (0, 0xD0, 0x07));
    assert_eq!(at(2255), (255, 0xCF, 0x08));
    assert_eq!(at(2256), (0, 0xD0, 0x08));
    assert_eq!(at(-1), (0, 0xFF, 0xFF));
    assert_eq!(at(70_000), (0, 0x70, 0x11));
}

#[test]
fn frames_are_length_prefixed() {
    assert_eq!(frame_rest_len(0), 0);
    assert_eq!(frame_rest_len(1), 0);
    assert_eq!(frame_rest_len(0x1C), 27);
    assert_eq!(frame_rest_len(255), 254);
    assert_eq!(assemble_frame(3, &[1, 2]), [3, 1, 2]);
    assert_eq!(assemble_frame(0, &[]), [0]);
}

#[test]
fn bytes_are_dumped_in_hexadecimal() {
    assert_eq!(hex(&[]), "");
    assert_eq!(hex(&[0x0A]), "0A");
    assert_eq!(hex(&[0x00, 0xFF, 0x1c]), "00 FF 1C");
}
