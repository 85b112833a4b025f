use vitaoxipad::buttons::ButtonsData;
use vitaoxipad::codec::{
    decode_datagram, decode_payload, encode, encode_payload, DecodeError, Endpoint, Message, MotionBits, PadCodec,
    PadData,
};
use vitaoxipad::connection::{heartbeat_due, Connection, ConnectionError, ConnectionState, Event};
use vitaoxipad::report::TouchPoint;

fn pad(timestamp: u64) -> PadData {
    PadData {
        timestamp,
        buttons: ButtonsData {
            up: true,
            down: false,
            left: false,
            right: true,
            cross: true,
            circle: false,
            square: false,
            triangle: true,
            start: false,
            select: false,
            lt: true,
            rt: false,
            ps: false,
            vol_up: false,
            vol_down: true,
        },
        lx: 1,
        ly: 2,
        rx: 250,
        ry: 255,
        motion: MotionBits {
            accel_x: 0x3f80_0000,
            accel_y: 0xbf80_0000,
            accel_z: 0,
            gyro_x: 0x4120_0000,
            gyro_y: 0xdead_beef,
            gyro_z: 1,
        },
        charge_percent: 87,
        front_touch: vec![
            TouchPoint { id: 7, x: 1919, y: 1086, force: 3 },
            TouchPoint { id: 8, x: 0, y: 0, force: 0 },
        ],
        back_touch: vec![TouchPoint { id: 200, x: 300, y: 886, force: 255 }],
    }
}

fn same_pad(a: &PadData, b: &PadData) -> bool {
    a.timestamp == b.timestamp
        && a.buttons == b.buttons
        && (a.lx, a.ly, a.rx, a.ry) == (b.lx, b.ly, b.rx, b.ry)
        && a.motion == b.motion
        && a.charge_percent == b.charge_percent
        && a.front_touch == b.front_touch
        && a.back_touch == b.back_touch
}

fn decode_all(bytes: &[u8]) -> (Vec<Message>, Vec<u8>) {
    let mut codec = PadCodec::new();
    let mut buf = bytes.to_vec();
    let mut out = Vec::new();
    while let Ok(Some(m)) = codec.decode(&mut buf) {
        out.push(m);
    }
    (out, buf)
}

#[test]
fn handshake_frame_bytes() {
    let m = Message::Handshake { endpoint: Endpoint::Client, port: 0x1234, heartbeat_freq: 0 };
    assert_eq!(encode(&m), vec![8, 0, 0, 0, 0, 0, 0x34, 0x12, 0, 0, 0, 0]);
    assert_eq!(encode(&Message::Heartbeat), vec![1, 0, 0, 0, 1]);
    assert_eq!(
        encode(&Message::Config { polling_interval: 6000 }),
        vec![9, 0, 0, 0, 3, 0x70, 0x17, 0, 0, 0, 0, 0, 0]
    );
}

#[test]
fn pad_payload_length() {
    let p = encode_payload(&Message::Pad(pad(5)));
    assert_eq!(p.len(), 55 + 6 * 2 + 6);
    assert_eq!(p[0], 2);
    assert_eq!(p[53], 2);
    assert_eq!(p[54 + 12], 1);
}

#[test]
fn round_trip_each_message() {
    let msgs = vec![
        Message::Handshake { endpoint: Endpoint::Server, port: 5000, heartbeat_freq: 30 },
        Message::Heartbeat,
        Message::Config { polling_interval: u64::MAX },
        Message::Pad(pad(0x0102_0304_0506_0708)),
    ];
    for m in msgs {
        let (out, rest) = decode_all(&encode(&m));
        assert_eq!(out.len(), 1);
        assert!(rest.is_empty());
        match (&out[0], &m) {
            (Message::Pad(a), Message::Pad(b)) => assert!(same_pad(a, b)),
            (
                Message::Handshake { endpoint: end_a, port: port_a, heartbeat_freq: freq_a },
                Message::Handshake { endpoint: end_b, port: port_b, heartbeat_freq: freq_b },
            ) => assert_eq!((end_a, port_a, freq_a), (end_b, port_b, freq_b)),
            (Message::Heartbeat, Message::Heartbeat) => {},
            (Message::Config { polling_interval: a }, Message::Config { polling_interval: b }) => {
                assert_eq!(a, b)
            },
            _ => panic!("decoded a different message"),
        }
    }
}

#[test]
fn round_trip_empty_touch_lists() {
    let mut p = pad(9);
    p.front_touch.clear();
    p.back_touch.clear();
    let (out, rest) = decode_all(&encode(&Message::Pad(p.clone())));
    assert!(rest.is_empty());
    match &out[..] {
        [Message::Pad(q)] => assert!(same_pad(q, &p)),
        _ => panic!("expected one pad"),
    }
}

#[test]
fn chunked_delivery_decodes_both_messages() {
    let m1 = Message::Pad(pad(1));
    let m2 = Message::Pad(pad(2));
    let mut stream = encode(&m1);
    stream.extend(encode(&m2));
    for chunk in [1usize, 2, 3, 5, 7, 64, 1000] {
        let mut codec = PadCodec::new();
        let mut buf: Vec<u8> = Vec::new();
        let mut out = Vec::new();
        for part in stream.chunks(chunk) {
            buf.extend_from_slice(part);
            while let Ok(Some(m)) = codec.decode(&mut buf) {
                out.push(m);
            }
        }
        assert!(buf.is_empty());
        assert_eq!(out.len(), 2);
        match (&out[0], &out[1]) {
            (Message::Pad(a), Message::Pad(b)) => {
                assert_eq!(a.timestamp, 1);
                assert_eq!(b.timestamp, 2);
                assert!(same_pad(a, &pad(1)));
            },
            _ => panic!("expected two pads"),
        }
    }
}

#[test]
fn partial_frame_waits_for_more() {
    let bytes = encode(&Message::Heartbeat);
    let mut codec = PadCodec::new();
    let mut buf = bytes[..3].to_vec();
    assert_eq!(codec.decode(&mut buf).unwrap().is_none(), true);
    buf.extend_from_slice(&bytes[3..4]);
    assert!(codec.decode(&mut buf).unwrap().is_none());
    buf.extend_from_slice(&bytes[4..]);
    assert!(matches!(codec.decode(&mut buf), Ok(Some(Message::Heartbeat))));
    assert!(buf.is_empty());
}

#[test]
fn unknown_tag_and_bad_lengths() {
    assert_eq!(decode_payload(&[9]).unwrap_err(), DecodeError::UnknownTag(9));
    assert_eq!(decode_payload(&[]).unwrap_err(), DecodeError::Malformed);
    assert_eq!(decode_payload(&[1, 0]).unwrap_err(), DecodeError::Malformed);
    assert_eq!(decode_payload(&[0, 2, 0, 0, 0, 0, 0, 0]).unwrap_err(), DecodeError::Malformed);
    let mut p = encode_payload(&Message::Pad(pad(3)));
    p[53] = 7;
    assert_eq!(decode_payload(&p).unwrap_err(), DecodeError::Malformed);
    let mut q = encode_payload(&Message::Pad(pad(3)));
    q.pop();
    assert_eq!(decode_payload(&q).unwrap_err(), DecodeError::Malformed);
}

#[test]
fn decode_error_consumes_nothing() {
    let mut codec = PadCodec::new();
    let mut buf = vec![2, 0, 0, 0, 9, 9];
    assert_eq!(codec.decode(&mut buf).unwrap_err(), DecodeError::UnknownTag(9));
    assert_eq!(buf, vec![9, 9]);
    assert_eq!(codec.decode(&mut buf).unwrap_err(), DecodeError::UnknownTag(9));
}

fn established() -> Connection {
    let mut conn = Connection::new();
    conn.send_handshake(40000);
    assert_eq!(conn.state(), ConnectionState::HandshakeSent);
    let out = conn.retrieve_out_data();
    assert_eq!(out, vec![8, 0, 0, 0, 0, 0, 0x40, 0x9c, 0, 0, 0, 0]);
    assert!(conn.retrieve_out_data().is_empty());
    let answer = encode(&Message::Handshake { endpoint: Endpoint::Server, port: 0, heartbeat_freq: 30 });
    conn.receive_data(&answer);
    let events = conn.events();
    assert_eq!(events.len(), 1);
    assert!(matches!(events[0], Ok(Event::HandshakeResponseReceived { heartbeat_freq: 30 })));
    assert_eq!(conn.state(), ConnectionState::Established);
    conn
}

#[test]
fn connection_handshake_then_pads() {
    let mut conn = established();
    let mut stream = encode(&Message::Pad(pad(1)));
    stream.extend(encode(&Message::Heartbeat));
    stream.extend(encode(&Message::Pad(pad(2))));
    let mut seen = Vec::new();
    for part in stream.chunks(10) {
        conn.receive_data(part);
        for ev in conn.events() {
            seen.push(ev);
        }
    }
    assert_eq!(seen.len(), 3);
    assert!(matches!(&seen[0], Ok(Event::PadDataReceived { data }) if data.timestamp == 1));
    assert!(matches!(&seen[1], Ok(Event::HeartbeatReceived)));
    assert!(matches!(&seen[2], Ok(Event::PadDataReceived { data }) if same_pad(data, &pad(2))));
}

#[test]
fn pad_before_handshake_closes() {
    let mut conn = Connection::new();
    conn.send_handshake(1);
    conn.receive_data(&encode(&Message::Pad(pad(1))));
    let events = conn.events();
    assert_eq!(events.len(), 1);
    assert!(matches!(events[0], Err(ConnectionError::UnexpectedMessage)));
    assert_eq!(conn.state(), ConnectionState::Closed);
    conn.receive_data(&encode(&Message::Heartbeat));
    assert!(conn.events().is_empty());
}

#[test]
fn decode_error_closes_connection() {
    let mut conn = established();
    conn.receive_data(&[1, 0, 0, 0, 42]);
    let events = conn.events();
    assert_eq!(events.len(), 1);
    assert!(matches!(events[0], Err(ConnectionError::Decode(DecodeError::UnknownTag(42)))));
    assert_eq!(conn.state(), ConnectionState::Closed);
}

#[test]
fn heartbeat_and_config_bytes_are_queued() {
    let mut conn = Connection::new();
    conn.send_heartbeat();
    conn.send_config(7000);
    assert_eq!(
        conn.retrieve_out_data(),
        vec![1, 0, 0, 0, 1, 9, 0, 0, 0, 3, 0x58, 0x1b, 0, 0, 0, 0, 0, 0]
    );
    assert_eq!(conn.state(), ConnectionState::Init);
}

#[test]
fn datagram_keeps_frames_before_a_bad_one() {
    let mut bytes = encode(&Message::Pad(pad(4)));
    bytes.extend(encode(&Message::Heartbeat));
    bytes.extend([1, 0, 0, 0, 77]);
    bytes.extend(encode(&Message::Pad(pad(5))));
    let (messages, error) = decode_datagram(&bytes);
    assert_eq!(messages.len(), 2);
    assert!(matches!(&messages[0], Message::Pad(p) if same_pad(p, &pad(4))));
    assert!(matches!(messages[1], Message::Heartbeat));
    assert_eq!(error, Some(DecodeError::UnknownTag(77)));

    let whole = encode(&Message::Pad(pad(6)));
    let (messages, error) = decode_datagram(&whole[..whole.len() - 1]);
    assert!(messages.is_empty());
    assert_eq!(error, None);
}

#[test]
fn heartbeat_deadline_keeps_five_second_margin() {
    assert_eq!(heartbeat_due(30, 0), (false, 25));
    assert_eq!(heartbeat_due(30, 24), (false, 1));
    assert_eq!(heartbeat_due(30, 25), (true, 0));
    assert_eq!(heartbeat_due(30, 100), (true, 0));
    assert_eq!(heartbeat_due(3, 0), (true, 0));
}

#[test]
fn decoder_keeps_short_buffer_and_payload_on_error() {
    let mut codec = PadCodec::new();
    let mut buf = vec![5, 0];
    assert!(codec.decode(&mut buf).unwrap().is_none());
    assert_eq!(buf, vec![5, 0]);
    buf.extend([0, 0, 1, 2]);
    assert!(codec.decode(&mut buf).unwrap().is_none());
    assert_eq!(buf, vec![1, 2]);
}
