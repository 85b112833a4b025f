//! Framing and payloads of the protocol between client and Vita.
//!
//! A frame is a little-endian `u32` length and then that many payload bytes. The
//! payload layout here is this library's own fixed little-endian record (a tag byte,
//! then the fields in order). It is not the flatbuffers schema that the Vita server
//! speaks, so these bytes do not interoperate with a real Vita.
use vstd::prelude::*;
use crate::buttons::ButtonsData;
use crate::report::TouchPoint;

verus! {

/// Little-endian bytes of a `u16`.
pub open spec fn le16(v: u16) -> Seq<u8> {
    seq![v as u8, (v >> 8u16) as u8]
}

/// Little-endian bytes of a `u32`.
pub open spec fn le32(v: u32) -> Seq<u8> {
    seq![v as u8, (v >> 8u32) as u8, (v >> 16u32) as u8, (v >> 24u32) as u8]
}

/// Little-endian bytes of a `u64`.
pub open spec fn le64(v: u64) -> Seq<u8> {
    seq![
        v as u8,
        (v >> 8u64) as u8,
        (v >> 16u64) as u8,
        (v >> 24u64) as u8,
        (v >> 32u64) as u8,
        (v >> 40u64) as u8,
        (v >> 48u64) as u8,
        (v >> 56u64) as u8,
    ]
}

pub open spec fn join16(b0: u8, b1: u8) -> u16 {
    (b0 as u16) | ((b1 as u16) << 8u16)
}

pub open spec fn join32(b0: u8, b1: u8, b2: u8, b3: u8) -> u32 {
    (b0 as u32) | ((b1 as u32) << 8u32) | ((b2 as u32) << 16u32) | ((b3 as u32) << 24u32)
}

pub open spec fn join64(b0: u8, b1: u8, b2: u8, b3: u8, b4: u8, b5: u8, b6: u8, b7: u8) -> u64 {
    (b0 as u64) | ((b1 as u64) << 8u64) | ((b2 as u64) << 16u64) | ((b3 as u64) << 24u64) | ((
    b4 as u64) << 32u64) | ((b5 as u64) << 40u64) | ((b6 as u64) << 48u64) | ((b7 as u64)
        << 56u64)
}

/// The `u16` stored little-endian at offset `o`.
pub open spec fn u16_at(s: Seq<u8>, o: int) -> u16 {
    join16(s[o], s[o + 1])
}

/// The `u32` stored little-endian at offset `o`.
pub open spec fn u32_at(s: Seq<u8>, o: int) -> u32 {
    join32(s[o], s[o + 1], s[o + 2], s[o + 3])
}

/// The `u64` stored little-endian at offset `o`.
pub open spec fn u64_at(s: Seq<u8>, o: int) -> u64 {
    join64(s[o], s[o + 1], s[o + 2], s[o + 3], s[o + 4], s[o + 5], s[o + 6], s[o + 7])
}

proof fn lemma_join16(v: u16)
    ensures
        join16(v as u8, (v >> 8u16) as u8) == v,
{
    assert((((v as u8) as u16) | ((((v >> 8u16) as u8) as u16) << 8u16)) == v) by (bit_vector);
}

proof fn lemma_join32(v: u32)
    ensures
        join32(v as u8, (v >> 8u32) as u8, (v >> 16u32) as u8, (v >> 24u32) as u8) == v,
{
    assert((((v as u8) as u32) | ((((v >> 8u32) as u8) as u32) << 8u32) | ((((v >> 16u32) as u8)
        as u32) << 16u32) | ((((v >> 24u32) as u8) as u32) << 24u32)) == v) by (bit_vector);
}

proof fn lemma_join64(v: u64)
    ensures
        join64(
            v as u8,
            (v >> 8u64) as u8,
            (v >> 16u64) as u8,
            (v >> 24u64) as u8,
            (v >> 32u64) as u8,
            (v >> 40u64) as u8,
            (v >> 48u64) as u8,
            (v >> 56u64) as u8,
        ) == v,
{
    assert((((v as u8) as u64) | ((((v >> 8u64) as u8) as u64) << 8u64) | ((((v >> 16u64) as u8)
        as u64) << 16u64) | ((((v >> 24u64) as u8) as u64) << 24u64) | ((((v >> 32u64) as u8)
        as u64) << 32u64) | ((((v >> 40u64) as u8) as u64) << 40u64) | ((((v >> 48u64) as u8)
        as u64) << 48u64) | ((((v >> 56u64) as u8) as u64) << 56u64)) == v) by (bit_vector);
}

proof fn lemma_split32(b0: u8, b1: u8, b2: u8, b3: u8)
    ensures
        le32(join32(b0, b1, b2, b3)) == seq![b0, b1, b2, b3],
{
    let v = join32(b0, b1, b2, b3);
    assert(v as u8 == b0 && (v >> 8u32) as u8 == b1 && (v >> 16u32) as u8 == b2 && (v >> 24u32)
        as u8 == b3) by (bit_vector)
        requires
            v == (b0 as u32) | ((b1 as u32) << 8u32) | ((b2 as u32) << 16u32) | ((b3 as u32)
                << 24u32),
    ;
    assert(le32(v) =~= seq![b0, b1, b2, b3]);
}

/// Whether `s` holds `piece` at offset `o`.
pub open spec fn holds_at(s: Seq<u8>, o: int, piece: Seq<u8>) -> bool {
    0 <= o && o + piece.len() <= s.len() && forall|j: int|
        0 <= j < piece.len() ==> #[trigger] s[o + j] == piece[j]
}

proof fn lemma_u16_at(s: Seq<u8>, o: int, v: u16)
    requires
        holds_at(s, o, le16(v)),
    ensures
        u16_at(s, o) == v,
{
    assert(s[o + 0] == le16(v)[0]);
    assert(s[o + 1] == le16(v)[1]);
    lemma_join16(v);
}

proof fn lemma_u32_at(s: Seq<u8>, o: int, v: u32)
    requires
        holds_at(s, o, le32(v)),
    ensures
        u32_at(s, o) == v,
{
    assert(s[o + 0] == le32(v)[0]);
    assert(s[o + 1] == le32(v)[1]);
    assert(s[o + 2] == le32(v)[2]);
    assert(s[o + 3] == le32(v)[3]);
    lemma_join32(v);
}

proof fn lemma_u64_at(s: Seq<u8>, o: int, v: u64)
    requires
        holds_at(s, o, le64(v)),
    ensures
        u64_at(s, o) == v,
{
    assert(s[o + 0] == le64(v)[0]);
    assert(s[o + 1] == le64(v)[1]);
    assert(s[o + 2] == le64(v)[2]);
    assert(s[o + 3] == le64(v)[3]);
    assert(s[o + 4] == le64(v)[4]);
    assert(s[o + 5] == le64(v)[5]);
    assert(s[o + 6] == le64(v)[6]);
    assert(s[o + 7] == le64(v)[7]);
    lemma_join64(v);
}

fn push16(out: &mut Vec<u8>, v: u16)
    ensures
        final(out)@ == old(out)@ + le16(v),
{
    out.push(v as u8);
    out.push((v >> 8u16) as u8);
    assert(final(out)@ =~= old(out)@ + le16(v));
}

fn push32(out: &mut Vec<u8>, v: u32)
    ensures
        final(out)@ == old(out)@ + le32(v),
{
    out.push(v as u8);
    out.push((v >> 8u32) as u8);
    out.push((v >> 16u32) as u8);
    out.push((v >> 24u32) as u8);
    assert(final(out)@ =~= old(out)@ + le32(v));
}

fn push64(out: &mut Vec<u8>, v: u64)
    ensures
        final(out)@ == old(out)@ + le64(v),
{
    out.push(v as u8);
    out.push((v >> 8u64) as u8);
    out.push((v >> 16u64) as u8);
    out.push((v >> 24u64) as u8);
    out.push((v >> 32u64) as u8);
    out.push((v >> 40u64) as u8);
    out.push((v >> 48u64) as u8);
    out.push((v >> 56u64) as u8);
    assert(final(out)@ =~= old(out)@ + le64(v));
}

fn read16(s: &[u8], o: usize) -> (r: u16)
    requires
        o + 2 <= s@.len(),
    ensures
        r == u16_at(s@, o as int),
{
    (s[o] as u16) | ((s[o + 1] as u16) << 8u16)
}

fn read32(s: &[u8], o: usize) -> (r: u32)
    requires
        o + 4 <= s@.len(),
    ensures
        r == u32_at(s@, o as int),
{
    (s[o] as u32) | ((s[o + 1] as u32) << 8u32) | ((s[o + 2] as u32) << 16u32) | ((s[o + 3] as u32)
        << 24u32)
}

fn read64(s: &[u8], o: usize) -> (r: u64)
    requires
        o + 8 <= s@.len(),
    ensures
        r == u64_at(s@, o as int),
{
    (s[o] as u64) | ((s[o + 1] as u64) << 8u64) | ((s[o + 2] as u64) << 16u64) | ((s[o + 3] as u64)
        << 24u64) | ((s[o + 4] as u64) << 32u64) | ((s[o + 5] as u64) << 40u64) | ((s[o + 6]
        as u64) << 48u64) | ((s[o + 7] as u64) << 56u64)
}

/// Which side of the connection a handshake comes from.
#[derive(Clone, Copy, Debug, PartialEq, Eq, Structural)]
pub enum Endpoint {
    Client,
    Server,
}

/// Raw IEEE-754 bits of the six motion samples, as they travel on the wire.
#[derive(Clone, Copy, Debug, PartialEq, Eq, Structural)]
pub struct MotionBits {
    pub accel_x: u32,
    pub accel_y: u32,
    pub accel_z: u32,
    pub gyro_x: u32,
    pub gyro_y: u32,
    pub gyro_z: u32,
}

/// The content of a pad message.
#[derive(Clone, Debug)]
pub struct PadData {
    pub timestamp: u64,
    pub buttons: ButtonsData,
    pub lx: u8,
    pub ly: u8,
    pub rx: u8,
    pub ry: u8,
    pub motion: MotionBits,
    pub charge_percent: u8,
    pub front_touch: Vec<TouchPoint>,
    pub back_touch: Vec<TouchPoint>,
}

/// One message of the protocol.
#[derive(Clone, Debug)]
pub enum Message {
    /// Opens a session; the server's answer carries the heartbeat period in seconds.
    Handshake { endpoint: Endpoint, port: u16, heartbeat_freq: u32 },
    /// Keeps the session alive.
    Heartbeat,
    /// Asks the Vita to sample at this period, in microseconds.
    Config { polling_interval: u64 },
    /// One input report.
    Pad(PadData),
}

/// Most touches of the front surface in one report.
pub const MAX_FRONT_TOUCHES: usize = 6;
/// Most touches of the rear surface in one report.
pub const MAX_BACK_TOUCHES: usize = 4;

pub const TAG_HANDSHAKE: u8 = 0;
pub const TAG_HEARTBEAT: u8 = 1;
pub const TAG_PAD: u8 = 2;
pub const TAG_CONFIG: u8 = 3;

/// Offset of the front touch count in a pad payload.
pub const PAD_FRONT_COUNT: usize = 53;

pub open spec fn flag(b: bool) -> u8 {
    if b {
        1
    } else {
        0
    }
}

pub open spec fn buttons_bytes(b: ButtonsData) -> Seq<u8> {
    seq![
        flag(b.up),
        flag(b.down),
        flag(b.left),
        flag(b.right),
        flag(b.cross),
        flag(b.circle),
        flag(b.square),
        flag(b.triangle),
        flag(b.start),
        flag(b.select),
        flag(b.lt),
        flag(b.rt),
        flag(b.ps),
        flag(b.vol_up),
        flag(b.vol_down),
    ]
}

pub open spec fn motion_bytes(m: MotionBits) -> Seq<u8> {
    le32(m.accel_x) + le32(m.accel_y) + le32(m.accel_z) + le32(m.gyro_x) + le32(m.gyro_y) + le32(
        m.gyro_z,
    )
}

/// Six bytes: id, x, y, force.
pub open spec fn touch_bytes(t: TouchPoint) -> Seq<u8> {
    seq![t.id] + le16(t.x) + le16(t.y) + seq![t.force]
}

pub open spec fn touches_bytes(ts: Seq<TouchPoint>) -> Seq<u8>
    decreases ts.len(),
{
    if ts.len() == 0 {
        seq![]
    } else {
        touches_bytes(ts.drop_last()) + touch_bytes(ts.last())
    }
}

/// The fixed-size head of a pad payload, after the tag.
pub open spec fn pad_head(p: PadData) -> Seq<u8> {
    le64(p.timestamp) + buttons_bytes(p.buttons) + seq![p.lx, p.ly, p.rx, p.ry] + motion_bytes(
        p.motion,
    ) + seq![p.charge_percent]
}

/// The payload that encodes a message.
pub open spec fn payload(m: Message) -> Seq<u8> {
    match m {
        Message::Handshake { endpoint, port, heartbeat_freq } => seq![
            TAG_HANDSHAKE,
            if endpoint == Endpoint::Client {
                0u8
            } else {
                1u8
            },
        ] + le16(port) + le32(heartbeat_freq),
        Message::Heartbeat => seq![TAG_HEARTBEAT],
        Message::Config { polling_interval } => seq![TAG_CONFIG] + le64(polling_interval),
        Message::Pad(p) => seq![TAG_PAD] + pad_head(p) + seq![p.front_touch@.len() as u8]
            + touches_bytes(p.front_touch@) + seq![p.back_touch@.len() as u8] + touches_bytes(
            p.back_touch@,
        ),
    }
}

/// A frame: the payload's length as a little-endian `u32`, then the payload.
pub open spec fn frame(p: Seq<u8>) -> Seq<u8> {
    le32(p.len() as u32) + p
}

/// A message that the wire format can carry.
pub open spec fn message_fits(m: Message) -> bool {
    match m {
        Message::Pad(p) => p.front_touch@.len() <= MAX_FRONT_TOUCHES && p.back_touch@.len()
            <= MAX_BACK_TOUCHES,
        _ => true,
    }
}

/// Offset of the rear touch count in a pad payload with `c` front touches.
pub open spec fn back_count_at(c: int) -> int {
    PAD_FRONT_COUNT + 1 + 6 * c
}

/// Whether a payload is well formed: a known tag, the exact length its content
/// asks for, a known endpoint, and touch counts within the surfaces' limits.
pub open spec fn payload_ok(s: Seq<u8>) -> bool {
    s.len() >= 1 && if s[0] == TAG_HANDSHAKE {
        s.len() == 8 && s[1] <= 1
    } else if s[0] == TAG_HEARTBEAT {
        s.len() == 1
    } else if s[0] == TAG_CONFIG {
        s.len() == 9
    } else if s[0] == TAG_PAD {
        &&& s.len() > PAD_FRONT_COUNT
        &&& s[PAD_FRONT_COUNT as int] <= MAX_FRONT_TOUCHES
        &&& s.len() > back_count_at(s[PAD_FRONT_COUNT as int] as int)
        &&& s[back_count_at(s[PAD_FRONT_COUNT as int] as int)] <= MAX_BACK_TOUCHES
        &&& s.len() == back_count_at(s[PAD_FRONT_COUNT as int] as int) + 1 + 6 * s[back_count_at(
            s[PAD_FRONT_COUNT as int] as int,
        )]
    } else {
        false
    }
}

pub open spec fn touch_at(s: Seq<u8>, o: int) -> TouchPoint {
    TouchPoint { id: s[o], x: u16_at(s, o + 1), y: u16_at(s, o + 3), force: s[o + 5] }
}

/// The `n` touches stored from offset `o` on.
pub open spec fn touches_at(s: Seq<u8>, o: int, n: int) -> Seq<TouchPoint> {
    Seq::new(n as nat, |k: int| touch_at(s, o + 6 * k))
}

pub open spec fn buttons_at(s: Seq<u8>, o: int) -> ButtonsData {
    ButtonsData {
        up: s[o] != 0,
        down: s[o + 1] != 0,
        left: s[o + 2] != 0,
        right: s[o + 3] != 0,
        cross: s[o + 4] != 0,
        circle: s[o + 5] != 0,
        square: s[o + 6] != 0,
        triangle: s[o + 7] != 0,
        start: s[o + 8] != 0,
        select: s[o + 9] != 0,
        lt: s[o + 10] != 0,
        rt: s[o + 11] != 0,
        ps: s[o + 12] != 0,
        vol_up: s[o + 13] != 0,
        vol_down: s[o + 14] != 0,
    }
}

pub open spec fn motion_at(s: Seq<u8>, o: int) -> MotionBits {
    MotionBits {
        accel_x: u32_at(s, o),
        accel_y: u32_at(s, o + 4),
        accel_z: u32_at(s, o + 8),
        gyro_x: u32_at(s, o + 12),
        gyro_y: u32_at(s, o + 16),
        gyro_z: u32_at(s, o + 20),
    }
}

/// Whether `m` is the message that a well-formed payload holds.
pub open spec fn parses_to(s: Seq<u8>, m: Message) -> bool {
    match m {
        Message::Handshake { endpoint, port, heartbeat_freq } => {
            &&& s[0] == TAG_HANDSHAKE
            &&& endpoint == if s[1] == 0 {
                Endpoint::Client
            } else {
                Endpoint::Server
            }
            &&& port == u16_at(s, 2)
            &&& heartbeat_freq == u32_at(s, 4)
        },
        Message::Heartbeat => s[0] == TAG_HEARTBEAT,
        Message::Config { polling_interval } => s[0] == TAG_CONFIG && polling_interval == u64_at(
            s,
            1,
        ),
        Message::Pad(p) => {
            let c = s[PAD_FRONT_COUNT as int] as int;
            let d = s[back_count_at(c)] as int;
            &&& s[0] == TAG_PAD
            &&& p.timestamp == u64_at(s, 1)
            &&& p.buttons == buttons_at(s, 9)
            &&& p.lx == s[24] && p.ly == s[25] && p.rx == s[26] && p.ry == s[27]
            &&& p.motion == motion_at(s, 28)
            &&& p.charge_percent == s[52]
            &&& p.front_touch@ == touches_at(s, PAD_FRONT_COUNT + 1, c)
            &&& p.back_touch@ == touches_at(s, back_count_at(c) + 1, d)
        },
    }
}

/// Two messages carry the same content.
pub open spec fn same_message(a: Message, b: Message) -> bool {
    match (a, b) {
        (Message::Pad(p), Message::Pad(q)) => {
            &&& p.timestamp == q.timestamp
            &&& p.buttons == q.buttons
            &&& p.lx == q.lx && p.ly == q.ly && p.rx == q.rx && p.ry == q.ry
            &&& p.motion == q.motion
            &&& p.charge_percent == q.charge_percent
            &&& p.front_touch@ == q.front_touch@
            &&& p.back_touch@ == q.back_touch@
        },
        (Message::Pad(_), _) => false,
        (_, Message::Pad(_)) => false,
        _ => a == b,
    }
}

proof fn lemma_touches_bytes_len(ts: Seq<TouchPoint>)
    ensures
        touches_bytes(ts).len() == 6 * ts.len(),
    decreases ts.len(),
{
    if ts.len() > 0 {
        lemma_touches_bytes_len(ts.drop_last());
    }
}

fn push_touches(out: &mut Vec<u8>, ts: &Vec<TouchPoint>)
    ensures
        final(out)@ == old(out)@ + touches_bytes(ts@),
{
    let ghost start = old(out)@;
    let mut i: usize = 0;
    while i < ts.len()
        invariant
            i <= ts@.len(),
            out@ == start + touches_bytes(ts@.subrange(0, i as int)),
        decreases ts@.len() - i,
    {
        let t = ts[i];
        proof {
            assert(ts@.subrange(0, i + 1).drop_last() =~= ts@.subrange(0, i as int));
        }
        out.push(t.id);
        push16(out, t.x);
        push16(out, t.y);
        out.push(t.force);
        i = i + 1;
        proof {
            assert(out@ =~= start + touches_bytes(ts@.subrange(0, i as int)));
        }
    }
    assert(ts@.subrange(0, ts@.len() as int) =~= ts@);
}

fn flag_byte(b: bool) -> (r: u8)
    ensures
        r == flag(b),
{
    if b {
        1
    } else {
        0
    }
}

fn push_buttons(out: &mut Vec<u8>, b: ButtonsData)
    ensures
        final(out)@ == old(out)@ + buttons_bytes(b),
{
    let mut bytes = vec![
        flag_byte(b.up),
        flag_byte(b.down),
        flag_byte(b.left),
        flag_byte(b.right),
        flag_byte(b.cross),
        flag_byte(b.circle),
        flag_byte(b.square),
        flag_byte(b.triangle),
        flag_byte(b.start),
        flag_byte(b.select),
        flag_byte(b.lt),
        flag_byte(b.rt),
        flag_byte(b.ps),
        flag_byte(b.vol_up),
        flag_byte(b.vol_down),
    ];
    assert(bytes@ =~= buttons_bytes(b));
    out.append(&mut bytes);
}

fn push_motion(out: &mut Vec<u8>, m: MotionBits)
    ensures
        final(out)@ == old(out)@ + motion_bytes(m),
{
    let ghost start = old(out)@;
    push32(out, m.accel_x);
    push32(out, m.accel_y);
    push32(out, m.accel_z);
    push32(out, m.gyro_x);
    push32(out, m.gyro_y);
    push32(out, m.gyro_z);
    assert(out@ =~= start + motion_bytes(m));
}

fn push_pad_head(out: &mut Vec<u8>, p: &PadData)
    ensures
        final(out)@ == old(out)@ + pad_head(*p),
{
    let ghost start = old(out)@;
    push64(out, p.timestamp);
    push_buttons(out, p.buttons);
    out.push(p.lx);
    out.push(p.ly);
    out.push(p.rx);
    out.push(p.ry);
    push_motion(out, p.motion);
    out.push(p.charge_percent);
    assert(out@ =~= start + pad_head(*p));
}

/// The payload that encodes a message.
pub fn encode_payload(m: &Message) -> (r: Vec<u8>)
    requires
        message_fits(*m),
    ensures
        r@ == payload(*m),
        r@.len() <= 115,
{
    let mut out: Vec<u8> = Vec::new();
    match m {
        Message::Handshake { endpoint, port, heartbeat_freq } => {
            out.push(TAG_HANDSHAKE);
            out.push(
                match endpoint {
                    Endpoint::Client => 0u8,
                    Endpoint::Server => 1u8,
                },
            );
            push16(&mut out, *port);
            push32(&mut out, *heartbeat_freq);
        },
        Message::Heartbeat => {
            out.push(TAG_HEARTBEAT);
        },
        Message::Config { polling_interval } => {
            out.push(TAG_CONFIG);
            push64(&mut out, *polling_interval);
        },
        Message::Pad(p) => {
            out.push(TAG_PAD);
            push_pad_head(&mut out, p);
            out.push(p.front_touch.len() as u8);
            push_touches(&mut out, &p.front_touch);
            out.push(p.back_touch.len() as u8);
            push_touches(&mut out, &p.back_touch);
            proof {
                lemma_touches_bytes_len(p.front_touch@);
                lemma_touches_bytes_len(p.back_touch@);
            }
        },
    }
    assert(out@ =~= payload(*m));
    out
}

/// Encodes a message as a length-prefixed frame.
pub fn encode(m: &Message) -> (r: Vec<u8>)
    requires
        message_fits(*m),
    ensures
        r@ == frame(payload(*m)),
{
    let mut body = encode_payload(m);
    let mut out: Vec<u8> = Vec::new();
    push32(&mut out, body.len() as u32);
    out.append(&mut body);
    assert(out@ =~= frame(payload(*m)));
    out
}

/// Why a payload could not be read.
#[derive(Clone, Copy, Debug, PartialEq, Eq, Structural)]
pub enum DecodeError {
    /// The content tag names no known message.
    UnknownTag(u8),
    /// The payload is empty, has the wrong length for its content, or holds a value
    /// out of range.
    Malformed,
}

pub open spec fn known_tag(t: u8) -> bool {
    t == TAG_HANDSHAKE || t == TAG_HEARTBEAT || t == TAG_CONFIG || t == TAG_PAD
}

fn read_touches(s: &[u8], o: usize, n: usize) -> (r: Vec<TouchPoint>)
    requires
        o + 6 * n <= s@.len(),
    ensures
        r@ == touches_at(s@, o as int, n as int),
{
    let mut v: Vec<TouchPoint> = Vec::new();
    let mut k: usize = 0;
    let mut at: usize = o;
    while k < n
        invariant
            k <= n,
            at == o + 6 * k,
            o + 6 * n <= s@.len(),
            v@ == touches_at(s@, o as int, k as int),
        decreases n - k,
    {
        let t = TouchPoint { id: s[at], x: read16(s, at + 1), y: read16(s, at + 3), force: s[at + 5] };
        v.push(t);
        k = k + 1;
        at = at + 6;
        assert(v@ =~= touches_at(s@, o as int, k as int));
    }
    v
}

fn read_buttons(s: &[u8], o: usize) -> (r: ButtonsData)
    requires
        o + 15 <= s@.len(),
    ensures
        r == buttons_at(s@, o as int),
{
    ButtonsData {
        up: s[o] != 0,
        down: s[o + 1] != 0,
        left: s[o + 2] != 0,
        right: s[o + 3] != 0,
        cross: s[o + 4] != 0,
        circle: s[o + 5] != 0,
        square: s[o + 6] != 0,
        triangle: s[o + 7] != 0,
        start: s[o + 8] != 0,
        select: s[o + 9] != 0,
        lt: s[o + 10] != 0,
        rt: s[o + 11] != 0,
        ps: s[o + 12] != 0,
        vol_up: s[o + 13] != 0,
        vol_down: s[o + 14] != 0,
    }
}

fn read_pad(s: &[u8]) -> (r: Result<Message, DecodeError>)
    requires
        s@.len() >= 1,
        s@[0] == TAG_PAD,
    ensures
        r is Ok <==> payload_ok(s@),
        r matches Ok(m) ==> parses_to(s@, m),
        r matches Err(e) ==> e == DecodeError::Malformed,
{
    if s.len() <= PAD_FRONT_COUNT {
        return Err(DecodeError::Malformed);
    }
    let c = s[PAD_FRONT_COUNT] as usize;
    if c > MAX_FRONT_TOUCHES {
        return Err(DecodeError::Malformed);
    }
    let back_at = PAD_FRONT_COUNT + 1 + 6 * c;
    if s.len() <= back_at {
        return Err(DecodeError::Malformed);
    }
    let d = s[back_at] as usize;
    if d > MAX_BACK_TOUCHES {
        return Err(DecodeError::Malformed);
    }
    if s.len() != back_at + 1 + 6 * d {
        return Err(DecodeError::Malformed);
    }
    let m = MotionBits {
        accel_x: read32(s, 28),
        accel_y: read32(s, 32),
        accel_z: read32(s, 36),
        gyro_x: read32(s, 40),
        gyro_y: read32(s, 44),
        gyro_z: read32(s, 48),
    };
    let p = PadData {
        timestamp: read64(s, 1),
        buttons: read_buttons(s, 9),
        lx: s[24],
        ly: s[25],
        rx: s[26],
        ry: s[27],
        motion: m,
        charge_percent: s[52],
        front_touch: read_touches(s, PAD_FRONT_COUNT + 1, c),
        back_touch: read_touches(s, back_at + 1, d),
    };
    Ok(Message::Pad(p))
}

/// Reads the message that a payload holds.
pub fn decode_payload(s: &[u8]) -> (r: Result<Message, DecodeError>)
    ensures
        r is Ok <==> payload_ok(s@),
        r matches Ok(m) ==> parses_to(s@, m),
        r matches Err(e) ==> (e == DecodeError::UnknownTag(s@[0]) <==> s@.len() >= 1 && !known_tag(
            s@[0],
        )),
{
    if s.len() == 0 {
        return Err(DecodeError::Malformed);
    }
    let tag = s[0];
    if tag == TAG_HANDSHAKE {
        if s.len() != 8 || s[1] > 1 {
            return Err(DecodeError::Malformed);
        }
        let endpoint = if s[1] == 0 { Endpoint::Client } else { Endpoint::Server };
        Ok(Message::Handshake { endpoint, port: read16(s, 2), heartbeat_freq: read32(s, 4) })
    } else if tag == TAG_HEARTBEAT {
        if s.len() != 1 {
            return Err(DecodeError::Malformed);
        }
        Ok(Message::Heartbeat)
    } else if tag == TAG_CONFIG {
        if s.len() != 9 {
            return Err(DecodeError::Malformed);
        }
        Ok(Message::Config { polling_interval: read64(s, 1) })
    } else if tag == TAG_PAD {
        read_pad(s)
    } else {
        Err(DecodeError::UnknownTag(tag))
    }
}

proof fn lemma_holds_split(s: Seq<u8>, o: int, a: Seq<u8>, b: Seq<u8>)
    requires
        holds_at(s, o, a + b),
    ensures
        holds_at(s, o, a),
        holds_at(s, o + a.len(), b),
{
    assert forall|j: int| 0 <= j < a.len() implies #[trigger] s[o + j] == a[j] by {
        assert(s[o + j] == (a + b)[j]);
    }
    assert forall|j: int| 0 <= j < b.len() implies #[trigger] s[o + a.len() + j] == b[j] by {
        assert(s[o + (a.len() + j)] == (a + b)[a.len() + j]);
        assert(o + a.len() + j == o + (a.len() + j));
    }
}

proof fn lemma_touch_at(s: Seq<u8>, o: int, t: TouchPoint)
    requires
        holds_at(s, o, touch_bytes(t)),
    ensures
        touch_at(s, o) == t,
{
    let tb = touch_bytes(t);
    assert(s[o + 0] == tb[0]);
    assert(s[o + 5] == tb[5]);
    assert forall|j: int| 0 <= j < 2 implies #[trigger] s[o + 1 + j] == le16(t.x)[j] by {
        assert(s[o + (1 + j)] == tb[1 + j]);
        assert(o + 1 + j == o + (1 + j));
    }
    assert forall|j: int| 0 <= j < 2 implies #[trigger] s[o + 3 + j] == le16(t.y)[j] by {
        assert(s[o + (3 + j)] == tb[3 + j]);
        assert(o + 3 + j == o + (3 + j));
    }
    lemma_u16_at(s, o + 1, t.x);
    lemma_u16_at(s, o + 3, t.y);
}

proof fn lemma_touches_at(s: Seq<u8>, o: int, ts: Seq<TouchPoint>)
    requires
        holds_at(s, o, touches_bytes(ts)),
    ensures
        touches_at(s, o, ts.len() as int) == ts,
    decreases ts.len(),
{
    if ts.len() > 0 {
        let init = ts.drop_last();
        lemma_holds_split(s, o, touches_bytes(init), touch_bytes(ts.last()));
        lemma_touches_at(s, o, init);
        lemma_touches_bytes_len(init);
        lemma_touch_at(s, o + 6 * init.len(), ts.last());
        assert(touches_at(s, o, ts.len() as int) =~= ts) by {
            assert forall|k: int| 0 <= k < ts.len() implies touches_at(s, o, ts.len() as int)[k]
                == ts[k] by {
                if k < init.len() {
                    assert(touches_at(s, o, init.len() as int)[k] == init[k]);
                }
            }
        }
    }
}

proof fn lemma_flags(s: Seq<u8>, o: int, b: ButtonsData)
    requires
        holds_at(s, o, buttons_bytes(b)),
    ensures
        buttons_at(s, o) == b,
{
    let bb = buttons_bytes(b);
    assert(s[o + 0] == bb[0]);
    assert(s[o + 1] == bb[1]);
    assert(s[o + 2] == bb[2]);
    assert(s[o + 3] == bb[3]);
    assert(s[o + 4] == bb[4]);
    assert(s[o + 5] == bb[5]);
    assert(s[o + 6] == bb[6]);
    assert(s[o + 7] == bb[7]);
    assert(s[o + 8] == bb[8]);
    assert(s[o + 9] == bb[9]);
    assert(s[o + 10] == bb[10]);
    assert(s[o + 11] == bb[11]);
    assert(s[o + 12] == bb[12]);
    assert(s[o + 13] == bb[13]);
    assert(s[o + 14] == bb[14]);
}

proof fn lemma_motion(s: Seq<u8>, o: int, m: MotionBits)
    requires
        holds_at(s, o, motion_bytes(m)),
    ensures
        motion_at(s, o) == m,
{
    let m5 = le32(m.accel_x) + le32(m.accel_y) + le32(m.accel_z) + le32(m.gyro_x) + le32(m.gyro_y);
    let m4 = le32(m.accel_x) + le32(m.accel_y) + le32(m.accel_z) + le32(m.gyro_x);
    let m3 = le32(m.accel_x) + le32(m.accel_y) + le32(m.accel_z);
    let m2 = le32(m.accel_x) + le32(m.accel_y);
    lemma_holds_split(s, o, m5, le32(m.gyro_z));
    lemma_holds_split(s, o, m4, le32(m.gyro_y));
    lemma_holds_split(s, o, m3, le32(m.gyro_x));
    lemma_holds_split(s, o, m2, le32(m.accel_z));
    lemma_holds_split(s, o, le32(m.accel_x), le32(m.accel_y));
    lemma_u32_at(s, o, m.accel_x);
    lemma_u32_at(s, o + 4, m.accel_y);
    lemma_u32_at(s, o + 8, m.accel_z);
    lemma_u32_at(s, o + 12, m.gyro_x);
    lemma_u32_at(s, o + 16, m.gyro_y);
    lemma_u32_at(s, o + 20, m.gyro_z);
}

proof fn lemma_pad_layout(p: PadData)
    ensures
        ({
            let s = payload(Message::Pad(p));
            let c = p.front_touch@.len() as int;
            let d = p.back_touch@.len() as int;
            &&& s.len() == back_count_at(c) + 1 + 6 * d
            &&& s[0] == TAG_PAD
            &&& holds_at(s, 1, le64(p.timestamp))
            &&& holds_at(s, 9, buttons_bytes(p.buttons))
            &&& s[24] == p.lx && s[25] == p.ly && s[26] == p.rx && s[27] == p.ry
            &&& holds_at(s, 28, motion_bytes(p.motion))
            &&& s[52] == p.charge_percent
            &&& s[PAD_FRONT_COUNT as int] == c as u8
            &&& holds_at(s, PAD_FRONT_COUNT + 1, touches_bytes(p.front_touch@))
            &&& s[back_count_at(c)] == d as u8
            &&& holds_at(s, back_count_at(c) + 1, touches_bytes(p.back_touch@))
        }),
{
    let s = payload(Message::Pad(p));
    let f = p.front_touch@;
    let b = p.back_touch@;
    let head = pad_head(p);
    let first = seq![TAG_PAD] + head;
    let second = first + seq![f.len() as u8];
    let third = second + touches_bytes(f);
    let fourth = third + seq![b.len() as u8];
    assert(s == fourth + touches_bytes(b));
    assert(holds_at(s, 0, s));
    lemma_touches_bytes_len(f);
    lemma_touches_bytes_len(b);
    lemma_holds_split(s, 0, fourth, touches_bytes(b));
    lemma_holds_split(s, 0, third, seq![b.len() as u8]);
    lemma_holds_split(s, 0, second, touches_bytes(f));
    lemma_holds_split(s, 0, first, seq![f.len() as u8]);
    lemma_holds_split(s, 0, seq![TAG_PAD], head);
    let h4 = le64(p.timestamp) + buttons_bytes(p.buttons) + seq![p.lx, p.ly, p.rx, p.ry]
        + motion_bytes(p.motion);
    let h3 = le64(p.timestamp) + buttons_bytes(p.buttons) + seq![p.lx, p.ly, p.rx, p.ry];
    let h2 = le64(p.timestamp) + buttons_bytes(p.buttons);
    lemma_holds_split(s, 1, h4, seq![p.charge_percent]);
    lemma_holds_split(s, 1, h3, motion_bytes(p.motion));
    lemma_holds_split(s, 1, h2, seq![p.lx, p.ly, p.rx, p.ry]);
    lemma_holds_split(s, 1, le64(p.timestamp), buttons_bytes(p.buttons));
    assert(s[0int + 0] == seq![TAG_PAD][0]);
    assert(s[1int + 23 + 0] == seq![p.lx, p.ly, p.rx, p.ry][0]);
    assert(s[1int + 23 + 1] == seq![p.lx, p.ly, p.rx, p.ry][1]);
    assert(s[1int + 23 + 2] == seq![p.lx, p.ly, p.rx, p.ry][2]);
    assert(s[1int + 23 + 3] == seq![p.lx, p.ly, p.rx, p.ry][3]);
    assert(s[1int + 51 + 0] == seq![p.charge_percent][0]);
    assert(s[53int + 0] == seq![f.len() as u8][0]);
    assert(s[back_count_at(f.len() as int) + 0] == seq![b.len() as u8][0]);
}

#[verifier::rlimit(40)]
proof fn lemma_pad_round_trip(p: PadData)
    requires
        message_fits(Message::Pad(p)),
    ensures
        payload_ok(payload(Message::Pad(p))),
        forall|m2: Message|
            parses_to(payload(Message::Pad(p)), m2) ==> same_message(m2, Message::Pad(p)),
{
    let s = payload(Message::Pad(p));
    let f = p.front_touch@;
    let b = p.back_touch@;
    lemma_pad_layout(p);
    lemma_u64_at(s, 1, p.timestamp);
    lemma_flags(s, 9, p.buttons);
    lemma_motion(s, 28, p.motion);
    lemma_touches_at(s, PAD_FRONT_COUNT + 1, f);
    lemma_touches_at(s, back_count_at(f.len() as int) + 1, b);
    assert(s[PAD_FRONT_COUNT as int] as int == f.len());
    assert(s[back_count_at(f.len() as int)] as int == b.len());
}

/// Reading back the payload of any message the wire format can carry gives that
/// message: the payload is well formed, and every message it parses to has the same
/// content.
pub proof fn lemma_payload_round_trip(m: Message)
    requires
        message_fits(m),
    ensures
        payload_ok(payload(m)),
        forall|m2: Message| parses_to(payload(m), m2) ==> same_message(m2, m),
{
    let s = payload(m);
    match m {
        Message::Handshake { endpoint, port, heartbeat_freq } => {
            let e: u8 = if endpoint == Endpoint::Client { 0u8 } else { 1u8 };
            let a = seq![TAG_HANDSHAKE, e];
            assert(s == a + le16(port) + le32(heartbeat_freq));
            assert(holds_at(s, 0, s));
            lemma_holds_split(s, 0, a + le16(port), le32(heartbeat_freq));
            lemma_holds_split(s, 0, a, le16(port));
            lemma_u16_at(s, 2, port);
            lemma_u32_at(s, 4, heartbeat_freq);
            assert(s[0] == TAG_HANDSHAKE && s[1] == e);
        },
        Message::Heartbeat => {},
        Message::Config { polling_interval } => {
            assert(holds_at(s, 0, s));
            lemma_holds_split(s, 0, seq![TAG_CONFIG], le64(polling_interval));
            lemma_u64_at(s, 1, polling_interval);
        },
        Message::Pad(p) => {
            lemma_pad_round_trip(p);
        },
    }
}

/// Whether a byte stream starts with a complete frame.
pub open spec fn has_frame(p: Seq<u8>) -> bool {
    p.len() >= 4 && p.len() >= 4 + u32_at(p, 0)
}

/// The payload of the frame a stream starts with.
pub open spec fn frame_payload(p: Seq<u8>) -> Seq<u8> {
    p.subrange(4, 4 + u32_at(p, 0))
}

/// What follows the frame a stream starts with.
pub open spec fn frame_rest(p: Seq<u8>) -> Seq<u8> {
    p.subrange(4 + u32_at(p, 0), p.len() as int)
}

/// The bytes a decoder has taken in and not yet turned into a message: the size it
/// has read, if any, then its buffer.
pub open spec fn pending(size: Option<u32>, buf: Seq<u8>) -> Seq<u8> {
    match size {
        Some(l) => le32(l) + buf,
        None => buf,
    }
}

/// A frame holding any payload that fits splits back into that payload and what
/// follows it.
pub proof fn lemma_frame_split(pl: Seq<u8>, rest: Seq<u8>)
    requires
        pl.len() <= u32::MAX,
    ensures
        has_frame(frame(pl) + rest),
        frame_payload(frame(pl) + rest) == pl,
        frame_rest(frame(pl) + rest) == rest,
{
    let p = frame(pl) + rest;
    assert(holds_at(p, 0, le32(pl.len() as u32))) by {
        assert forall|j: int| 0 <= j < 4 implies #[trigger] p[0 + j] == le32(pl.len() as u32)[j] by {
            assert(p[0 + j] == frame(pl)[j]);
        }
    }
    lemma_u32_at(p, 0, pl.len() as u32);
    assert(frame_payload(p) =~= pl);
    assert(frame_rest(p) =~= rest);
}

/// Streaming decoder of length-prefixed frames.
pub struct PadCodec {
    size: Option<u32>,
}

fn take_front(v: &Vec<u8>, n: usize) -> (r: Vec<u8>)
    requires
        n <= v@.len(),
    ensures
        r@ == v@.subrange(0, n as int),
{
    let mut r: Vec<u8> = Vec::new();
    let mut i: usize = 0;
    while i < n
        invariant
            i <= n,
            n <= v@.len(),
            r@ == v@.subrange(0, i as int),
        decreases n - i,
    {
        r.push(v[i]);
        i = i + 1;
        assert(r@ =~= v@.subrange(0, i as int));
    }
    r
}

fn drop_front(v: &mut Vec<u8>, n: usize)
    requires
        n <= old(v)@.len(),
    ensures
        final(v)@ == old(v)@.subrange(n as int, old(v)@.len() as int),
{
    let mut r: Vec<u8> = Vec::new();
    let mut i: usize = n;
    while i < v.len()
        invariant
            n <= i <= v@.len(),
            r@ == v@.subrange(n as int, i as int),
        decreases v@.len() - i,
    {
        r.push(v[i]);
        i = i + 1;
        assert(r@ =~= v@.subrange(n as int, i as int));
    }
    *v = r;
}

impl PadCodec {
    /// The bytes taken in and not yet decoded, given the caller's buffer.
    pub closed spec fn pending_with(&self, buf: Seq<u8>) -> Seq<u8> {
        pending(self.size, buf)
    }

    /// Whether the decoder is between frames, so that the caller's buffer alone is
    /// what it has pending.
    pub closed spec fn at_boundary(&self) -> bool {
        self.size is None
    }

    /// The frame size read from a header whose payload is still awaited, if any.
    pub closed spec fn pending_size(&self) -> Option<u32> {
        self.size
    }

    /// What is pending is the header of the awaited frame, if any, then the caller's
    /// buffer.
    pub proof fn lemma_pending(&self, buf: Seq<u8>)
        ensures
            self.at_boundary() <==> self.pending_size() is None,
            self.pending_with(buf) == match self.pending_size() {
                Some(l) => le32(l) + buf,
                None => buf,
            },
    {
    }

    /// Bytes added to the caller's buffer are added to what is pending.
    pub proof fn lemma_pending_append(&self, buf: Seq<u8>, more: Seq<u8>)
        ensures
            self.pending_with(buf + more) == self.pending_with(buf) + more,
    {
        match self.size {
            Some(l) => {
                assert(le32(l) + (buf + more) =~= le32(l) + buf + more);
            },
            None => {},
        }
    }

    /// Between frames, what is pending is the caller's buffer alone.
    pub proof fn lemma_boundary(&self, buf: Seq<u8>)
        requires
            self.at_boundary(),
        ensures
            self.pending_with(buf) == buf,
    {
    }

    pub fn new() -> (r: PadCodec)
        ensures
            r.at_boundary(),
            forall|b: Seq<u8>| #[trigger] r.pending_with(b) == b,
    {
        PadCodec { size: None }
    }

    /// Decodes at most one message from the front of the pending bytes.
    ///
    /// With no complete frame pending it returns `Ok(None)`. With one whose payload
    /// is well formed it returns the message and drops the frame. Otherwise it
    /// returns the error and consumes nothing that it could not parse.
    pub fn decode(&mut self, src: &mut Vec<u8>) -> (r: Result<Option<Message>, DecodeError>)
        ensures
            ({
                let p = old(self).pending_with(old(src)@);
                let q = final(self).pending_with(final(src)@);
                &&& !has_frame(p) ==> r == Ok::<Option<Message>, DecodeError>(None) && q == p
                &&& has_frame(p) && payload_ok(frame_payload(p)) ==> {
                    &&& r matches Ok(Some(m)) && parses_to(frame_payload(p), m)
                    &&& q == frame_rest(p)
                    &&& final(self).at_boundary()
                }
                &&& has_frame(p) && !payload_ok(frame_payload(p)) ==> {
                    &&& r matches Err(e) && (e == DecodeError::UnknownTag(frame_payload(p)[0])
                        <==> frame_payload(p).len() >= 1 && !known_tag(frame_payload(p)[0]))
                    &&& q == p
                }
                &&& old(self).at_boundary() && old(src)@.len() < 4 ==> {
                    &&& r == Ok::<Option<Message>, DecodeError>(None)
                    &&& final(src)@ == old(src)@
                    &&& final(self).at_boundary()
                }
                &&& p.len() >= 4 && !(has_frame(p) && payload_ok(frame_payload(p))) ==> {
                    &&& final(self).pending_size() == Some(u32_at(p, 0))
                    &&& final(src)@ == if old(self).at_boundary() {
                        old(src)@.subrange(4, old(src)@.len() as int)
                    } else {
                        old(src)@
                    }
                    &&& r is Err ==> final(src)@.len() >= u32_at(p, 0) && final(src)@.subrange(
                        0,
                        u32_at(p, 0) as int,
                    ) == frame_payload(p)
                }
            }),
    {
        let ghost p = pending(self.size, src@);
        if self.size.is_none() {
            if src.len() < 4 {
                return Ok(None);
            }
            let l = read32(src.as_slice(), 0);
            proof {
                lemma_split32(src@[0], src@[1], src@[2], src@[3]);
                assert(le32(l) + src@.subrange(4, src@.len() as int) =~= src@);
            }
            self.size = Some(l);
            drop_front(src, 4);
        }
        let l = match self.size {
            Some(l) => l,
            None => 0,
        };
        proof {
            assert(p == le32(l) + src@);
            assert(holds_at(p, 0, le32(l))) by {
                assert forall|j: int| 0 <= j < 4 implies #[trigger] p[0 + j] == le32(l)[j] by {}
            }
            lemma_u32_at(p, 0, l);
        }
        let len = l as usize;
        if src.len() < len {
            return Ok(None);
        }
        let body = take_front(src, len);
        assert(frame_payload(p) =~= body@);
        match decode_payload(body.as_slice()) {
            Ok(m) => {
                drop_front(src, len);
                self.size = None;
                proof {
                    assert(frame_rest(p) =~= src@);
                }
                Ok(Some(m))
            },
            Err(e) => Err(e),
        }
    }
}

/// The payloads of the well-formed frames at the front of a stream, in order, and
/// the bytes left after them.
pub open spec fn drain(p: Seq<u8>) -> (Seq<Seq<u8>>, Seq<u8>)
    decreases p.len(),
{
    if has_frame(p) && payload_ok(frame_payload(p)) {
        let (ps, r) = drain(frame_rest(p));
        (seq![frame_payload(p)] + ps, r)
    } else {
        (seq![], p)
    }
}

/// Delivers chunks one after another to a decoder holding `q`, draining after each;
/// gives all payloads decoded and the bytes left.
pub open spec fn feed(q: Seq<u8>, chunks: Seq<Seq<u8>>) -> (Seq<Seq<u8>>, Seq<u8>)
    decreases chunks.len(),
{
    if chunks.len() == 0 {
        (seq![], q)
    } else {
        let (o1, q1) = drain(q + chunks[0]);
        let (o2, q2) = feed(q1, chunks.drop_first());
        (o1 + o2, q2)
    }
}

/// All chunks joined in order.
pub open spec fn joined(chunks: Seq<Seq<u8>>) -> Seq<u8>
    decreases chunks.len(),
{
    if chunks.len() == 0 {
        seq![]
    } else {
        chunks[0] + joined(chunks.drop_first())
    }
}

proof fn lemma_frame_extend(x: Seq<u8>, y: Seq<u8>)
    requires
        has_frame(x),
    ensures
        has_frame(x + y),
        u32_at(x + y, 0) == u32_at(x, 0),
        frame_payload(x + y) == frame_payload(x),
        frame_rest(x + y) == frame_rest(x) + y,
{
    let z = x + y;
    assert(z[0] == x[0] && z[1] == x[1] && z[2] == x[2] && z[3] == x[3]);
    assert(frame_payload(z) =~= frame_payload(x));
    assert(frame_rest(z) =~= frame_rest(x) + y);
}

/// Draining a stream in two parts gives what draining it whole gives.
proof fn lemma_drain_append(x: Seq<u8>, y: Seq<u8>)
    ensures
        ({
            let (o1, r1) = drain(x);
            let (o2, r2) = drain(r1 + y);
            drain(x + y) == (o1 + o2, r2)
        }),
    decreases x.len(),
{
    if has_frame(x) && payload_ok(frame_payload(x)) {
        lemma_frame_extend(x, y);
        lemma_drain_append(frame_rest(x), y);
        let (o1, r1) = drain(frame_rest(x));
        let (o2, r2) = drain(r1 + y);
        assert(seq![frame_payload(x)] + o1 + o2 =~= seq![frame_payload(x)] + (o1 + o2));
    } else if has_frame(x) {
        lemma_frame_extend(x, y);
        assert(seq![] + drain(x + y).0 =~= drain(x + y).0);
    } else {
        assert(seq![] + drain(x + y).0 =~= drain(x + y).0);
    }
}

proof fn lemma_drain_stopped(q: Seq<u8>)
    ensures
        drain(drain(q).1) == (Seq::<Seq<u8>>::empty(), drain(q).1),
    decreases q.len(),
{
    if has_frame(q) && payload_ok(frame_payload(q)) {
        lemma_drain_stopped(frame_rest(q));
    }
}

proof fn lemma_feed_joined(q: Seq<u8>, chunks: Seq<Seq<u8>>)
    requires
        drain(q) == (Seq::<Seq<u8>>::empty(), q),
    ensures
        feed(q, chunks) == drain(q + joined(chunks)),
    decreases chunks.len(),
{
    if chunks.len() == 0 {
        assert(q + joined(chunks) =~= q);
    } else {
        let (o1, q1) = drain(q + chunks[0]);
        lemma_drain_stopped(q + chunks[0]);
        lemma_feed_joined(q1, chunks.drop_first());
        lemma_drain_append(q + chunks[0], joined(chunks.drop_first()));
        assert(q + chunks[0] + joined(chunks.drop_first()) =~= q + joined(chunks));
    }
}

proof fn lemma_drain_one(pl: Seq<u8>, rest: Seq<u8>)
    requires
        pl.len() <= u32::MAX,
        payload_ok(pl),
    ensures
        drain(frame(pl) + rest) == (seq![pl] + drain(rest).0, drain(rest).1),
{
    lemma_frame_split(pl, rest);
}

proof fn lemma_drain_two(first: Seq<u8>, second: Seq<u8>)
    requires
        first.len() <= u32::MAX,
        second.len() <= u32::MAX,
        payload_ok(first),
        payload_ok(second),
    ensures
        drain(frame(first) + frame(second)) == (seq![first, second], Seq::<u8>::empty()),
{
    let e = Seq::<u8>::empty();
    assert(drain(e) == (Seq::<Seq<u8>>::empty(), e));
    lemma_drain_one(second, e);
    assert(frame(second) + e =~= frame(second));
    lemma_drain_one(first, frame(second));
    assert(seq![second] + Seq::<Seq<u8>>::empty() =~= seq![second]);
    assert(seq![first] + seq![second] =~= seq![first, second]);
}

/// However the frames of two messages are cut into chunks, a decoder that starts
/// empty and drains after each chunk yields exactly the two payloads, in order, and
/// nothing is left.
#[verifier::spinoff_prover]
pub proof fn lemma_chunked_decode(m1: Message, m2: Message, chunks: Seq<Seq<u8>>)
    requires
        message_fits(m1),
        message_fits(m2),
        joined(chunks) == frame(payload(m1)) + frame(payload(m2)),
    ensures
        feed(seq![], chunks) == (seq![payload(m1), payload(m2)], Seq::<u8>::empty()),
{
    let e = Seq::<u8>::empty();
    lemma_payload_round_trip(m1);
    lemma_payload_round_trip(m2);
    lemma_payload_len(m1);
    lemma_payload_len(m2);
    lemma_drain_two(payload(m1), payload(m2));
    assert(drain(e) == (Seq::<Seq<u8>>::empty(), e));
    lemma_feed_joined(e, chunks);
    assert(e + joined(chunks) =~= joined(chunks));
}

proof fn lemma_payload_len(m: Message)
    requires
        message_fits(m),
    ensures
        payload(m).len() <= 115,
{
    match m {
        Message::Pad(p) => {
            lemma_touches_bytes_len(p.front_touch@);
            lemma_touches_bytes_len(p.back_touch@);
        },
        _ => {},
    }
}

fn copy_bytes(bytes: &[u8]) -> (r: Vec<u8>)
    ensures
        r@ == bytes@,
{
    let mut r: Vec<u8> = Vec::new();
    let mut i: usize = 0;
    while i < bytes.len()
        invariant
            i <= bytes@.len(),
            r@ == bytes@.subrange(0, i as int),
        decreases bytes@.len() - i,
    {
        r.push(bytes[i]);
        i = i + 1;
        assert(r@ =~= bytes@.subrange(0, i as int));
    }
    assert(bytes@.subrange(0, bytes@.len() as int) =~= bytes@);
    r
}

/// Decodes the frames of one datagram on their own, in order: the messages of the
/// frames that `drain` finds, then the error of the frame after them, if one is
/// complete but cannot be read. An incomplete frame at the end is dropped.
pub fn decode_datagram(bytes: &[u8]) -> (r: (Vec<Message>, Option<DecodeError>))
    ensures
        ({
            let (ps, rest) = drain(bytes@);
            &&& r.0@.len() == ps.len()
            &&& forall|i: int| 0 <= i < ps.len() ==> parses_to(ps[i], #[trigger] r.0@[i])
            &&& r.1 is Some <==> has_frame(rest)
        }),
{
    let mut codec = PadCodec::new();
    let mut buf = copy_bytes(bytes);
    let mut out: Vec<Message> = Vec::new();
    let ghost found = drain(bytes@).0;
    let ghost left_over = drain(bytes@).1;
    loop
        invariant
            found == drain(bytes@).0,
            left_over == drain(bytes@).1,
            codec.at_boundary(),
            codec.pending_with(buf@) == buf@,
            out@.len() <= found.len(),
            drain(buf@) == (found.subrange(out@.len() as int, found.len() as int), left_over),
            forall|i: int| 0 <= i < out@.len() ==> parses_to(found[i], #[trigger] out@[i]),
        ensures
            out@.len() == found.len(),
            forall|i: int| 0 <= i < out@.len() ==> parses_to(found[i], #[trigger] out@[i]),
            buf@ == left_over,
            has_frame(left_over) ==> !payload_ok(frame_payload(left_over)),
        decreases buf@.len(),
    {
        let ghost p = buf@;
        let ghost k = out@.len() as int;
        match codec.decode(&mut buf) {
            Ok(Some(m)) => {
                proof {
                    assert(has_frame(p) && payload_ok(frame_payload(p)));
                    codec.lemma_boundary(buf@);
                    assert(drain(p).0 == seq![frame_payload(p)] + drain(frame_rest(p)).0);
                    let sub = found.subrange(k, found.len() as int);
                    let d = drain(frame_rest(p)).0;
                    assert(sub == seq![frame_payload(p)] + d);
                    assert(found[k] == sub[0]);
                    assert(d =~= sub.subrange(1, sub.len() as int));
                    assert(d =~= found.subrange(k + 1, found.len() as int));
                }
                out.push(m);
                proof {
                    assert(out@[k] == m);
                }
            },
            Ok(None) => {
                proof {
                    assert(found.subrange(k, found.len() as int).len() == 0);
                }
                return (out, None);
            },
            Err(e) => {
                proof {
                    assert(found.subrange(k, found.len() as int).len() == 0);
                }
                return (out, Some(e));
            },
        }
    }
}

} // verus!
