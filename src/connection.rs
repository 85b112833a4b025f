use vstd::prelude::*;
use crate::codec::{
    drain, encode, frame, frame_payload, frame_rest, has_frame, message_fits, parses_to, payload,
    payload_ok, DecodeError, Endpoint, Message, PadCodec, PadData, TAG_HEARTBEAT, TAG_PAD,
};

verus! {

/// Where a connection stands in its lifecycle.
#[derive(Clone, Copy, Debug, PartialEq, Eq, Structural)]
pub enum ConnectionState {
    /// Nothing sent yet.
    Init,
    /// Handshake sent, waiting for the answer.
    HandshakeSent,
    /// Handshake answered; pad data flows.
    Established,
    /// A decode error or an unexpected message ended the session.
    Closed,
}

/// What a connection reports from the bytes it received.
#[derive(Clone, Debug)]
pub enum Event {
    HandshakeResponseReceived { heartbeat_freq: u32 },
    PadDataReceived { data: PadData },
    HeartbeatReceived,
}

/// Why a connection closed.
#[derive(Clone, Copy, Debug, PartialEq, Eq, Structural)]
pub enum ConnectionError {
    /// A frame's payload could not be read.
    Decode(DecodeError),
    /// A message came that the current state does not accept.
    UnexpectedMessage,
}

/// The state after a message arrives in a state.
pub open spec fn next_state(s: ConnectionState, m: Message) -> ConnectionState {
    match (s, m) {
        (ConnectionState::HandshakeSent, Message::Handshake { .. }) => ConnectionState::Established,
        (ConnectionState::Established, Message::Pad(_)) => ConnectionState::Established,
        (ConnectionState::Established, Message::Heartbeat) => ConnectionState::Established,
        _ => ConnectionState::Closed,
    }
}

/// Whether `e` is the event that a message gives in a state.
pub open spec fn event_for(s: ConnectionState, m: Message, e: Event) -> bool {
    match (s, m, e) {
        (
            ConnectionState::HandshakeSent,
            Message::Handshake { heartbeat_freq, .. },
            Event::HandshakeResponseReceived { heartbeat_freq: f },
        ) => f == heartbeat_freq,
        (ConnectionState::Established, Message::Pad(p), Event::PadDataReceived { data }) => {
            &&& data.timestamp == p.timestamp
            &&& data.buttons == p.buttons
            &&& data.lx == p.lx && data.ly == p.ly && data.rx == p.rx && data.ry == p.ry
            &&& data.motion == p.motion
            &&& data.charge_percent == p.charge_percent
            &&& data.front_touch@ == p.front_touch@
            &&& data.back_touch@ == p.back_touch@
        },
        (ConnectionState::Established, Message::Heartbeat, Event::HeartbeatReceived) => true,
        _ => false,
    }
}

/// Whether `r` is what a connection in state `s` reports for message `m`.
pub open spec fn step_result(
    s: ConnectionState,
    m: Message,
    r: Option<Result<Event, ConnectionError>>,
) -> bool {
    if next_state(s, m) == ConnectionState::Closed {
        r == Some(Err::<Event, ConnectionError>(ConnectionError::UnexpectedMessage))
    } else {
        r matches Some(Ok(e)) && event_for(s, m, e)
    }
}

/// Whether a payload carries what an established connection reports: pad data or
/// a heartbeat.
pub open spec fn is_data_payload(pl: Seq<u8>) -> bool {
    pl.len() >= 1 && (pl[0] == TAG_PAD || pl[0] == TAG_HEARTBEAT)
}

/// Whether `r` is the event an established connection reports for payload `pl`.
pub open spec fn reports(pl: Seq<u8>, r: Result<Event, ConnectionError>) -> bool {
    r matches Ok(e) && exists|m: Message|
        #[trigger] parses_to(pl, m) && event_for(ConnectionState::Established, m, e)
}

/// The protocol's client side: turns calls into outgoing bytes and incoming bytes
/// into events. It does no I/O itself.
pub struct Connection {
    state: ConnectionState,
    codec: PadCodec,
    in_buf: Vec<u8>,
    out_buf: Vec<u8>,
}

impl Connection {
    pub closed spec fn state_of(&self) -> ConnectionState {
        self.state
    }

    /// Received bytes not yet turned into events.
    pub closed spec fn pending_in(&self) -> Seq<u8> {
        self.codec.pending_with(self.in_buf@)
    }

    /// Bytes queued for sending.
    pub closed spec fn pending_out(&self) -> Seq<u8> {
        self.out_buf@
    }

    pub fn new() -> (r: Connection)
        ensures
            r.state_of() == ConnectionState::Init,
            r.pending_in() == Seq::<u8>::empty(),
            r.pending_out() == Seq::<u8>::empty(),
    {
        let codec = PadCodec::new();
        let r = Connection { state: ConnectionState::Init, codec, in_buf: Vec::new(), out_buf: Vec::new() };
        assert(r.pending_in() == r.in_buf@);
        r
    }

    /// The current state.
    pub fn state(&self) -> (r: ConnectionState)
        ensures
            r == self.state_of(),
    {
        self.state
    }

    fn queue(&mut self, m: Message)
        requires
            message_fits(m),
        ensures
            final(self).pending_out() == old(self).pending_out() + frame(payload(m)),
            final(self).state == old(self).state,
            final(self).pending_in() == old(self).pending_in(),
    {
        let mut bytes = encode(&m);
        self.out_buf.append(&mut bytes);
    }

    /// Queues the client's handshake, announcing the UDP port it listens on.
    pub fn send_handshake(&mut self, port: u16)
        ensures
            final(self).pending_out() == old(self).pending_out() + frame(
                payload(Message::Handshake { endpoint: Endpoint::Client, port, heartbeat_freq: 0 }),
            ),
            final(self).state_of() == if old(self).state_of() == ConnectionState::Init {
                ConnectionState::HandshakeSent
            } else {
                old(self).state_of()
            },
            final(self).pending_in() == old(self).pending_in(),
    {
        self.queue(Message::Handshake { endpoint: Endpoint::Client, port, heartbeat_freq: 0 });
        if self.state == ConnectionState::Init {
            self.state = ConnectionState::HandshakeSent;
        }
    }

    /// Queues a heartbeat.
    pub fn send_heartbeat(&mut self)
        ensures
            final(self).pending_out() == old(self).pending_out() + frame(payload(Message::Heartbeat)),
            final(self).state_of() == old(self).state_of(),
            final(self).pending_in() == old(self).pending_in(),
    {
        self.queue(Message::Heartbeat);
    }

    /// Queues a request for a polling interval, in microseconds.
    pub fn send_config(&mut self, polling_interval: u64)
        ensures
            final(self).pending_out() == old(self).pending_out() + frame(
                payload(Message::Config { polling_interval }),
            ),
            final(self).state_of() == old(self).state_of(),
            final(self).pending_in() == old(self).pending_in(),
    {
        self.queue(Message::Config { polling_interval });
    }

    /// Hands out the queued bytes and empties the queue.
    pub fn retrieve_out_data(&mut self) -> (r: Vec<u8>)
        ensures
            r@ == old(self).pending_out(),
            final(self).pending_out() == Seq::<u8>::empty(),
            final(self).state_of() == old(self).state_of(),
            final(self).pending_in() == old(self).pending_in(),
    {
        let mut r: Vec<u8> = Vec::new();
        std::mem::swap(&mut r, &mut self.out_buf);
        r
    }

    /// Takes in received bytes.
    pub fn receive_data(&mut self, data: &[u8])
        ensures
            final(self).pending_in() == old(self).pending_in() + data@,
            final(self).state_of() == old(self).state_of(),
            final(self).pending_out() == old(self).pending_out(),
    {
        let mut i: usize = 0;
        let ghost start = self.in_buf@;
        while i < data.len()
            invariant
                i <= data@.len(),
                self.in_buf@ == start + data@.subrange(0, i as int),
                self.codec == old(self).codec,
                self.out_buf@ == old(self).out_buf@,
                self.state == old(self).state,
            decreases data@.len() - i,
        {
            self.in_buf.push(data[i]);
            i = i + 1;
            assert(self.in_buf@ =~= start + data@.subrange(0, i as int));
        }
        assert(data@.subrange(0, data@.len() as int) =~= data@);
        proof {
            self.codec.lemma_pending_append(start, data@);
        }
    }

    fn close(&mut self) -> (r: Option<Result<Event, ConnectionError>>)
        ensures
            final(self).state == ConnectionState::Closed,
            final(self).codec == old(self).codec,
            final(self).in_buf@ == old(self).in_buf@,
            final(self).out_buf@ == old(self).out_buf@,
            r == Some(Err::<Event, ConnectionError>(ConnectionError::UnexpectedMessage)),
    {
        self.state = ConnectionState::Closed;
        Some(Err(ConnectionError::UnexpectedMessage))
    }

    /// Decodes the next frame received, if a complete one is pending, and steps the
    /// state: the handshake answer moves a connection that sent its handshake to
    /// established; an established connection reports pad data and heartbeats;
    /// anything else, or a payload that cannot be read, closes it. A closed
    /// connection reports nothing more.
    pub fn next_event(&mut self) -> (r: Option<Result<Event, ConnectionError>>)
        ensures
            final(self).pending_out() == old(self).pending_out(),
            ({
                let p = old(self).pending_in();
                let s = old(self).state_of();
                &&& s == ConnectionState::Closed ==> r is None && final(self).state_of() == s
                    && final(self).pending_in() == p
                &&& s != ConnectionState::Closed && !has_frame(p) ==> r is None && final(self).state_of() == s && final(self).pending_in() == p
                &&& s != ConnectionState::Closed && has_frame(p) && !payload_ok(frame_payload(p))
                    ==> (r matches Some(Err(ConnectionError::Decode(_))) && final(self).state_of()
                    == ConnectionState::Closed)
                &&& s != ConnectionState::Closed && has_frame(p) && payload_ok(frame_payload(p))
                    ==> {
                    &&& final(self).pending_in() == frame_rest(p)
                    &&& exists|m: Message|
                        #[trigger] parses_to(frame_payload(p), m) && final(self).state_of()
                            == next_state(s, m) && step_result(s, m, r)
                }
            }),
    {
        if self.state == ConnectionState::Closed {
            return None;
        }
        let st = self.state;
        match self.codec.decode(&mut self.in_buf) {
            Ok(None) => None,
            Err(e) => {
                self.state = ConnectionState::Closed;
                Some(Err(ConnectionError::Decode(e)))
            },
            Ok(Some(m)) => {
                let ghost gm = m;
                match m {
                    Message::Handshake { endpoint, port, heartbeat_freq } => {
                        if st == ConnectionState::HandshakeSent {
                            self.state = ConnectionState::Established;
                            Some(Ok(Event::HandshakeResponseReceived { heartbeat_freq }))
                        } else {
                            self.close()
                        }
                    },
                    Message::Pad(data) => {
                        if st == ConnectionState::Established {
                            Some(Ok(Event::PadDataReceived { data }))
                        } else {
                            self.close()
                        }
                    },
                    Message::Heartbeat => {
                        if st == ConnectionState::Established {
                            Some(Ok(Event::HeartbeatReceived))
                        } else {
                            self.close()
                        }
                    },
                    Message::Config { .. } => self.close(),
                }
            },
        }
    }

    /// Decodes every complete frame received, in order, and reports what each gives.
    /// On an established connection whose pending frames carry pad data and
    /// heartbeats, the events are those of the frames that `drain` finds; if a frame
    /// after them cannot be read, one decode error follows and the connection closes.
    pub fn events(&mut self) -> (r: Vec<Result<Event, ConnectionError>>)
        ensures
            final(self).pending_out() == old(self).pending_out(),
            old(self).state_of() == ConnectionState::Closed ==> r@.len() == 0 && final(
                self).state_of() == ConnectionState::Closed && final(self).pending_in() == old(
                self).pending_in(),
            ({
                let (ps, rest) = drain(old(self).pending_in());
                old(self).state_of() == ConnectionState::Established && (forall|i: int|
                    0 <= i < ps.len() ==> is_data_payload(#[trigger] ps[i])) ==> {
                    &&& r@.len() >= ps.len()
                    &&& forall|i: int| 0 <= i < ps.len() ==> reports(ps[i], #[trigger] r@[i])
                    &&& !has_frame(rest) ==> {
                        &&& r@.len() == ps.len()
                        &&& final(self).pending_in() == rest
                        &&& final(self).state_of() == ConnectionState::Established
                    }
                    &&& has_frame(rest) ==> {
                        &&& r@.len() == ps.len() + 1
                        &&& r@[ps.len() as int] matches Err(ConnectionError::Decode(_))
                        &&& final(self).state_of() == ConnectionState::Closed
                    }
                }
            }),
    {
        let mut r: Vec<Result<Event, ConnectionError>> = Vec::new();
        let ghost start_in = self.pending_in();
        let ghost s0 = self.state;
        let ghost found = drain(start_in).0;
        let ghost left_over = drain(start_in).1;
        let ghost tracked_case = s0 == ConnectionState::Established && (forall|i: int|
            0 <= i < found.len() ==> is_data_payload(#[trigger] found[i]));
        loop
            invariant
                self.pending_out() == old(self).pending_out(),
                start_in == old(self).pending_in(),
                s0 == old(self).state,
                found == drain(start_in).0,
                left_over == drain(start_in).1,
                tracked_case == (s0 == ConnectionState::Established && (forall|i: int|
                    0 <= i < found.len() ==> is_data_payload(#[trigger] found[i]))),
                s0 == ConnectionState::Closed ==> self.state == ConnectionState::Closed
                    && r@.len() == 0 && self.pending_in() == start_in,
                tracked_case ==> {
                    &&& self.state == ConnectionState::Established || self.state
                        == ConnectionState::Closed
                    &&& forall|i: int| 0 <= i < r@.len() && i < found.len() ==> reports(found[i], #[trigger] r@[i])
                    &&& self.state == ConnectionState::Established ==> {
                        &&& r@.len() <= found.len()
                        &&& drain(self.pending_in()) == (found.subrange(r@.len() as int, found.len() as int), left_over)
                    }
                    &&& self.state == ConnectionState::Closed ==> {
                        &&& r@.len() == found.len() + 1
                        &&& has_frame(left_over)
                        &&& r@[found.len() as int] matches Err(ConnectionError::Decode(_))
                    }
                },
            ensures
                self.pending_out() == old(self).pending_out(),
                start_in == old(self).pending_in(),
                s0 == old(self).state,
                found == drain(start_in).0,
                left_over == drain(start_in).1,
                tracked_case == (s0 == ConnectionState::Established && (forall|i: int|
                    0 <= i < found.len() ==> is_data_payload(#[trigger] found[i]))),
                s0 == ConnectionState::Closed ==> self.state == ConnectionState::Closed
                    && r@.len() == 0 && self.pending_in() == start_in,
                tracked_case ==> {
                    &&& self.state == ConnectionState::Established || self.state
                        == ConnectionState::Closed
                    &&& forall|i: int| 0 <= i < r@.len() && i < found.len() ==> reports(found[i], #[trigger] r@[i])
                    &&& self.state == ConnectionState::Established ==> {
                        &&& r@.len() <= found.len()
                        &&& drain(self.pending_in()) == (found.subrange(r@.len() as int, found.len() as int), left_over)
                    }
                    &&& self.state == ConnectionState::Closed ==> {
                        &&& r@.len() == found.len() + 1
                        &&& has_frame(left_over)
                        &&& r@[found.len() as int] matches Err(ConnectionError::Decode(_))
                    }
                },
                tracked_case && self.state == ConnectionState::Established ==> {
                    &&& r@.len() == found.len()
                    &&& self.pending_in() == left_over
                    &&& !has_frame(left_over)
                },
            decreases (if self.state == ConnectionState::Closed {
                0
            } else {
                self.pending_in().len() + 1
            }),
        {
            let ghost p = self.pending_in();
            let ghost k = r@.len() as int;
            match self.next_event() {
                None => {
                    proof {
                        if tracked_case && self.state == ConnectionState::Established {
                            assert(!has_frame(p));
                            assert(found.subrange(k, found.len() as int).len() == 0);
                            assert(k == found.len());
                            assert(left_over == p);
                        }
                    }
                    break;
                },
                Some(ev) => {
                    r.push(ev);
                    proof {
                        assert(has_frame(p));
                        assert(frame_rest(p).len() < p.len());
                        if tracked_case {
                            if payload_ok(frame_payload(p)) {
                                let sub = found.subrange(k, found.len() as int);
                                assert(drain(p).0 == seq![frame_payload(p)] + drain(frame_rest(p)).0);
                                assert(sub[0] == frame_payload(p));
                                assert(found[k] == frame_payload(p));
                                assert(is_data_payload(found[k]));
                                let m = choose|m: Message|
                                    #[trigger] parses_to(frame_payload(p), m) && self.state
                                        == next_state(ConnectionState::Established, m)
                                        && step_result(ConnectionState::Established, m, Some(ev));
                                assert(self.state == ConnectionState::Established);
                                assert(reports(found[k], ev));
                                assert(r@[k] == ev);
                                let d = drain(frame_rest(p)).0;
                                assert(sub == seq![frame_payload(p)] + d);
                                assert(d =~= sub.subrange(1, sub.len() as int));
                                assert(d =~= found.subrange(k + 1, found.len() as int));
                                assert(drain(frame_rest(p)).1 == left_over);
                            } else {
                                assert(drain(p).0.len() == 0);
                                assert(k == found.len());
                            }
                        }
                    }
                },
            }
        }
        r
    }
}

/// Seconds of margin kept before the peer's heartbeat deadline.
pub const HEARTBEAT_MARGIN_SECS: u32 = 5;

/// The heartbeat period in use: the peer's period less the margin, zero if shorter.
pub open spec fn beat_period(heartbeat_freq: u32) -> int {
    if heartbeat_freq >= HEARTBEAT_MARGIN_SECS {
        heartbeat_freq - HEARTBEAT_MARGIN_SECS
    } else {
        0
    }
}

/// Decides, `elapsed_secs` after the last heartbeat, whether one is due now, and how
/// many seconds to wait at most before deciding again.
pub fn heartbeat_due(heartbeat_freq: u32, elapsed_secs: u64) -> (r: (bool, u64))
    ensures
        r.0 == (elapsed_secs >= beat_period(heartbeat_freq)),
        r.1 == if elapsed_secs >= beat_period(heartbeat_freq) {
            0
        } else {
            beat_period(heartbeat_freq) - elapsed_secs
        },
{
    let period: u64 = if heartbeat_freq >= HEARTBEAT_MARGIN_SECS {
        (heartbeat_freq - HEARTBEAT_MARGIN_SECS) as u64
    } else {
        0
    };
    if elapsed_secs >= period {
        (true, 0)
    } else {
        (false, period - elapsed_secs)
    }
}

} // verus!
