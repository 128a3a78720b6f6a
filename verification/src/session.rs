//! The per-connection state machine. It owns no socket: callers feed it the
//! bytes read when the socket is readable, and put on the wire what it hands
//! back when the socket is writable. The machine drives the handshake, then
//! the frame codec, and keeps the outgoing frame queue.
use vstd::prelude::*;
use crate::frame::DecodeResult;
use crate::frame::Decoded;
use crate::frame::OpCode;
use crate::frame::ProtocolError;
use crate::frame::WebSocketFrame;
use crate::handshake::spec_http_response;
use crate::handshake::spec_is_upgrade;
use crate::handshake::spec_request_complete;
use crate::handshake::spec_sec_key;

verus! {

/// How long a connection sits between two heartbeat checks, in time units.
pub const HB_INTERVAL: u64 = 5;

/// How long a connection may stay silent before it is terminated, in time
/// units: at least one missed beat is tolerated.
pub const CLIENT_TIMEOUT: u64 = 10;

/// The states one connection moves through.
#[derive(Debug, Clone, Copy, PartialEq, Eq, Structural)]
pub enum ClientState {
    /// Reading the upgrade request.
    AwaitingHandshake,
    /// The upgrade was accepted; the response still has to be written.
    HandshakeResponsePending,
    /// Frames flow in both directions.
    Connected,
    /// A Close frame is queued or the connection failed; after the queue is
    /// flushed the socket is torn down.
    Closing,
}

/// The I/O readiness one connection currently cares about; a pure function
/// of the machine's state.
#[derive(Debug, Clone, Copy, PartialEq, Eq, Structural)]
pub enum IoInterest {
    Read,
    Write,
    Shutdown,
}

/// What a heartbeat check decides.
#[derive(Debug, Clone, Copy, PartialEq, Eq, Structural)]
pub enum HeartbeatAction {
    /// Still in time: send a Ping.
    Ping,
    /// Silent too long: terminate the connection.
    Stop,
}

/// Whether a connection last seen at `last_seen` has been silent for longer
/// than the timeout threshold at time `now`.
pub open spec fn spec_timed_out(now: u64, last_seen: u64) -> bool {
    last_seen <= now && now - last_seen > CLIENT_TIMEOUT
}

/// The heartbeat check: terminate a connection that has been silent for
/// longer than the timeout, ping it otherwise.
pub fn heartbeat(now: u64, last_seen: u64) -> (r: HeartbeatAction)
    ensures
        r == HeartbeatAction::Stop <==> spec_timed_out(now, last_seen),
{
    if last_seen <= now && now - last_seen > CLIENT_TIMEOUT {
        HeartbeatAction::Stop
    } else {
        HeartbeatAction::Ping
    }
}

/// One connection's state machine: its protocol state, the unparsed inbound
/// bytes, the pending handshake response, the outgoing frame queue, and the
/// time the peer was last heard from.
#[derive(Debug)]
pub struct WebSocketClient {
    pub state: ClientState,
    pub read_buf: Vec<u8>,
    pub response: String,
    pub outgoing: Vec<WebSocketFrame>,
    pub last_seen: u64,
}

impl WebSocketClient {
    /// Every queued frame is well-formed, so it can be encoded.
    pub open spec fn wf(self) -> bool {
        forall|i: int| 0 <= i < self.outgoing@.len() ==> (#[trigger] self.outgoing@[i]).wf()
    }

    /// A fresh machine awaiting the upgrade request; `now` starts the
    /// heartbeat clock.
    pub fn new(now: u64) -> (r: WebSocketClient)
        ensures
            r.wf(),
            r.state == ClientState::AwaitingHandshake,
            r.read_buf@.len() == 0,
            r.response@.len() == 0,
            r.outgoing@.len() == 0,
            r.last_seen == now,
    {
        WebSocketClient {
            state: ClientState::AwaitingHandshake,
            read_buf: Vec::new(),
            response: String::new(),
            outgoing: Vec::new(),
            last_seen: now,
        }
    }

    /// The readiness this machine's state asks for.
    pub open spec fn spec_interest(self) -> IoInterest {
        match self.state {
            ClientState::AwaitingHandshake => IoInterest::Read,
            ClientState::HandshakeResponsePending => IoInterest::Write,
            ClientState::Connected => if self.outgoing@.len() == 0 {
                IoInterest::Read
            } else {
                IoInterest::Write
            },
            ClientState::Closing => if self.outgoing@.len() == 0 {
                IoInterest::Shutdown
            } else {
                IoInterest::Write
            },
        }
    }

    /// Executable form of [`WebSocketClient::spec_interest`].
    pub fn interest(&self) -> (r: IoInterest)
        ensures
            r == self.spec_interest(),
    {
        match self.state {
            ClientState::AwaitingHandshake => IoInterest::Read,
            ClientState::HandshakeResponsePending => IoInterest::Write,
            ClientState::Connected => if self.outgoing.len() == 0 {
                IoInterest::Read
            } else {
                IoInterest::Write
            },
            ClientState::Closing => if self.outgoing.len() == 0 {
                IoInterest::Shutdown
            } else {
                IoInterest::Write
            },
        }
    }

    /// Queue an outbound text payload — a hub signal — as a Text frame.
    pub fn enqueue_text(&mut self, payload: Vec<u8>)
        requires
            old(self).wf(),
        ensures
            final(self).wf(),
            final(self).outgoing@.len() == old(self).outgoing@.len() + 1,
            final(self).outgoing@.drop_last() == old(self).outgoing@,
            final(self).outgoing@.last().wf(),
            final(self).outgoing@.last().header.opcode == OpCode::TextFrame,
            final(self).outgoing@.last().payload@ == payload@,
            final(self).state == old(self).state,
            final(self).read_buf@ == old(self).read_buf@,
            final(self).response@ == old(self).response@,
            final(self).last_seen == old(self).last_seen,
    {
        let frame = WebSocketFrame::text_frame(payload);
        self.outgoing.push(frame);
        proof {
            assert(self.outgoing@.drop_last() =~= old(self).outgoing@);
        }
    }

    /// Queue a keep-alive Ping carrying `payload`, as the heartbeat
    /// supervisor sends between checks.
    pub fn enqueue_ping(&mut self, payload: Vec<u8>)
        requires
            old(self).wf(),
        ensures
            final(self).wf(),
            final(self).outgoing@.len() == old(self).outgoing@.len() + 1,
            final(self).outgoing@.drop_last() == old(self).outgoing@,
            final(self).outgoing@.last().wf(),
            final(self).outgoing@.last().header.opcode == OpCode::Ping,
            final(self).outgoing@.last().payload@ == payload@,
            final(self).state == old(self).state,
            final(self).read_buf@ == old(self).read_buf@,
            final(self).response@ == old(self).response@,
            final(self).last_seen == old(self).last_seen,
    {
        let len = payload.len();
        let frame = WebSocketFrame {
            header: crate::frame::WebSocketFrameHeader::new_header(len, OpCode::Ping),
            mask: None,
            payload,
        };
        self.outgoing.push(frame);
        proof {
            assert(self.outgoing@.drop_last() =~= old(self).outgoing@);
        }
    }
}

/// The wire bytes of a queue of frames, first frame first.
pub open spec fn spec_encode_all(frames: Seq<WebSocketFrame>) -> Seq<u8>
    decreases frames.len(),
{
    if frames.len() == 0 {
        Seq::<u8>::empty()
    } else {
        WebSocketFrame::spec_encode(frames[0]) + spec_encode_all(frames.drop_first())
    }
}

/// What a write-readiness notification asks the caller to do.
#[derive(Debug)]
pub enum WriteOutput {
    /// Put the handshake response on the wire.
    Response(String),
    /// Put these frame bytes on the wire; when the flag is set, shut the
    /// socket down once they are flushed.
    Frames(Vec<u8>, bool),
    /// Nothing to write in this state.
    Nothing,
}

impl WebSocketClient {
    /// Handle write readiness. Pending handshake response: hand it out and
    /// become connected. Connected or closing: hand out the encoded queue,
    /// drained, with the teardown flag set when the connection is closing.
    pub fn write(&mut self) -> (r: WriteOutput)
        requires
            old(self).wf(),
        ensures
            final(self).wf(),
            final(self).read_buf@ == old(self).read_buf@,
            final(self).last_seen == old(self).last_seen,
            old(self).state == ClientState::AwaitingHandshake ==> (r is Nothing && *final(self)
                == *old(self)),
            old(self).state == ClientState::HandshakeResponsePending ==> {
                &&& (r matches WriteOutput::Response(s) && s@ == old(self).response@)
                &&& final(self).state == ClientState::Connected
                &&& final(self).response@.len() == 0
                &&& final(self).outgoing@ == old(self).outgoing@
            },
            old(self).state == ClientState::Connected || old(self).state == ClientState::Closing
                ==> {
                &&& (r matches WriteOutput::Frames(bytes, close_after) && bytes@
                    == spec_encode_all(old(self).outgoing@) && close_after == (old(self).state
                    == ClientState::Closing))
                &&& final(self).state == old(self).state
                &&& final(self).outgoing@.len() == 0
                &&& final(self).response@ == old(self).response@
            },
    {
        match self.state {
            ClientState::AwaitingHandshake => WriteOutput::Nothing,
            ClientState::HandshakeResponsePending => {
                let mut response = String::new();
                core::mem::swap(&mut response, &mut self.response);
                self.state = ClientState::Connected;
                WriteOutput::Response(response)
            },
            ClientState::Connected | ClientState::Closing => {
                let close_after = match self.state {
                    ClientState::Closing => true,
                    _ => false,
                };
                let n = self.outgoing.len();
                let mut bytes: Vec<u8> = Vec::new();
                let mut i: usize = 0;
                proof {
                    assert(self.outgoing@.skip(0) =~= self.outgoing@);
                }
                while i < n
                    invariant
                        n == self.outgoing@.len(),
                        i <= n,
                        self.wf(),
                        spec_encode_all(self.outgoing@) == bytes@ + spec_encode_all(
                            self.outgoing@.skip(i as int),
                        ),
                    decreases n - i,
                {
                    proof {
                        assert(self.outgoing@.skip(i as int)[0] == self.outgoing@[i as int]);
                        assert(self.outgoing@.skip(i as int).drop_first() =~= self.outgoing@.skip(
                            i + 1,
                        ));
                    }
                    let mut encoded = self.outgoing[i].encode();
                    bytes.append(&mut encoded);
                    i += 1;
                }
                proof {
                    assert(self.outgoing@.skip(n as int) =~= Seq::<WebSocketFrame>::empty());
                    assert(bytes@ =~= spec_encode_all(self.outgoing@));
                }
                self.outgoing.clear();
                WriteOutput::Frames(bytes, close_after)
            },
        }
    }
}

impl WebSocketClient {
    /// What handling handshake bytes leaves behind: the request is buffered
    /// until its head is complete; a complete upgrade request with a
    /// non-empty key readies the response; a complete request without a
    /// usable key rejects the connection.
    pub open spec fn handshook(
        self,
        prev: WebSocketClient,
        bytes: Seq<u8>,
        r: Result<bool, ProtocolError>,
    ) -> bool {
        let full = prev.read_buf@ + bytes;
        &&& self.outgoing@ == prev.outgoing@
        &&& self.last_seen == prev.last_seen
        &&& if !spec_request_complete(full) {
            &&& r == Ok::<bool, ProtocolError>(false)
            &&& self.state == ClientState::AwaitingHandshake
            &&& self.read_buf@ == full
            &&& self.response@ == prev.response@
        } else if spec_is_upgrade(full) && (spec_sec_key(full) matches Some(k) && k.len() > 0) {
            &&& r == Ok::<bool, ProtocolError>(true)
            &&& self.state == ClientState::HandshakeResponsePending
            &&& self.read_buf@.len() == 0
            &&& (spec_sec_key(full) matches Some(k) && self.response@ == spec_http_response(k))
        } else {
            &&& r == Err::<bool, ProtocolError>(ProtocolError::MissingKey)
            &&& self.state == ClientState::Closing
            &&& self.read_buf@ == full
            &&& self.response@ == prev.response@
        }
    }

    /// Feed bytes read while awaiting the upgrade request.
    pub fn read_handshake(&mut self, bytes: &[u8]) -> (r: Result<bool, ProtocolError>)
        requires
            old(self).wf(),
            old(self).state == ClientState::AwaitingHandshake,
        ensures
            final(self).wf(),
            final(self).handshook(*old(self), bytes@, r),
    {
        let mut tail = vstd::slice::slice_to_vec(bytes);
        self.read_buf.append(&mut tail);
        if !crate::handshake::request_complete(self.read_buf.as_slice()) {
            return Ok(false);
        }
        if crate::handshake::is_upgrade_request(self.read_buf.as_slice()) {
            match crate::handshake::sec_websocket_key(self.read_buf.as_slice()) {
                Some(key) => {
                    if key.len() > 0 {
                        self.response = crate::handshake::http_response(key.as_slice());
                        self.state = ClientState::HandshakeResponsePending;
                        self.read_buf = Vec::new();
                        return Ok(true);
                    }
                },
                None => {},
            }
        }
        self.state = ClientState::Closing;
        Err(ProtocolError::MissingKey)
    }
}

/// The Close reply keeps at most the two status-code bytes of the received
/// payload.
pub open spec fn spec_close_payload(p: Seq<u8>) -> Seq<u8> {
    p.take(
        if p.len() < 2 {
            p.len() as int
        } else {
            2
        },
    )
}

/// A well-formed Pong frame carrying `payload`.
pub open spec fn frame_is_pong(f: WebSocketFrame, payload: Seq<u8>) -> bool {
    f.wf() && f.header.opcode == OpCode::Pong && f.header.fin && f.payload@ == payload
}

/// A well-formed Close frame carrying `payload`.
pub open spec fn frame_is_close(f: WebSocketFrame, payload: Seq<u8>) -> bool {
    f.wf() && f.header.opcode == OpCode::ConnectionClose && f.header.fin && f.payload@ == payload
}

/// What draining a byte sequence of its complete frames yields: the text
/// payloads to forward upward, the Ping payloads owed a Pong, the payload of
/// the Close reply if a Close arrived, the unconsumed rest, the error that
/// stopped the drain, and whether a Ping or Pong arrived.
pub struct DrainOut {
    pub texts: Seq<Seq<u8>>,
    pub pongs: Seq<Seq<u8>>,
    pub close_reply: Option<Seq<u8>>,
    pub rest: Seq<u8>,
    pub err: Option<ProtocolError>,
    pub saw_pingpong: bool,
}

/// Drain `s` of its complete frames, dispatching each by opcode: Text is
/// forwarded, Ping answered, Pong only noted, Binary dropped, Close answered
/// and the drain stopped. A short prefix stops with the rest kept; a
/// malformed frame stops with an error.
pub open spec fn spec_drain(s: Seq<u8>) -> DrainOut
    decreases s.len(),
    via spec_drain_decreases
{
    match crate::frame::spec_decode(s) {
        Decoded::Incomplete => DrainOut {
            texts: Seq::empty(),
            pongs: Seq::empty(),
            close_reply: None,
            rest: s,
            err: None,
            saw_pingpong: false,
        },
        Decoded::Error(e) => DrainOut {
            texts: Seq::empty(),
            pongs: Seq::empty(),
            close_reply: None,
            rest: s,
            err: Some(e),
            saw_pingpong: false,
        },
        Decoded::Frame(m, n) => {
            if m.header.opcode == OpCode::ConnectionClose {
                DrainOut {
                    texts: Seq::empty(),
                    pongs: Seq::empty(),
                    close_reply: Some(spec_close_payload(m.payload)),
                    rest: s.skip(n),
                    err: None,
                    saw_pingpong: false,
                }
            } else {
                let tail = spec_drain(s.skip(n));
                DrainOut {
                    texts: if m.header.opcode == OpCode::TextFrame {
                        seq![m.payload] + tail.texts
                    } else {
                        tail.texts
                    },
                    pongs: if m.header.opcode == OpCode::Ping {
                        seq![m.payload] + tail.pongs
                    } else {
                        tail.pongs
                    },
                    close_reply: tail.close_reply,
                    rest: tail.rest,
                    err: tail.err,
                    saw_pingpong: m.header.opcode == OpCode::Ping || m.header.opcode
                        == OpCode::Pong || tail.saw_pingpong,
                }
            }
        },
    }
}

#[via_fn]
proof fn spec_drain_decreases(s: Seq<u8>) {
    crate::frame::lemma_decode_consumed(s);
}

/// What feeding inbound bytes to a connected machine yields: the text
/// payloads to forward to the hub, and the error that closed the
/// connection, if any.
#[derive(Debug)]
pub struct ReadOutcome {
    pub texts: Vec<Vec<u8>>,
    pub error: Option<ProtocolError>,
}

impl WebSocketClient {
    /// The ensures every drain leaves behind, relating the machine and the
    /// collected texts to [`spec_drain`] of the drained bytes.
    pub open spec fn drained(
        self,
        prev: WebSocketClient,
        d: DrainOut,
        texts: Seq<Vec<u8>>,
        prev_texts: Seq<Vec<u8>>,
        now: u64,
    ) -> bool {
        &&& self.read_buf@ == d.rest
        &&& self.response@ == prev.response@
        &&& texts.len() == prev_texts.len() + d.texts.len()
        &&& texts.subrange(0, prev_texts.len() as int) == prev_texts
        &&& (forall|i: int|
            0 <= i < d.texts.len() ==> (#[trigger] texts[prev_texts.len() + i])@ == d.texts[i])
        &&& self.last_seen == if d.saw_pingpong {
            now
        } else {
            prev.last_seen
        }
        &&& self.state == if d.close_reply is Some || d.err is Some {
            ClientState::Closing
        } else {
            ClientState::Connected
        }
        &&& self.outgoing@.len() == prev.outgoing@.len() + d.pongs.len() + (
        if d.close_reply is Some {
            1int
        } else {
            0int
        })
        &&& self.outgoing@.subrange(0, prev.outgoing@.len() as int) == prev.outgoing@
        &&& (forall|i: int|
            0 <= i < d.pongs.len() ==> frame_is_pong(
                #[trigger] self.outgoing@[prev.outgoing@.len() + i],
                d.pongs[i],
            ))
        &&& (d.close_reply matches Some(p) ==> frame_is_close(self.outgoing@.last(), p))
    }

    /// Drain `buf` of its complete frames, dispatching each one.
    fn drain(&mut self, buf: &[u8], now: u64, texts: &mut Vec<Vec<u8>>) -> (r: Option<
        ProtocolError,
    >)
        requires
            old(self).wf(),
            old(self).state == ClientState::Connected,
        ensures
            final(self).wf(),
            r == spec_drain(buf@).err,
            final(self).drained(
                *old(self),
                spec_drain(buf@),
                final(texts)@,
                old(texts)@,
                now,
            ),
        decreases buf@.len(),
    {
        let ghost d = spec_drain(buf@);
        match WebSocketFrame::decode(buf) {
            DecodeResult::Incomplete => {
                self.read_buf = vstd::slice::slice_to_vec(buf);
                proof {
                    assert(texts@.subrange(0, old(texts)@.len() as int) =~= old(texts)@);
                    assert(self.outgoing@.subrange(0, old(self).outgoing@.len() as int)
                        =~= old(self).outgoing@);
                }
                None
            },
            DecodeResult::Error(e) => {
                self.read_buf = vstd::slice::slice_to_vec(buf);
                self.state = ClientState::Closing;
                proof {
                    assert(texts@.subrange(0, old(texts)@.len() as int) =~= old(texts)@);
                    assert(self.outgoing@.subrange(0, old(self).outgoing@.len() as int)
                        =~= old(self).outgoing@);
                }
                Some(e)
            },
            DecodeResult::Frame(frame, n) => {
                let ghost m = frame@;
                let total = buf.len();
                let rest_slice = vstd::slice::slice_subrange(buf, n, total);
                proof {
                    assert(rest_slice@ =~= buf@.skip(n as int));
                }
                match frame.get_opcode() {
                    OpCode::ConnectionClose => {
                        let close = WebSocketFrame::close_from(&frame);
                        self.outgoing.push(close);
                        self.state = ClientState::Closing;
                        self.read_buf = vstd::slice::slice_to_vec(rest_slice);
                        proof {
                            assert(texts@.subrange(0, old(texts)@.len() as int)
                                =~= old(texts)@);
                            assert(self.outgoing@.subrange(0, old(self).outgoing@.len() as int)
                                =~= old(self).outgoing@);
                            assert(spec_close_payload(m.payload) == close.payload@);
                        }
                        None
                    },
                    OpCode::TextFrame => {
                        texts.push(frame.payload);
                        let r = self.drain(rest_slice, now, texts);
                        proof {
                            let tail = spec_drain(buf@.skip(n as int));
                            assert(d.texts == seq![m.payload] + tail.texts);
                            assert(texts@.subrange(0, old(texts)@.len() as int)
                                =~= old(texts)@) by {
                                assert(texts@.subrange(
                                    0,
                                    old(texts)@.len() as int + 1,
                                ).subrange(0, old(texts)@.len() as int) =~= texts@.subrange(0, old(texts)@.len() as int));
                            }
                            assert forall|i: int| 0 <= i < d.texts.len() implies (
                            #[trigger] texts@[old(texts)@.len() + i])@ == d.texts[i] by {
                                if i == 0 {
                                    assert(texts@[old(texts)@.len() as int] == texts@.subrange(
                                        0,
                                        old(texts)@.len() as int + 1,
                                    )[old(texts)@.len() as int]);
                                } else {
                                    assert(texts@[(old(texts)@.len() + 1) + (i - 1)]@
                                        == tail.texts[i - 1]);
                                }
                            }
                        }
                        r
                    },
                    OpCode::Ping => {
                        let pong = WebSocketFrame::pong(&frame);
                        self.outgoing.push(pong);
                        self.last_seen = now;
                        let r = self.drain(rest_slice, now, texts);
                        proof {
                            let tail = spec_drain(buf@.skip(n as int));
                            assert(d.pongs == seq![m.payload] + tail.pongs);
                            let prev_len = old(self).outgoing@.len() as int;
                            assert(self.outgoing@.subrange(0, prev_len) =~= old(
                                self,
                            ).outgoing@) by {
                                assert(self.outgoing@.subrange(0, prev_len + 1).subrange(
                                    0,
                                    prev_len,
                                ) =~= self.outgoing@.subrange(0, prev_len));
                            }
                            assert forall|i: int| 0 <= i < d.pongs.len() implies frame_is_pong(
                                #[trigger] self.outgoing@[prev_len + i],
                                d.pongs[i],
                            ) by {
                                if i == 0 {
                                    assert(self.outgoing@[prev_len] == self.outgoing@.subrange(
                                        0,
                                        prev_len + 1,
                                    )[prev_len]);
                                } else {
                                    assert(frame_is_pong(
                                        self.outgoing@[(prev_len + 1) + (i - 1)],
                                        tail.pongs[i - 1],
                                    ));
                                }
                            }
                        }
                        r
                    },
                    OpCode::Pong => {
                        self.last_seen = now;
                        self.drain(rest_slice, now, texts)
                    },
                    OpCode::BinaryFrame => {
                        self.drain(rest_slice, now, texts)
                    },
                }
            },
        }
    }

    /// Feed bytes read while connected: buffered bytes and new bytes
    /// together are drained of as many complete frames as they hold, each
    /// dispatched by opcode; what cannot be parsed yet stays buffered.
    pub fn read_frames(&mut self, bytes: &[u8], now: u64) -> (r: ReadOutcome)
        requires
            old(self).wf(),
            old(self).state == ClientState::Connected,
        ensures
            final(self).wf(),
            r.error == spec_drain(old(self).read_buf@ + bytes@).err,
            final(self).drained(
                *old(self),
                spec_drain(old(self).read_buf@ + bytes@),
                r.texts@,
                Seq::<Vec<u8>>::empty(),
                now,
            ),
    {
        let mut input: Vec<u8> = Vec::new();
        core::mem::swap(&mut input, &mut self.read_buf);
        let mut tail = vstd::slice::slice_to_vec(bytes);
        input.append(&mut tail);
        let mut texts: Vec<Vec<u8>> = Vec::new();
        let error = self.drain(input.as_slice(), now, &mut texts);
        ReadOutcome { texts, error }
    }
}

/// What handling read readiness yielded, by phase.
#[derive(Debug)]
pub enum ReadResult {
    /// The machine was awaiting the handshake; whether the upgrade is now
    /// accepted, or why the connection was rejected.
    Handshake(Result<bool, ProtocolError>),
    /// The machine was connected; the drained frames' outcome.
    Frames(ReadOutcome),
    /// The machine reads nothing in its current state.
    Ignored,
}

impl WebSocketClient {
    /// Handle read readiness: drive the handshake while it lasts, the frame
    /// codec once connected.
    pub fn read(&mut self, bytes: &[u8], now: u64) -> (r: ReadResult)
        requires
            old(self).wf(),
        ensures
            final(self).wf(),
            old(self).state == ClientState::AwaitingHandshake ==> (r matches ReadResult::Handshake(
                h,
            ) && final(self).handshook(*old(self), bytes@, h)),
            old(self).state == ClientState::Connected ==> (r matches ReadResult::Frames(o)
                && o.error == spec_drain(old(self).read_buf@ + bytes@).err && final(self).drained(
                *old(self),
                spec_drain(old(self).read_buf@ + bytes@),
                o.texts@,
                Seq::<Vec<u8>>::empty(),
                now,
            )),
            old(self).state == ClientState::HandshakeResponsePending || old(self).state
                == ClientState::Closing ==> (r is Ignored && *final(self) == *old(self)),
    {
        match self.state {
            ClientState::AwaitingHandshake => ReadResult::Handshake(self.read_handshake(bytes)),
            ClientState::Connected => ReadResult::Frames(self.read_frames(bytes, now)),
            ClientState::HandshakeResponsePending | ClientState::Closing => ReadResult::Ignored,
        }
    }
}

} // verus!
