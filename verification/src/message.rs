//! Messages on a websocket: how frames read one after the other make up a
//! message, and what a peer's control frames ask for.
use vstd::prelude::*;
use vstd::utf8::{decode_utf8, encode_utf8, encode_utf8_decode_utf8, encode_utf8_valid_utf8, valid_utf8};
use crate::frame::{decode_spec, encode_frame, frame_bytes, lemma_frame_roundtrip, pow256, Decoded, MAX_FRAME, OP_BINARY, OP_CLOSE, OP_PING, OP_PONG, OP_TEXT};

verus! {

/// A whole message.
pub enum Msg {
    Text(String),
    Binary(Vec<u8>),
}

/// Why reading a message failed.
#[derive(PartialEq, Eq, Structural, Clone, Copy, Debug)]
pub enum MessageError {
    /// A text or binary frame while another message is still incomplete.
    NewMessageDuringFragmentation,
    /// A continuation frame with no message to continue.
    UnexpectedContinuation,
    /// An opcode that the protocol does not define.
    UnsupportedOpcode,
    /// A message longer than `MAX_FRAME` bytes.
    TooLarge,
    /// A text message that is not valid UTF-8.
    InvalidUtf8,
}

/// What a frame asks of the reader, as a value.
pub enum Reaction {
    /// The peer closes; the reader answers with this payload (at most 125
    /// bytes of the peer's) and the message fails.
    PeerClosed(Seq<u8>),
    /// The peer pings; the reader answers with a pong that carries this payload.
    Pong(Seq<u8>),
    /// Another frame is needed.
    Continue,
    /// A whole text message.
    DeliverText(Seq<char>),
    /// A whole binary message.
    DeliverBinary(Seq<u8>),
    /// The message fails.
    Fail(MessageError),
}

/// The state of a message being read: the bytes so far, and the opcode of its
/// first frame once there is one.
pub struct Partial {
    pub bytes: Seq<u8>,
    pub kind: Option<u8>,
}

/// No message under way.
pub open spec fn fresh() -> Partial {
    Partial { bytes: Seq::empty(), kind: None }
}

/// The truncated payload with which a close is answered.
pub open spec fn close_reply(payload: Seq<u8>) -> Seq<u8> {
    if payload.len() <= 125 {
        payload
    } else {
        payload.take(125)
    }
}

/// How one frame moves a message along: the next state, and what the frame
/// asks for. A message that ends (delivered or failed) leaves a fresh state.
pub open spec fn step(s: Partial, fin: bool, opcode: u8, payload: Seq<u8>) -> (Partial, Reaction) {
    if opcode == OP_CLOSE {
        (fresh(), Reaction::PeerClosed(close_reply(payload)))
    } else if opcode == OP_PING {
        (s, Reaction::Pong(payload))
    } else if opcode == OP_PONG {
        (s, Reaction::Continue)
    } else if (opcode == OP_TEXT || opcode == OP_BINARY) && s.kind is Some {
        (fresh(), Reaction::Fail(MessageError::NewMessageDuringFragmentation))
    } else if opcode == 0 && s.kind is None {
        (fresh(), Reaction::Fail(MessageError::UnexpectedContinuation))
    } else if opcode != 0 && opcode != OP_TEXT && opcode != OP_BINARY {
        (fresh(), Reaction::Fail(MessageError::UnsupportedOpcode))
    } else {
        let kind = if opcode == 0 {
            s.kind
        } else {
            Some(opcode)
        };
        let bytes = s.bytes + payload;
        if bytes.len() > MAX_FRAME {
            (fresh(), Reaction::Fail(MessageError::TooLarge))
        } else if !fin {
            (Partial { bytes, kind }, Reaction::Continue)
        } else if kind == Some(OP_TEXT) {
            if valid_utf8(bytes) {
                (fresh(), Reaction::DeliverText(decode_utf8(bytes)))
            } else {
                (fresh(), Reaction::Fail(MessageError::InvalidUtf8))
            }
        } else {
            (fresh(), Reaction::DeliverBinary(bytes))
        }
    }
}

/// What a frame asks of the reader.
pub enum FrameAction {
    PeerClosed(Vec<u8>),
    Pong(Vec<u8>),
    Continue,
    Deliver(Msg),
    Fail(MessageError),
}

/// `action` is the exec form of `reaction`.
pub open spec fn action_is(action: FrameAction, reaction: Reaction) -> bool {
    match (action, reaction) {
        (FrameAction::PeerClosed(p), Reaction::PeerClosed(q)) => p@ == q,
        (FrameAction::Pong(p), Reaction::Pong(q)) => p@ == q,
        (FrameAction::Continue, Reaction::Continue) => true,
        (FrameAction::Deliver(Msg::Text(t)), Reaction::DeliverText(u)) => t@ == u,
        (FrameAction::Deliver(Msg::Binary(b)), Reaction::DeliverBinary(c)) => b@ == c,
        (FrameAction::Fail(e), Reaction::Fail(f)) => e == f,
        _ => false,
    }
}

/// `String::from_utf8`, which accepts exactly the valid UTF-8 byte strings and
/// gives the characters that they encode.
#[verifier::external_body]
fn utf8_string(bytes: Vec<u8>) -> (r: Option<String>)
    ensures
        r is Some <==> valid_utf8(bytes@),
        r matches Some(s) ==> s@ == decode_utf8(bytes@),
{
    String::from_utf8(bytes).ok()
}

/// A message being read from a websocket.
pub struct Reassembly {
    fragments: Vec<u8>,
    msg_type: Option<u8>,
}

impl Reassembly {
    /// The state of the message being read.
    pub closed spec fn partial(&self) -> Partial {
        Partial { bytes: self.fragments@, kind: self.msg_type }
    }

    /// No message under way.
    pub fn new() -> (r: Reassembly)
        ensures
            r.partial() == fresh(),
    {
        Reassembly { fragments: Vec::new(), msg_type: None }
    }

    fn reset(&mut self)
        ensures
            final(self).partial() == fresh(),
    {
        self.fragments = Vec::new();
        self.msg_type = None;
    }

    /// Takes in one frame; the state moves as `step` says and the action is
    /// the one that `step` gives.
    pub fn on_frame(&mut self, fin: bool, opcode: u8, payload: Vec<u8>) -> (action: FrameAction)
        ensures
            final(self).partial() == step(old(self).partial(), fin, opcode, payload@).0,
            action_is(action, step(old(self).partial(), fin, opcode, payload@).1),
    {
        if opcode == OP_CLOSE {
            self.reset();
            let mut reply = payload;
            if reply.len() > 125 {
                reply.truncate(125);
                assert(reply@ =~= payload@.take(125));
            }
            return FrameAction::PeerClosed(reply);
        }
        if opcode == OP_PING {
            return FrameAction::Pong(payload);
        }
        if opcode == OP_PONG {
            return FrameAction::Continue;
        }
        if opcode == OP_TEXT || opcode == OP_BINARY {
            if self.msg_type.is_some() {
                self.reset();
                return FrameAction::Fail(MessageError::NewMessageDuringFragmentation);
            }
            self.msg_type = Some(opcode);
        } else if opcode == 0 {
            if self.msg_type.is_none() {
                self.reset();
                return FrameAction::Fail(MessageError::UnexpectedContinuation);
            }
        } else {
            self.reset();
            return FrameAction::Fail(MessageError::UnsupportedOpcode);
        }
        if payload.len() > MAX_FRAME || self.fragments.len() > MAX_FRAME - payload.len() {
            self.reset();
            return FrameAction::Fail(MessageError::TooLarge);
        }
        let mut i: usize = 0;
        let ghost before = self.fragments@;
        let ghost kind_before = self.msg_type;
        assert(kind_before == (if opcode == 0 { old(self).msg_type } else { Some(opcode) }));
        while i < payload.len()
            invariant
                i <= payload@.len(),
                self.fragments@ == before + payload@.take(i as int),
                self.msg_type == kind_before,
                before == old(self).fragments@,
            decreases payload@.len() - i,
        {
            self.fragments.push(payload[i]);
            i += 1;
            assert(self.fragments@ =~= before + payload@.take(i as int));
        }
        assert(payload@.take(i as int) =~= payload@);
        if !fin {
            return FrameAction::Continue;
        }
        let kind = self.msg_type;
        let mut bytes: Vec<u8> = Vec::new();
        std::mem::swap(&mut bytes, &mut self.fragments);
        self.msg_type = None;
        if kind == Some(OP_TEXT) {
            match utf8_string(bytes) {
                Some(s) => FrameAction::Deliver(Msg::Text(s)),
                None => FrameAction::Fail(MessageError::InvalidUtf8),
            }
        } else {
            FrameAction::Deliver(Msg::Binary(bytes))
        }
    }
}

/// The bytes that a writer sends for one final frame, or `None` once the
/// socket is closed (a close frame may still go out).
pub fn outgoing_frame(closed: bool, opcode: u8, payload: &[u8], mask: Option<[u8; 4]>) -> (r: Option<Vec<u8>>)
    requires
        payload@.len() < pow256(8),
    ensures
        r is None <==> (closed && opcode != OP_CLOSE),
        r matches Some(b) ==> b@ == frame_bytes(
            opcode,
            payload@,
            match mask {
                Some(k) => Some(k@),
                None => None,
            },
        ),
{
    if closed && opcode != OP_CLOSE {
        None
    } else {
        Some(encode_frame(opcode, payload, mask))
    }
}


/// A ping or a pong in the middle of a message leaves the message as it was.
pub proof fn lemma_control_frames_keep_message(s: Partial, fin: bool, payload: Seq<u8>)
    ensures
        step(s, fin, OP_PING, payload) == (s, Reaction::Pong(payload)),
        step(s, fin, OP_PONG, payload) == (s, Reaction::Continue),
{
}

/// A text sent as one frame is read back as the same text: the frame decodes
/// whatever follows it, and starts and ends a message with that text.
pub proof fn lemma_text_message_roundtrip(text: Seq<char>, mask: Option<Seq<u8>>, rest: Seq<u8>)
    requires
        mask matches Some(k) ==> k.len() == 4,
        encode_utf8(text).len() <= MAX_FRAME,
    ensures
        ({
            let wire = frame_bytes(OP_TEXT, encode_utf8(text), mask);
            match decode_spec(wire + rest, mask is None) {
                Decoded::Complete { fin, opcode, payload, used } => {
                    &&& used == wire.len()
                    &&& step(fresh(), fin, opcode, payload) == (fresh(), Reaction::DeliverText(text))
                },
                _ => false,
            }
        }),
{
    let bytes = encode_utf8(text);
    lemma_frame_roundtrip(OP_TEXT, bytes, mask, rest);
    encode_utf8_valid_utf8(text);
    encode_utf8_decode_utf8(text);
    assert(Seq::<u8>::empty() + bytes =~= bytes);
}

/// Bytes sent as one binary frame are read back as the same bytes.
pub proof fn lemma_binary_message_roundtrip(data: Seq<u8>, mask: Option<Seq<u8>>, rest: Seq<u8>)
    requires
        mask matches Some(k) ==> k.len() == 4,
        data.len() <= MAX_FRAME,
    ensures
        ({
            let wire = frame_bytes(OP_BINARY, data, mask);
            match decode_spec(wire + rest, mask is None) {
                Decoded::Complete { fin, opcode, payload, used } => {
                    &&& used == wire.len()
                    &&& step(fresh(), fin, opcode, payload) == (fresh(), Reaction::DeliverBinary(data))
                },
                _ => false,
            }
        }),
{
    lemma_frame_roundtrip(OP_BINARY, data, mask, rest);
    assert(Seq::<u8>::empty() + data =~= data);
}

/// Frames read one after the other: the state after the last, and what the
/// last one asked for.
pub open spec fn feed(s: Partial, frames: Seq<(bool, u8, Seq<u8>)>) -> (Partial, Reaction)
    decreases frames.len(),
{
    if frames.len() == 0 {
        (s, Reaction::Continue)
    } else {
        let next = step(s, frames[0].0, frames[0].1, frames[0].2);
        if frames.len() == 1 {
            next
        } else {
            feed(next.0, frames.drop_first())
        }
    }
}

/// The parts of a message, one after the other.
pub open spec fn concat(parts: Seq<Seq<u8>>) -> Seq<u8>
    decreases parts.len(),
{
    if parts.len() == 0 {
        Seq::empty()
    } else {
        parts[0] + concat(parts.drop_first())
    }
}

/// A message of kind `opcode` sent in parts: the first frame has the opcode,
/// the others are continuation frames, and only the last is final.
pub open spec fn fragment_frames(opcode: u8, parts: Seq<Seq<u8>>) -> Seq<(bool, u8, Seq<u8>)> {
    Seq::new(
        parts.len(),
        |i: int| (i == parts.len() - 1, if i == 0 { opcode } else { 0u8 }, parts[i]),
    )
}

/// How a message that reached its final frame ends.
pub open spec fn finished(opcode: u8, bytes: Seq<u8>) -> (Partial, Reaction) {
    if opcode == OP_TEXT {
        if valid_utf8(bytes) {
            (fresh(), Reaction::DeliverText(decode_utf8(bytes)))
        } else {
            (fresh(), Reaction::Fail(MessageError::InvalidUtf8))
        }
    } else {
        (fresh(), Reaction::DeliverBinary(bytes))
    }
}

/// Joining parts is the first part followed by the rest joined.
proof fn lemma_concat_first(parts: Seq<Seq<u8>>)
    requires
        parts.len() > 0,
    ensures
        concat(parts) == parts[0] + concat(parts.drop_first()),
{
}

/// Continuation frames append their payloads to the message under way.
proof fn lemma_feed_continuations(b: Seq<u8>, opcode: u8, parts: Seq<Seq<u8>>)
    requires
        parts.len() >= 1,
        opcode == OP_TEXT || opcode == OP_BINARY,
        b.len() + concat(parts).len() <= MAX_FRAME,
    ensures
        feed(
            Partial { bytes: b, kind: Some(opcode) },
            Seq::new(parts.len(), |i: int| (i == parts.len() - 1, 0u8, parts[i])),
        ) == finished(opcode, b + concat(parts)),
    decreases parts.len(),
{
    let frames = Seq::new(parts.len(), |i: int| (i == parts.len() - 1, 0u8, parts[i]));
    let s = Partial { bytes: b, kind: Some(opcode) };
    lemma_concat_first(parts);
    let nb = b + parts[0];
    if parts.len() == 1 {
        assert(concat(parts.drop_first()) =~= Seq::<u8>::empty());
        assert(nb =~= b + concat(parts));
    } else {
        let rest = parts.drop_first();
        assert(step(s, false, 0u8, parts[0]) == (Partial { bytes: nb, kind: Some(opcode) }, Reaction::Continue));
        assert(frames.drop_first() =~= Seq::new(rest.len(), |i: int| (i == rest.len() - 1, 0u8, rest[i])));
        lemma_feed_continuations(nb, opcode, rest);
        assert(nb + concat(rest) =~= b + concat(parts));
    }
}

/// A message sent in parts is read back whole: binary as the parts one after
/// the other, text as the characters they encode (or refused when they are
/// not valid UTF-8), as long as it is not longer than `MAX_FRAME`.
pub proof fn lemma_fragmented_message(opcode: u8, parts: Seq<Seq<u8>>)
    requires
        parts.len() >= 1,
        opcode == OP_TEXT || opcode == OP_BINARY,
        concat(parts).len() <= MAX_FRAME,
    ensures
        feed(fresh(), fragment_frames(opcode, parts)) == finished(opcode, concat(parts)),
{
    let frames = fragment_frames(opcode, parts);
    lemma_concat_first(parts);
    let first = parts[0];
    assert(Seq::<u8>::empty() + first =~= first);
    if parts.len() == 1 {
        assert(concat(parts.drop_first()) =~= Seq::<u8>::empty());
        assert(first =~= concat(parts));
    } else {
        let rest = parts.drop_first();
        assert(step(fresh(), false, opcode, first) == (Partial { bytes: first, kind: Some(opcode) }, Reaction::Continue));
        assert(frames.drop_first() =~= Seq::new(rest.len(), |i: int| (i == rest.len() - 1, 0u8, rest[i])));
        lemma_feed_continuations(first, opcode, rest);
    }
}

} // verus!
