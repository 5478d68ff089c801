use rush::frame::{encode_frame, MAX_FRAME, OP_BINARY, OP_CLOSE, OP_PING, OP_PONG, OP_TEXT};
use rush::message::{outgoing_frame, FrameAction, MessageError, Msg, Reassembly};

fn delivered_text(a: FrameAction) -> String {
    match a {
        FrameAction::Deliver(Msg::Text(t)) => t,
        _ => panic!("expected a text message"),
    }
}

fn delivered_binary(a: FrameAction) -> Vec<u8> {
    match a {
        FrameAction::Deliver(Msg::Binary(b)) => b,
        _ => panic!("expected a binary message"),
    }
}

fn failure(a: FrameAction) -> MessageError {
    match a {
        FrameAction::Fail(e) => e,
        _ => panic!("expected a failure"),
    }
}

#[test]
fn single_text_frame_is_a_message() {
    let mut r = Reassembly::new();
    let t = delivered_text(r.on_frame(true, OP_TEXT, b"{\"type\": \"resize\"}".to_vec()));
    assert_eq!(t, "{\"type\": \"resize\"}");
}

#[test]
fn single_binary_frame_is_a_message() {
    let mut r = Reassembly::new();
    assert_eq!(delivered_binary(r.on_frame(true, OP_BINARY, vec![0, 1, 2])), vec![0, 1, 2]);
}

#[test]
fn fragments_are_joined() {
    let mut r = Reassembly::new();
    assert!(matches!(r.on_frame(false, OP_TEXT, b"hel".to_vec()), FrameAction::Continue));
    assert!(matches!(r.on_frame(false, 0, b"lo ".to_vec()), FrameAction::Continue));
    assert_eq!(delivered_text(r.on_frame(true, 0, b"world".to_vec())), "hello world");
    // The reader is fresh again afterwards.
    assert_eq!(delivered_binary(r.on_frame(true, OP_BINARY, vec![9])), vec![9]);
}

#[test]
fn control_frames_between_fragments() {
    let mut r = Reassembly::new();
    assert!(matches!(r.on_frame(false, OP_BINARY, vec![1, 2]), FrameAction::Continue));
    match r.on_frame(true, OP_PING, b"ping!".to_vec()) {
        FrameAction::Pong(p) => assert_eq!(p, b"ping!".to_vec()),
        _ => panic!("expected a pong"),
    }
    assert!(matches!(r.on_frame(true, OP_PONG, vec![7]), FrameAction::Continue));
    assert_eq!(delivered_binary(r.on_frame(true, 0, vec![3])), vec![1, 2, 3]);
}

#[test]
fn close_is_answered_with_its_payload() {
    let mut r = Reassembly::new();
    assert!(matches!(r.on_frame(false, OP_TEXT, b"x".to_vec()), FrameAction::Continue));
    match r.on_frame(true, OP_CLOSE, vec![0x03, 0xe8]) {
        FrameAction::PeerClosed(p) => assert_eq!(p, vec![0x03, 0xe8]),
        _ => panic!("expected a close"),
    }
    // The half-read message is gone: a continuation has nothing to continue.
    assert_eq!(failure(r.on_frame(true, 0, vec![])), MessageError::UnexpectedContinuation);
}

#[test]
fn long_close_payload_is_cut() {
    let mut r = Reassembly::new();
    match r.on_frame(true, OP_CLOSE, vec![5u8; 200]) {
        FrameAction::PeerClosed(p) => assert_eq!(p, vec![5u8; 125]),
        _ => panic!("expected a close"),
    }
}

#[test]
fn message_errors() {
    let mut r = Reassembly::new();
    assert_eq!(failure(r.on_frame(true, 0, b"x".to_vec())), MessageError::UnexpectedContinuation);
    assert!(matches!(r.on_frame(false, OP_TEXT, b"a".to_vec()), FrameAction::Continue));
    assert_eq!(failure(r.on_frame(true, OP_BINARY, vec![1])), MessageError::NewMessageDuringFragmentation);
    assert_eq!(failure(r.on_frame(true, 3, vec![])), MessageError::UnsupportedOpcode);
    assert_eq!(failure(r.on_frame(true, OP_TEXT, vec![0xff, 0xfe])), MessageError::InvalidUtf8);
    assert!(matches!(r.on_frame(false, OP_BINARY, vec![0u8; MAX_FRAME]), FrameAction::Continue));
    assert_eq!(failure(r.on_frame(true, 0, vec![1])), MessageError::TooLarge);
    // After a failure the reader starts over.
    assert_eq!(delivered_text(r.on_frame(true, OP_TEXT, "é".as_bytes().to_vec())), "é");
}

#[test]
fn writer_sends_nothing_after_close_but_close() {
    assert_eq!(outgoing_frame(false, OP_TEXT, b"hi", None), Some(encode_frame(OP_TEXT, b"hi", None)));
    assert_eq!(outgoing_frame(true, OP_BINARY, b"hi", None), None);
    assert_eq!(
        outgoing_frame(true, OP_CLOSE, &[], Some([1, 2, 3, 4])),
        Some(encode_frame(OP_CLOSE, &[], Some([1, 2, 3, 4])))
    );
}
