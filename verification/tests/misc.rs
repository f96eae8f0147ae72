use jk::auth::basic_auth_value;
use jk::codec::{Code, DecodeError, Frame};
use jk::jobs::{append_path, split_lines};
use jk::mutf8::{from_modified_utf8, ModifiedUtf8Error};
use jk::outbuf::BoundedBuf;
use jk::session::handshake_plan;
use jk::socket::{command_frame_list, handle_message, handshake_rejected, SocketMessage, SocketReply};

#[test]
fn basic_auth_is_base64_of_user_colon_pass() {
    // "user:pass" in base64 is dXNlcjpwYXNz.
    assert_eq!(basic_auth_value("user", "pass"), "Basic dXNlcjpwYXNz");
    // An empty pair still encodes: ":" is Og==.
    assert_eq!(basic_auth_value("", ""), "Basic Og==");
}

#[test]
fn handshake_plan_carries_endpoint_and_auth() {
    let cfg = jk::session::Server {
        url: "https://ci.example".to_string(),
        username: "user".to_string(),
        password: "pass".to_string(),
        proxy: None,
    };
    let plan = handshake_plan(&cfg);
    assert_eq!(plan.url, "https://ci.example/cli/ws");
    assert_eq!(plan.authorization, "Basic dXNlcjpwYXNz");
}

#[test]
fn handshake_status_rejection() {
    assert!(!handshake_rejected(101));
    assert!(!handshake_rejected(200));
    assert!(!handshake_rejected(399));
    assert!(handshake_rejected(400));
    assert!(handshake_rejected(401));
    assert!(handshake_rejected(500));
    assert!(handshake_rejected(599));
    assert!(!handshake_rejected(600));
}

#[test]
fn ping_is_answered_with_matching_pong() {
    match handle_message(SocketMessage::Ping(b"probe".to_vec())) {
        Ok(SocketReply::SendPong(p)) => assert_eq!(p, b"probe".to_vec()),
        _ => panic!("a ping must be answered"),
    }
}

#[test]
fn binary_message_becomes_a_frame() {
    match handle_message(SocketMessage::Binary(vec![7, b'h', b'i'])) {
        Ok(SocketReply::Frame(f)) => {
            assert_eq!(f.op, Code::Stdout);
            assert_eq!(f.data, b"hi".to_vec());
        }
        _ => panic!("a binary message is a frame"),
    }
}

#[test]
fn text_and_pong_messages_are_skipped() {
    match handle_message(SocketMessage::Text("chatter".to_string())) {
        Ok(SocketReply::Skip) => {}
        _ => panic!("a text message is skipped"),
    }
    match handle_message(SocketMessage::Pong(vec![1])) {
        Ok(SocketReply::Skip) => {}
        _ => panic!("a pong is skipped"),
    }
}

#[test]
fn bad_binary_message_fails() {
    match handle_message(SocketMessage::Binary(vec![42])) {
        Err(DecodeError::UnknownOp(42)) => {}
        _ => panic!("an unknown op byte fails the message"),
    }
    match handle_message(SocketMessage::Binary(Vec::new())) {
        Err(DecodeError::Truncated) => {}
        _ => panic!("an empty message fails"),
    }
}

#[test]
fn frame_list_matches_the_encoded_command() {
    let args = vec!["list-jobs".to_string(), "folder".to_string()];
    let frames = command_frame_list(&args);
    let mut enc = jk::codec::Encoder::new();
    for f in &frames {
        enc.frame(f);
    }
    assert_eq!(enc.buffer(), jk::command::encode_command(&args));
}

#[test]
fn frame_list_for_no_args_is_the_help_command() {
    let frames = command_frame_list(&Vec::new());
    assert_eq!(frames.len(), 4);
    assert_eq!(frames[0].op, Code::Arg);
    assert_eq!(frames[0].data, vec![0, 4, b'h', b'e', b'l', b'p']);
    assert_eq!(frames[3], Frame { op: Code::Start, data: Vec::new() });
}

#[test]
fn append_path_inserts_one_slash() {
    assert_eq!(append_path("folder", "job"), "folder/job");
    assert_eq!(append_path("folder/", "job"), "folder/job");
    assert_eq!(append_path("", "job"), "/job");
}

#[test]
fn split_lines_on_output() {
    assert_eq!(split_lines(b"").len(), 0);
    assert_eq!(split_lines(b"a\nbb\nccc"), vec![b"a".to_vec(), b"bb".to_vec(), b"ccc".to_vec()]);
    assert_eq!(split_lines(b"a\nbb\n"), vec![b"a".to_vec(), b"bb".to_vec()]);
    assert_eq!(split_lines(b"a\r\nbb\r\n"), vec![b"a".to_vec(), b"bb".to_vec()]);
    assert_eq!(split_lines(b"\n\n"), vec![Vec::new(), Vec::new()]);
}

#[test]
fn bounded_buffer_takes_what_fits() {
    let mut buf = BoundedBuf::new(4);
    assert_eq!(buf.write(b"abc"), 3);
    assert_eq!(buf.write(b"defg"), 1);
    // The buffer is full: a writer that keeps offering makes no progress
    // until the reader drains something.
    assert_eq!(buf.write(b"hij"), 0);
    assert_eq!(buf.write(b"hij"), 0);
    let head = buf.read(2);
    assert_eq!(head, b"ab".to_vec());
    assert_eq!(buf.write(b"hij"), 2);
    assert_eq!(buf.read(10), b"cdhi".to_vec());
    assert_eq!(buf.read(1), Vec::<u8>::new());
}

#[test]
fn stalled_decode_worker_buffers_at_most_the_capacity() {
    // The consumer never reads: however much output arrives, no more
    // than the pipe's capacity is ever held.
    let mut buf = BoundedBuf::new(8);
    let mut accepted_total = 0;
    for _ in 0..100 {
        accepted_total += buf.write(b"0123456789");
    }
    assert_eq!(accepted_total, 8);
    assert_eq!(buf.free(), 0);
}

#[test]
fn modified_utf8_plain_ascii() {
    assert_eq!(from_modified_utf8(b""), Ok(String::new()));
    assert_eq!(from_modified_utf8(b"hello"), Ok("hello".to_string()));
}

#[test]
fn modified_utf8_standard_multibyte() {
    assert_eq!(from_modified_utf8("büild".as_bytes()), Ok("büild".to_string()));
    assert_eq!(from_modified_utf8("\u{20AC}".as_bytes()), Ok("\u{20AC}".to_string()));
}

#[test]
fn modified_utf8_nul_pair() {
    assert_eq!(from_modified_utf8(&[0xC0, 0x80]), Ok("\0".to_string()));
    assert_eq!(
        from_modified_utf8(&[b'a', 0xC0, 0x80, b'b']),
        Ok("a\0b".to_string())
    );
    // An embedded plain NUL byte is also fine: it is valid standard UTF-8.
    assert_eq!(from_modified_utf8(&[0x00]), Ok("\0".to_string()));
}

#[test]
fn modified_utf8_surrogate_pair() {
    // U+1F600 as a surrogate pair D83D DE00, each surrogate in three
    // bytes: ED A0 BD ED B8 80.
    assert_eq!(
        from_modified_utf8(&[0xED, 0xA0, 0xBD, 0xED, 0xB8, 0x80]),
        Ok("\u{1F600}".to_string())
    );
}

#[test]
fn modified_utf8_malformed() {
    // A lone continuation byte.
    assert_eq!(from_modified_utf8(&[0x80]), Err(ModifiedUtf8Error::Malformed));
    // An overlong two-byte encoding other than the NUL pair.
    assert_eq!(from_modified_utf8(&[0xC0, 0x81]), Err(ModifiedUtf8Error::Malformed));
    // A surrogate pair that goes on wrong.
    assert_eq!(
        from_modified_utf8(&[0xED, 0xA0, 0xBD, 0x41]),
        Err(ModifiedUtf8Error::Malformed)
    );
    // A low surrogate leads no unit.
    assert_eq!(
        from_modified_utf8(&[0xED, 0xB0, 0x80]),
        Err(ModifiedUtf8Error::Malformed)
    );
    // A byte that leads nothing.
    assert_eq!(from_modified_utf8(&[0xFF]), Err(ModifiedUtf8Error::Malformed));
}

#[test]
fn modified_utf8_incomplete() {
    // A leading byte cut off at the end of the input.
    assert_eq!(from_modified_utf8(&[0xC3]), Err(ModifiedUtf8Error::Incomplete));
    // Half of the NUL pair.
    assert_eq!(from_modified_utf8(&[0xC0]), Err(ModifiedUtf8Error::Incomplete));
    // A three-byte encoding cut after two bytes.
    assert_eq!(
        from_modified_utf8(&[0xE2, 0x82]),
        Err(ModifiedUtf8Error::Incomplete)
    );
    // A four-byte encoding cut after three bytes.
    assert_eq!(
        from_modified_utf8(&[b'a', 0xF0, 0x9F, 0x98]),
        Err(ModifiedUtf8Error::Incomplete)
    );
    // A high surrogate whose low half never comes.
    assert_eq!(
        from_modified_utf8(&[0xED, 0xA0, 0xBD]),
        Err(ModifiedUtf8Error::Incomplete)
    );
    // An overlong start is not incomplete but wrong.
    assert_eq!(
        from_modified_utf8(&[0xE0, 0x80]),
        Err(ModifiedUtf8Error::Malformed)
    );
}
