//! The socket duplex transport's logic.
//!
//! One persistent full-duplex connection carries the same frames as the
//! paired HTTP exchanges, one frame per binary message, the op byte first
//! and no length prefix. Inbound control messages are not frames: a ping
//! must be answered with a pong carrying the same payload, and the rest
//! are skipped. A handshake answered with a client- or server-error
//! status is fatal.

use vstd::prelude::*;
use crate::codec::{Code, DecodeError, Frame, FrameModel, str_payload, spec_decode_msg, decode_msg};
use crate::command::{command_frames, arg_frames};
use vstd::string::StringSliceAdditionalSpecFns;
use vstd::utf8::{encode_utf8, is_ascii_chars, is_ascii_chars_encode_utf8};

verus! {

/// An inbound socket message, as the connection hands it over.
pub enum SocketMessage {
    /// A binary message: one frame in the message serialization.
    Binary(Vec<u8>),
    /// A text message; not part of the protocol.
    Text(String),
    /// A keep-alive probe that must be answered.
    Ping(Vec<u8>),
    /// The answer to a probe of ours; nothing to do.
    Pong(Vec<u8>),
    /// The far side is closing.
    Close,
}

/// What to do with one inbound socket message.
pub enum SocketReply {
    /// The message was a frame: hand it to the demultiplexer.
    Frame(Frame),
    /// Answer the probe with a pong carrying exactly this payload.
    SendPong(Vec<u8>),
    /// Not a frame and nothing owed: read on.
    Skip,
}

/// Decide what one inbound message calls for: a binary message is decoded
/// as a frame, a ping is answered with a matching pong, anything else is
/// skipped.
pub fn handle_message(m: SocketMessage) -> (r: Result<SocketReply, DecodeError>)
    ensures
        match m {
            SocketMessage::Binary(b) => match r {
                Ok(SocketReply::Frame(f)) => spec_decode_msg(b@) matches Ok(fm) && fm == f@,
                Err(e) => spec_decode_msg(b@) == Err::<FrameModel, DecodeError>(e),
                _ => false,
            },
            SocketMessage::Ping(d) => r matches Ok(SocketReply::SendPong(p)) && p@ == d@,
            _ => r matches Ok(SocketReply::Skip),
        },
{
    match m {
        SocketMessage::Binary(b) => {
            match decode_msg(b.as_slice()) {
                Ok(f) => Ok(SocketReply::Frame(f)),
                Err(e) => Err(e),
            }
        },
        SocketMessage::Ping(d) => Ok(SocketReply::SendPong(d)),
        _ => Ok(SocketReply::Skip),
    }
}

/// Whether a handshake status rejects the upgrade: any client- or
/// server-error status.
pub open spec fn spec_handshake_rejected(s: u16) -> bool {
    400 <= s < 600
}

/// Whether the protocol upgrade was rejected by its status.
pub fn handshake_rejected(s: u16) -> (r: bool)
    ensures
        r == spec_handshake_rejected(s),
{
    400 <= s && s < 600
}

/// The frames of one command invocation, as values, for a transport that
/// writes one frame per message.
pub fn command_frame_list(args: &Vec<String>) -> (r: Vec<Frame>)
    requires
        forall|i: int| 0 <= i < args@.len() ==> #[trigger] encode_utf8(
            args.deep_view()[i]).len() <= u16::MAX,
    ensures
        Seq::new(r@.len(), |i: int| r@[i]@) == command_frames(args.deep_view()),
{
    broadcast use is_ascii_chars_encode_utf8;

    let ghost dv = args.deep_view();
    let mut r: Vec<Frame> = Vec::new();
    if args.len() == 0 {
        proof {
            reveal_strlit("help");
            assert(is_ascii_chars("help"@));
        }
        r.push(string_frame(Code::Arg, "help"));
        proof {
            assert(Seq::new(r@.len(), |i: int| r@[i]@) =~= arg_frames(seq!["help"@]));
        }
    } else {
        let mut i: usize = 0;
        while i < args.len()
            invariant
                i <= args@.len(),
                dv == args.deep_view(),
                dv.len() == args@.len(),
                forall|j: int| 0 <= j < args@.len() ==> #[trigger] encode_utf8(dv[j]).len()
                    <= u16::MAX,
                r@.len() == i,
                Seq::new(r@.len(), |k: int| r@[k]@) == arg_frames(dv.take(i as int)),
            decreases args@.len() - i,
        {
            let a: &String = &args[i];
            proof {
                assert(args@[i as int]@ == dv[i as int]);
            }
            let ghost prev = r@;
            r.push(string_frame(Code::Arg, a.as_str()));
            i = i + 1;
            proof {
                let ghost f = FrameModel { op: Code::Arg, data: str_payload(dv[i as int - 1]) };
                assert(arg_frames(dv.take(i as int)) =~= arg_frames(dv.take(i as int - 1)).push(f));
                assert(r@ == prev.push(r@[i as int - 1]));
                assert(Seq::new(r@.len(), |k: int| r@[k]@) =~= arg_frames(dv.take(i as int - 1)).push(f));
            }
        }
        proof {
            assert(dv.take(dv.len() as int) =~= dv);
        }
    }
    proof {
        reveal_strlit("utf-8");
        reveal_strlit("en");
        assert(is_ascii_chars("utf-8"@));
        assert(is_ascii_chars("en"@));
    }
    r.push(string_frame(Code::Encoding, "utf-8"));
    r.push(string_frame(Code::Locale, "en"));
    r.push(Frame { op: Code::Start, data: Vec::new() });
    proof {
        assert(Seq::new(r@.len(), |i: int| r@[i]@) =~= command_frames(dv));
    }
    r
}

/// A frame carrying a string payload.
fn string_frame(op: Code, s: &str) -> (r: Frame)
    requires
        s.spec_bytes().len() <= u16::MAX,
    ensures
        r@ == (FrameModel { op, data: str_payload(s@) }),
{
    let sb = s.as_bytes();
    let mut data: Vec<u8> = Vec::new();
    crate::bytes::push_be16(&mut data, sb.len() as u16);
    crate::codec::push_bytes(&mut data, sb);
    proof {
        assert(data@ =~= str_payload(s@));
    }
    Frame { op, data }
}

} // verus!
