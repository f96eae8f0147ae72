//! The binary frame codec.
//!
//! A frame is an op code and a byte payload. Two serializations carry the
//! same frame value: the length-delimited form used by the paired HTTP
//! exchanges (`u32` big-endian payload length, op byte, payload) and the
//! message form used by the full-duplex socket (op byte, payload; the
//! connection itself delimits messages).

use vstd::prelude::*;
use crate::bytes::{be16_bytes, be32, be32_bytes, be32_signed, push_be16, push_be32, read_be32,
    read_be32_signed, lemma_be32_round};
use vstd::utf8::encode_utf8;
use vstd::string::StringSliceAdditionalSpecFns;

verus! {

/// The closed set of frame kinds, wire values zero through eight.
#[derive(Clone, Copy, Debug, PartialEq, Eq, Structural)]
pub enum Code {
    Arg,
    Locale,
    Encoding,
    Start,
    Exit,
    Stdin,
    EndStdin,
    Stdout,
    Stderr,
}

/// The wire value of an op code.
pub open spec fn code_value(c: Code) -> u8 {
    match c {
        Code::Arg => 0,
        Code::Locale => 1,
        Code::Encoding => 2,
        Code::Start => 3,
        Code::Exit => 4,
        Code::Stdin => 5,
        Code::EndStdin => 6,
        Code::Stdout => 7,
        Code::Stderr => 8,
    }
}

/// The op code of a wire value at most eight.
pub open spec fn code_of_value(b: u8) -> Code
    recommends
        b <= 8,
{
    if b == 0 {
        Code::Arg
    } else if b == 1 {
        Code::Locale
    } else if b == 2 {
        Code::Encoding
    } else if b == 3 {
        Code::Start
    } else if b == 4 {
        Code::Exit
    } else if b == 5 {
        Code::Stdin
    } else if b == 6 {
        Code::EndStdin
    } else if b == 7 {
        Code::Stdout
    } else {
        Code::Stderr
    }
}

impl Code {
    /// The wire value of this op code.
    pub fn value(self) -> (b: u8)
        ensures
            b == code_value(self),
    {
        match self {
            Code::Arg => 0,
            Code::Locale => 1,
            Code::Encoding => 2,
            Code::Start => 3,
            Code::Exit => 4,
            Code::Stdin => 5,
            Code::EndStdin => 6,
            Code::Stdout => 7,
            Code::Stderr => 8,
        }
    }

    /// The op code of a wire value: defined exactly for zero through eight.
    pub fn try_from(b: u8) -> (r: Option<Code>)
        ensures
            r is Some <==> b <= 8,
            b <= 8 ==> r == Some(code_of_value(b)) && code_value(code_of_value(b)) == b,
    {
        match b {
            0 => Some(Code::Arg),
            1 => Some(Code::Locale),
            2 => Some(Code::Encoding),
            3 => Some(Code::Start),
            4 => Some(Code::Exit),
            5 => Some(Code::Stdin),
            6 => Some(Code::EndStdin),
            7 => Some(Code::Stdout),
            8 => Some(Code::Stderr),
            _ => None,
        }
    }
}

/// One unit of the wire protocol: an op code plus a byte payload.
#[derive(Debug, PartialEq, Eq)]
pub struct Frame {
    pub op: Code,
    pub data: Vec<u8>,
}

/// The mathematical value of a frame.
pub ghost struct FrameModel {
    pub op: Code,
    pub data: Seq<u8>,
}

impl View for Frame {
    type V = FrameModel;

    open spec fn view(&self) -> FrameModel {
        FrameModel { op: self.op, data: self.data@ }
    }
}

/// Why a byte stream failed to decode.
#[derive(Clone, Copy, Debug, PartialEq, Eq, Structural)]
pub enum DecodeError {
    /// The stream ended before a complete frame was read.
    Truncated,
    /// An op byte outside the known range.
    UnknownOp(u8),
    /// The single byte expected before the first frame was missing or not zero.
    LeadingByte(u8),
    /// An exit frame whose payload is not exactly four bytes.
    ExitPayload,
}

/// The length-delimited serialization of a frame: four-byte big-endian
/// payload length, one op byte, then the payload.
pub open spec fn frame_bytes(f: FrameModel) -> Seq<u8>
    recommends
        f.data.len() <= u32::MAX,
{
    be32_bytes(f.data.len() as u32) + seq![code_value(f.op)] + f.data
}

/// The message serialization of a frame: one op byte, then the payload.
pub open spec fn msg_bytes(f: FrameModel) -> Seq<u8> {
    seq![code_value(f.op)] + f.data
}

/// The payload of a frame that carries a string: two-byte big-endian length
/// of the UTF-8 encoding, then that encoding.
pub open spec fn str_payload(s: Seq<char>) -> Seq<u8>
    recommends
        encode_utf8(s).len() <= u16::MAX,
{
    be16_bytes(encode_utf8(s).len() as u16) + encode_utf8(s)
}

/// Decoding one length-delimited frame from the front of a stream: either
/// the frame and the number of bytes it occupies, or the error.
pub open spec fn spec_decode_frame(s: Seq<u8>) -> Result<(FrameModel, int), DecodeError> {
    if s.len() < 4 {
        Err(DecodeError::Truncated)
    } else {
        let len = be32(s.subrange(0, 4));
        if s.len() < 5 {
            Err(DecodeError::Truncated)
        } else if s[4] > 8 {
            Err(DecodeError::UnknownOp(s[4]))
        } else if s.len() < 5 + len {
            Err(DecodeError::Truncated)
        } else {
            Ok((FrameModel { op: code_of_value(s[4]), data: s.subrange(5, 5 + len) }, 5 + len))
        }
    }
}

/// Decoding one message-framed frame: the whole message is one frame.
pub open spec fn spec_decode_msg(s: Seq<u8>) -> Result<FrameModel, DecodeError> {
    if s.len() < 1 {
        Err(DecodeError::Truncated)
    } else if s[0] > 8 {
        Err(DecodeError::UnknownOp(s[0]))
    } else {
        Ok(FrameModel { op: code_of_value(s[0]), data: s.skip(1) })
    }
}

/// The signed exit code held by an exit frame's payload, when that payload
/// is exactly four bytes.
pub open spec fn spec_exit_code(data: Seq<u8>) -> Result<int, DecodeError> {
    if data.len() == 4 {
        Ok(be32_signed(data))
    } else {
        Err(DecodeError::ExitPayload)
    }
}

/// Append each byte of `s` to `buf`.
pub fn push_bytes(buf: &mut Vec<u8>, s: &[u8])
    ensures
        final(buf)@ == old(buf)@ + s@,
{
    let mut i: usize = 0;
    while i < s.len()
        invariant
            i <= s@.len(),
            buf@ == old(buf)@ + s@.subrange(0, i as int),
        decreases s@.len() - i,
    {
        buf.push(s[i]);
        i = i + 1;
        assert(buf@ =~= old(buf)@ + s@.subrange(0, i as int));
    }
    assert(s@.subrange(0, s@.len() as int) =~= s@);
}

/// Serializes frames into a growing buffer in the length-delimited form.
pub struct Encoder {
    buf: Vec<u8>,
}

impl View for Encoder {
    type V = Seq<u8>;

    closed spec fn view(&self) -> Seq<u8> {
        self.buf@
    }
}

impl Encoder {
    /// An encoder with an empty buffer.
    pub fn new() -> (r: Encoder)
        ensures
            r@ == Seq::<u8>::empty(),
    {
        let r = Encoder { buf: Vec::new() };
        assert(r@ =~= Seq::<u8>::empty());
        r
    }

    /// Append the length-delimited serialization of `f`.
    pub fn frame(&mut self, f: &Frame)
        requires
            f.data@.len() <= u32::MAX,
        ensures
            final(self)@ == old(self)@ + frame_bytes(f@),
    {
        push_be32(&mut self.buf, f.data.len() as u32);
        self.buf.push(f.op.value());
        push_bytes(&mut self.buf, f.data.as_slice());
        assert(self@ =~= old(self)@ + frame_bytes(f@));
    }

    /// Append a frame with the given op code and no payload.
    pub fn op(&mut self, op: Code)
        ensures
            final(self)@ == old(self)@ + frame_bytes(FrameModel { op, data: Seq::empty() }),
    {
        let f = Frame { op, data: Vec::new() };
        self.frame(&f);
        assert(f@.data =~= Seq::<u8>::empty());
    }

    /// Append a frame with the given op code carrying a string payload.
    pub fn string(&mut self, op: Code, s: &str)
        requires
            s.spec_bytes().len() <= u16::MAX,
        ensures
            final(self)@ == old(self)@ + frame_bytes(FrameModel { op, data: str_payload(s@) }),
    {
        let sb = s.as_bytes();
        let mut data: Vec<u8> = Vec::new();
        push_be16(&mut data, sb.len() as u16);
        push_bytes(&mut data, sb);
        assert(data@ =~= str_payload(s@));
        let f = Frame { op, data };
        self.frame(&f);
    }

    /// The bytes encoded so far.
    pub fn buffer(&self) -> (r: Vec<u8>)
        ensures
            r@ == self@,
    {
        let mut r: Vec<u8> = Vec::new();
        push_bytes(&mut r, self.buf.as_slice());
        assert(r@ =~= self@);
        r
    }
}

/// Reads length-delimited frames from the front of an in-memory byte stream.
pub struct Decoder {
    buf: Vec<u8>,
    pos: usize,
}

impl Decoder {
    /// The bytes not yet consumed.
    pub closed spec fn remaining(&self) -> Seq<u8> {
        self.buf@.skip(self.pos as int)
    }

    /// The position never passes the end of the buffer.
    pub closed spec fn wf(&self) -> bool {
        self.pos <= self.buf@.len()
    }

    /// A decoder over the whole of `buf`.
    pub fn new(buf: Vec<u8>) -> (r: Decoder)
        ensures
            r.wf(),
            r.remaining() == buf@,
    {
        let r = Decoder { buf, pos: 0 };
        assert(r.remaining() =~= r.buf@);
        r
    }

    /// Consume the single zero byte that precedes the first frame of a
    /// download stream; any other start is a protocol error.
    pub fn skip_initial_zero(&mut self) -> (r: Result<(), DecodeError>)
        requires
            old(self).wf(),
        ensures
            final(self).wf(),
            match r {
                Ok(()) => old(self).remaining().len() > 0 && old(self).remaining()[0] == 0
                    && final(self).remaining() == old(self).remaining().skip(1),
                Err(e) => final(self).remaining() == old(self).remaining() && (match e {
                    DecodeError::Truncated => old(self).remaining().len() == 0,
                    DecodeError::LeadingByte(b) => old(self).remaining().len() > 0
                        && old(self).remaining()[0] == b && b != 0,
                    _ => false,
                }),
            },
    {
        if self.pos >= self.buf.len() {
            return Err(DecodeError::Truncated);
        }
        let b = self.buf[self.pos];
        if b != 0 {
            return Err(DecodeError::LeadingByte(b));
        }
        self.pos = self.pos + 1;
        assert(self.remaining() =~= old(self).remaining().skip(1));
        Ok(())
    }

    /// Decode the next frame, consuming its bytes; on an error the stream
    /// is left as it was.
    pub fn frame(&mut self) -> (r: Result<Frame, DecodeError>)
        requires
            old(self).wf(),
        ensures
            final(self).wf(),
            match r {
                Ok(f) => spec_decode_frame(old(self).remaining()) matches Ok(p) && p.0 == f@
                    && final(self).remaining() == old(self).remaining().skip(p.1),
                Err(e) => spec_decode_frame(old(self).remaining()) == Err::<(FrameModel, int),
                    DecodeError>(e) && final(self).remaining() == old(self).remaining(),
            },
    {
        let avail = self.buf.len() - self.pos;
        if avail < 4 {
            return Err(DecodeError::Truncated);
        }
        let len32 = read_be32(self.buf.as_slice(), self.pos);
        assert(self.buf@.subrange(self.pos as int, self.pos + 4)
            =~= self.remaining().subrange(0, 4));
        if avail < 5 {
            return Err(DecodeError::Truncated);
        }
        let opb = self.buf[self.pos + 4];
        assert(opb == self.remaining()[4]);
        let op = match Code::try_from(opb) {
            Some(op) => op,
            None => {
                return Err(DecodeError::UnknownOp(opb));
            },
        };
        let len = len32 as usize;
        if avail - 5 < len {
            assert(self.remaining().len() < 5 + len32);
            return Err(DecodeError::Truncated);
        }
        let start = self.pos + 5;
        let data_slice = vstd::slice::slice_subrange(self.buf.as_slice(), start, start + len);
        let data = vstd::slice::slice_to_vec(data_slice);
        self.pos = start + len;
        let f = Frame { op, data };
        proof {
            let s = old(self).remaining();
            assert(f@.data =~= s.subrange(5, 5 + len32 as int));
            assert(self.remaining() =~= s.skip(5 + len32 as int));
        }
        Ok(f)
    }
}


/// Reads length-delimited frames from a byte stream that arrives in
/// chunks: bytes are fed in as they come, frames come out as soon as they
/// are complete, and what was consumed is dropped.
pub struct StreamDecoder {
    buf: Vec<u8>,
    pos: usize,
    zero_skipped: bool,
}

impl StreamDecoder {
    /// The bytes fed in and not yet consumed.
    pub closed spec fn remaining(&self) -> Seq<u8> {
        self.buf@.skip(self.pos as int)
    }

    /// Whether the single zero byte before the first frame was consumed.
    pub closed spec fn started(&self) -> bool {
        self.zero_skipped
    }

    /// The position never passes the end of the buffer.
    pub closed spec fn wf(&self) -> bool {
        self.pos <= self.buf@.len()
    }

    /// A decoder that has seen nothing yet.
    pub fn new() -> (r: StreamDecoder)
        ensures
            r.wf(),
            !r.started(),
            r.remaining() == Seq::<u8>::empty(),
    {
        let r = StreamDecoder { buf: Vec::new(), pos: 0, zero_skipped: false };
        assert(r.remaining() =~= Seq::<u8>::empty());
        r
    }

    /// Feed the next chunk of the stream, dropping what was consumed.
    pub fn feed(&mut self, chunk: &[u8])
        requires
            old(self).wf(),
        ensures
            final(self).wf(),
            final(self).started() == old(self).started(),
            final(self).remaining() == old(self).remaining() + chunk@,
    {
        let rest = vstd::slice::slice_subrange(self.buf.as_slice(), self.pos, self.buf.len());
        let mut nb: Vec<u8> = Vec::new();
        push_bytes(&mut nb, rest);
        push_bytes(&mut nb, chunk);
        self.buf = nb;
        self.pos = 0;
        assert(self.remaining() =~= old(self).remaining() + chunk@);
    }

    /// Consume the single zero byte that precedes the first frame: done
    /// when it returns true; false asks for more input; any byte but zero
    /// in its place is a protocol error and changes nothing.
    pub fn start(&mut self) -> (r: Result<bool, DecodeError>)
        requires
            old(self).wf(),
        ensures
            final(self).wf(),
            match r {
                Ok(true) => final(self).started() && (if old(self).started() {
                    final(self).remaining() == old(self).remaining()
                } else {
                    old(self).remaining().len() > 0 && old(self).remaining()[0] == 0
                        && final(self).remaining() == old(self).remaining().skip(1)
                }),
                Ok(false) => !old(self).started() && old(self).remaining().len() == 0
                    && final(self).started() == old(self).started() && final(self).remaining()
                    == old(self).remaining(),
                Err(e) => final(self).started() == old(self).started() && final(self).remaining()
                    == old(self).remaining() && (e matches DecodeError::LeadingByte(b)
                    && !old(self).started() && old(self).remaining().len() > 0 && old(
                    self).remaining()[0] == b && b != 0),
            },
    {
        if self.zero_skipped {
            return Ok(true);
        }
        if self.pos >= self.buf.len() {
            return Ok(false);
        }
        let b = self.buf[self.pos];
        if b != 0 {
            return Err(DecodeError::LeadingByte(b));
        }
        self.pos = self.pos + 1;
        self.zero_skipped = true;
        assert(self.remaining() =~= old(self).remaining().skip(1));
        Ok(true)
    }

    /// Decode the next frame if its bytes are all here: a complete frame
    /// is consumed, an incomplete one asks for more input, and an op byte
    /// outside the known range is an error; in the latter two cases
    /// nothing changes.
    pub fn next(&mut self) -> (r: Result<Option<Frame>, DecodeError>)
        requires
            old(self).wf(),
            old(self).started(),
        ensures
            final(self).wf(),
            final(self).started(),
            match r {
                Ok(Some(f)) => spec_decode_frame(old(self).remaining()) matches Ok(p) && p.0
                    == f@ && final(self).remaining() == old(self).remaining().skip(p.1),
                Ok(None) => spec_decode_frame(old(self).remaining()) == Err::<(FrameModel, int),
                    DecodeError>(DecodeError::Truncated) && final(self).remaining() == old(
                    self).remaining(),
                Err(e) => spec_decode_frame(old(self).remaining()) == Err::<(FrameModel, int),
                    DecodeError>(e) && !(e is Truncated) && final(self).remaining() == old(
                    self).remaining(),
            },
    {
        let avail = self.buf.len() - self.pos;
        if avail < 4 {
            return Ok(None);
        }
        let len32 = read_be32(self.buf.as_slice(), self.pos);
        assert(self.buf@.subrange(self.pos as int, self.pos + 4)
            =~= self.remaining().subrange(0, 4));
        if avail < 5 {
            return Ok(None);
        }
        let opb = self.buf[self.pos + 4];
        assert(opb == self.remaining()[4]);
        let op = match Code::try_from(opb) {
            Some(op) => op,
            None => {
                return Err(DecodeError::UnknownOp(opb));
            },
        };
        let len = len32 as usize;
        if avail - 5 < len {
            assert(self.remaining().len() < 5 + len32);
            return Ok(None);
        }
        let start = self.pos + 5;
        let data_slice = vstd::slice::slice_subrange(self.buf.as_slice(), start, start + len);
        let data = vstd::slice::slice_to_vec(data_slice);
        self.pos = start + len;
        let f = Frame { op, data };
        proof {
            let s = old(self).remaining();
            assert(f@.data =~= s.subrange(5, 5 + len32 as int));
            assert(self.remaining() =~= s.skip(5 + len32 as int));
        }
        Ok(Some(f))
    }
}

/// The message serialization of a frame, as one outbound socket message.
pub fn encode_msg(f: &Frame) -> (r: Vec<u8>)
    ensures
        r@ == msg_bytes(f@),
{
    let mut r: Vec<u8> = Vec::new();
    r.push(f.op.value());
    push_bytes(&mut r, f.data.as_slice());
    assert(r@ =~= msg_bytes(f@));
    r
}

/// Decode one inbound socket message as a frame: the first byte is the op
/// code, the rest is the payload.
pub fn decode_msg(buf: &[u8]) -> (r: Result<Frame, DecodeError>)
    ensures
        match r {
            Ok(f) => spec_decode_msg(buf@) matches Ok(m) && m == f@,
            Err(e) => spec_decode_msg(buf@) == Err::<FrameModel, DecodeError>(e),
        },
{
    if buf.len() == 0 {
        return Err(DecodeError::Truncated);
    }
    let op = match Code::try_from(buf[0]) {
        Some(op) => op,
        None => {
            return Err(DecodeError::UnknownOp(buf[0]));
        },
    };
    let data_slice = vstd::slice::slice_subrange(buf, 1, buf.len());
    let data = vstd::slice::slice_to_vec(data_slice);
    let f = Frame { op, data };
    assert(f@.data =~= buf@.skip(1));
    Ok(f)
}

/// The exit code carried by an exit frame's payload: the four payload bytes
/// read as a big-endian signed 32-bit integer.
pub fn exit_code(data: &[u8]) -> (r: Result<i32, DecodeError>)
    ensures
        match r {
            Ok(c) => spec_exit_code(data@) == Ok::<int, DecodeError>(c as int),
            Err(e) => spec_exit_code(data@) == Err::<int, DecodeError>(e),
        },
{
    if data.len() != 4 {
        return Err(DecodeError::ExitPayload);
    }
    let c = read_be32_signed(data, 0);
    assert(data@.subrange(0, 4) =~= data@);
    Ok(c)
}

/// Round trip of the length-delimited form: a frame followed by anything
/// decodes to exactly that frame, consuming exactly its serialization.
pub proof fn lemma_frame_round_trip(f: FrameModel, rest: Seq<u8>)
    requires
        f.data.len() <= u32::MAX,
    ensures
        spec_decode_frame(frame_bytes(f) + rest) == Ok::<(FrameModel, int), DecodeError>(
            (f, 5 + f.data.len() as int)),
        (frame_bytes(f) + rest).skip(5 + f.data.len() as int) == rest,
{
    let s = frame_bytes(f) + rest;
    lemma_be32_round(f.data.len() as u32);
    assert(s.subrange(0, 4) =~= be32_bytes(f.data.len() as u32));
    assert(s[4] == code_value(f.op));
    assert(code_value(f.op) <= 8);
    assert(code_of_value(code_value(f.op)) == f.op);
    assert(s.subrange(5, 5 + f.data.len() as int) =~= f.data);
    assert(s.skip(5 + f.data.len() as int) =~= rest);
}

/// Round trip of the message form.
pub proof fn lemma_msg_round_trip(f: FrameModel)
    ensures
        spec_decode_msg(msg_bytes(f)) == Ok::<FrameModel, DecodeError>(f),
{
    let s = msg_bytes(f);
    assert(s[0] == code_value(f.op));
    assert(code_of_value(code_value(f.op)) == f.op);
    assert(s.skip(1) =~= f.data);
}

/// A stream cut off anywhere inside a frame's serialization fails to
/// decode, with the truncation error.
pub proof fn lemma_truncated_frame(f: FrameModel, k: int)
    requires
        f.data.len() <= u32::MAX,
        0 <= k < 5 + f.data.len(),
    ensures
        spec_decode_frame(frame_bytes(f).take(k)) == Err::<(FrameModel, int), DecodeError>(
            DecodeError::Truncated),
{
    let s = frame_bytes(f).take(k);
    assert(s.len() == k);
    if k >= 4 {
        lemma_be32_round(f.data.len() as u32);
        assert(s.subrange(0, 4) =~= be32_bytes(f.data.len() as u32));
        if k >= 5 {
            assert(s[4] == code_value(f.op));
            assert(s[4] <= 8);
            assert(s.len() < 5 + f.data.len());
        }
    }
}

} // verus!
