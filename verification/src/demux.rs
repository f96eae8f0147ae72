//! The command-response demultiplexer.
//!
//! A command's download stream is a sequence of frames: standard-output and
//! standard-error payloads in the order the server emitted them, closed by
//! exactly one exit frame whose payload is the exit code. Other frame kinds
//! may be interleaved and are ignored. The demultiplexer turns such a
//! stream into the output byte streams and the exit code, or fails on the
//! first malformed frame; it never fabricates an exit code.

use vstd::prelude::*;
use crate::codec::{Code, Decoder, DecodeError, Frame, FrameModel, frame_bytes,
    lemma_frame_round_trip, spec_decode_frame, spec_exit_code, exit_code, push_bytes};

verus! {

/// A fully collected command result: the two output streams, separated,
/// and the exit code.
pub struct Command {
    pub out: Vec<u8>,
    pub err: Vec<u8>,
    pub exit_code: i32,
}

/// The mathematical result of demultiplexing: the two output streams, the
/// merged stream in server emission order, and the exit code.
pub ghost struct CommandModel {
    pub out: Seq<u8>,
    pub err: Seq<u8>,
    pub merged: Seq<u8>,
    pub exit_code: int,
}

/// Demultiplexing a sequence of already-decoded frames: output payloads
/// accumulate in order until the first exit frame resolves the exit code;
/// a stream that ends without an exit frame is truncated.
pub open spec fn spec_demux_frames(fs: Seq<FrameModel>) -> Result<CommandModel, DecodeError>
    decreases fs.len(),
{
    if fs.len() == 0 {
        Err(DecodeError::Truncated)
    } else {
        let f = fs[0];
        if f.op is Exit {
            match spec_exit_code(f.data) {
                Ok(c) => Ok(
                    CommandModel {
                        out: Seq::empty(),
                        err: Seq::empty(),
                        merged: Seq::empty(),
                        exit_code: c,
                    },
                ),
                Err(e) => Err(e),
            }
        } else {
            match spec_demux_frames(fs.drop_first()) {
                Ok(m) => Ok(demux_cons(f, m)),
                Err(e) => Err(e),
            }
        }
    }
}

/// What a non-exit frame at the head of the stream adds to the result of
/// the rest of the stream.
pub open spec fn demux_cons(f: FrameModel, m: CommandModel) -> CommandModel
    recommends
        !(f.op is Exit),
{
    if f.op is Stdout {
        CommandModel {
            out: f.data + m.out,
            err: m.err,
            merged: f.data + m.merged,
            exit_code: m.exit_code,
        }
    } else if f.op is Stderr {
        CommandModel {
            out: m.out,
            err: f.data + m.err,
            merged: f.data + m.merged,
            exit_code: m.exit_code,
        }
    } else {
        m
    }
}

/// Demultiplexing a length-delimited byte stream, frame by frame.
pub open spec fn spec_demux_bytes(s: Seq<u8>) -> Result<CommandModel, DecodeError>
    decreases s.len(),
{
    match spec_decode_frame(s) {
        Err(e) => Err(e),
        Ok((f, n)) => {
            if f.op is Exit {
                match spec_exit_code(f.data) {
                    Ok(c) => Ok(
                        CommandModel {
                            out: Seq::empty(),
                            err: Seq::empty(),
                            merged: Seq::empty(),
                            exit_code: c,
                        },
                    ),
                    Err(e) => Err(e),
                }
            } else if 0 < n <= s.len() {
                match spec_demux_bytes(s.skip(n)) {
                    Ok(m) => Ok(demux_cons(f, m)),
                    Err(e) => Err(e),
                }
            } else {
                // Unreachable: a decoded frame occupies at least five bytes
                // of the stream it came from.
                Err(DecodeError::Truncated)
            }
        },
    }
}

/// A whole download stream: one zero byte, then the frame stream.
pub open spec fn spec_process_download(s: Seq<u8>) -> Result<CommandModel, DecodeError> {
    if s.len() == 0 {
        Err(DecodeError::Truncated)
    } else if s[0] != 0 {
        Err(DecodeError::LeadingByte(s[0]))
    } else {
        spec_demux_bytes(s.skip(1))
    }
}

/// The loop relation of the splitting demultiplexer: what has been
/// accumulated, joined with what the rest of the stream yields, is what
/// the whole stream yields.
spec fn split_rel(out0: Seq<u8>, err0: Seq<u8>, rem: Seq<u8>, stream: Seq<u8>) -> bool {
    match spec_demux_bytes(rem) {
        Ok(m) => spec_demux_bytes(stream) matches Ok(m0) && m0.out == out0 + m.out && m0.err
            == err0 + m.err && m0.exit_code == m.exit_code,
        Err(e) => spec_demux_bytes(stream) == Err::<CommandModel, DecodeError>(e),
    }
}

/// The loop relation of the merging demultiplexer.
spec fn merged_rel(merged0: Seq<u8>, rem: Seq<u8>, stream: Seq<u8>) -> bool {
    match spec_demux_bytes(rem) {
        Ok(m) => spec_demux_bytes(stream) matches Ok(m0) && m0.merged == merged0 + m.merged
            && m0.exit_code == m.exit_code,
        Err(e) => spec_demux_bytes(stream) == Err::<CommandModel, DecodeError>(e),
    }
}

/// What one frame contributes to the command's result.
pub enum DemuxStep {
    /// A standard-output payload, to append to that stream.
    Stdout(Vec<u8>),
    /// A standard-error payload, to append to that stream.
    Stderr(Vec<u8>),
    /// The exit frame: the command is over with this code.
    Done(i32),
    /// A control frame with no place in the output.
    Ignored,
}

/// Classify one decoded frame. This is the whole decision the decode
/// worker takes per frame; the surrounding loop only routes bytes.
pub fn demux_step(f: Frame) -> (r: Result<DemuxStep, DecodeError>)
    ensures
        match r {
            Ok(step) => match step {
                DemuxStep::Stdout(d) => f@.op is Stdout && d@ == f@.data,
                DemuxStep::Stderr(d) => f@.op is Stderr && d@ == f@.data,
                DemuxStep::Done(c) => f@.op is Exit && spec_exit_code(f@.data) == Ok::<int,
                    DecodeError>(c as int),
                DemuxStep::Ignored => !(f@.op is Stdout) && !(f@.op is Stderr) && !(f@.op
                    is Exit),
            },
            Err(e) => f@.op is Exit && spec_exit_code(f@.data) == Err::<int, DecodeError>(e),
        },
{
    match f.op {
        Code::Stdout => Ok(DemuxStep::Stdout(f.data)),
        Code::Stderr => Ok(DemuxStep::Stderr(f.data)),
        Code::Exit => {
            match exit_code(f.data.as_slice()) {
                Ok(c) => Ok(DemuxStep::Done(c)),
                Err(e) => Err(e),
            }
        },
        _ => Ok(DemuxStep::Ignored),
    }
}

/// Demultiplex a whole download stream into separated output streams and
/// the exit code.
#[verifier::loop_isolation(false)]
pub fn process_download_split(bytes: Vec<u8>) -> (r: Result<Command, DecodeError>)
    ensures
        match r {
            Ok(c) => spec_process_download(bytes@) matches Ok(m) && m.out == c.out@ && m.err
                == c.err@ && m.exit_code == c.exit_code as int,
            Err(e) => spec_process_download(bytes@) == Err::<CommandModel, DecodeError>(e),
        },
{
    let ghost s0 = bytes@;
    let mut dec = Decoder::new(bytes);
    match dec.skip_initial_zero() {
        Ok(()) => {},
        Err(e) => {
            return Err(e);
        },
    }
    let ghost stream = s0.skip(1);
    let mut out: Vec<u8> = Vec::new();
    let mut err: Vec<u8> = Vec::new();
    proof {
        assert(out@ + spec_demux_bytes(stream)->Ok_0.out =~= spec_demux_bytes(stream)->Ok_0.out);
        assert(err@ + spec_demux_bytes(stream)->Ok_0.err =~= spec_demux_bytes(stream)->Ok_0.err);
    }
    loop
        invariant
            dec.wf(),
            split_rel(out@, err@, dec.remaining(), stream),
        decreases dec.remaining().len(),
    {
        let ghost rem = dec.remaining();
        let ghost out0 = out@;
        let ghost err0 = err@;
        let f = match dec.frame() {
            Ok(f) => f,
            Err(e) => {
                return Err(e);
            },
        };
        match demux_step(f) {
            Ok(DemuxStep::Stdout(d)) => {
                push_bytes(&mut out, d.as_slice());
                proof {
                    lemma_shift_assoc(out0, err0, f@, rem, dec.remaining(), stream);
                }
            },
            Ok(DemuxStep::Stderr(d)) => {
                push_bytes(&mut err, d.as_slice());
                proof {
                    lemma_shift_assoc(out0, err0, f@, rem, dec.remaining(), stream);
                }
            },
            Ok(DemuxStep::Done(c)) => {
                proof {
                    let m0 = spec_demux_bytes(stream)->Ok_0;
                    assert(out0 + Seq::<u8>::empty() =~= out0);
                    assert(err0 + Seq::<u8>::empty() =~= err0);
                }
                return Ok(Command { out, err, exit_code: c });
            },
            Ok(DemuxStep::Ignored) => {
                proof {
                    lemma_shift_assoc(out0, err0, f@, rem, dec.remaining(), stream);
                }
            },
            Err(e) => {
                return Err(e);
            },
        }
    }
}

/// Demultiplex a whole download stream into the merged output stream, in
/// server emission order, and the exit code.
#[verifier::loop_isolation(false)]
pub fn process_download(bytes: Vec<u8>) -> (r: Result<(Vec<u8>, i32), DecodeError>)
    ensures
        match r {
            Ok(p) => spec_process_download(bytes@) matches Ok(m) && m.merged == p.0@
                && m.exit_code == p.1 as int,
            Err(e) => spec_process_download(bytes@) == Err::<CommandModel, DecodeError>(e),
        },
{
    let ghost s0 = bytes@;
    let mut dec = Decoder::new(bytes);
    match dec.skip_initial_zero() {
        Ok(()) => {},
        Err(e) => {
            return Err(e);
        },
    }
    let ghost stream = s0.skip(1);
    let mut merged: Vec<u8> = Vec::new();
    proof {
        assert(merged@ + spec_demux_bytes(stream)->Ok_0.merged =~= spec_demux_bytes(
            stream)->Ok_0.merged);
    }
    loop
        invariant
            dec.wf(),
            merged_rel(merged@, dec.remaining(), stream),
        decreases dec.remaining().len(),
    {
        let ghost rem = dec.remaining();
        let ghost merged0 = merged@;
        let f = match dec.frame() {
            Ok(f) => f,
            Err(e) => {
                return Err(e);
            },
        };
        match demux_step(f) {
            Ok(DemuxStep::Stdout(d)) => {
                push_bytes(&mut merged, d.as_slice());
                proof {
                    lemma_shift_merged(merged0, f@, rem, dec.remaining(), stream);
                }
            },
            Ok(DemuxStep::Stderr(d)) => {
                push_bytes(&mut merged, d.as_slice());
                proof {
                    lemma_shift_merged(merged0, f@, rem, dec.remaining(), stream);
                }
            },
            Ok(DemuxStep::Done(c)) => {
                proof {
                    assert(merged0 + Seq::<u8>::empty() =~= merged0);
                }
                return Ok((merged, c));
            },
            Ok(DemuxStep::Ignored) => {
                proof {
                    lemma_shift_merged(merged0, f@, rem, dec.remaining(), stream);
                }
            },
            Err(e) => {
                return Err(e);
            },
        }
    }
}

/// Moving a decoded non-exit frame's payload from the stream into the
/// separated accumulators keeps the loop relation.
proof fn lemma_shift_assoc(
    out0: Seq<u8>,
    err0: Seq<u8>,
    f: FrameModel,
    s: Seq<u8>,
    rest: Seq<u8>,
    stream: Seq<u8>,
)
    requires
        spec_decode_frame(s) matches Ok(p) && p.0 == f && rest == s.skip(p.1),
        !(f.op is Exit),
        split_rel(out0, err0, s, stream),
    ensures
        split_rel(
            if f.op is Stdout {
                out0 + f.data
            } else {
                out0
            },
            if f.op is Stderr {
                err0 + f.data
            } else {
                err0
            },
            rest,
            stream,
        ),
{
    let p = spec_decode_frame(s)->Ok_0;
    assert(s.len() >= 5 + f.data.len());
    match spec_demux_bytes(rest) {
        Ok(m) => {
            assert(spec_demux_bytes(s) == Ok::<CommandModel, DecodeError>(demux_cons(f, m)));
            if f.op is Stdout {
                assert((out0 + f.data) + m.out =~= out0 + (f.data + m.out));
            } else if f.op is Stderr {
                assert((err0 + f.data) + m.err =~= err0 + (f.data + m.err));
            }
        },
        Err(e) => {
            assert(spec_demux_bytes(s) == Err::<CommandModel, DecodeError>(e));
        },
    }
}

/// Moving a decoded non-exit frame's payload from the stream into the
/// merged accumulator keeps the loop relation.
proof fn lemma_shift_merged(
    merged0: Seq<u8>,
    f: FrameModel,
    s: Seq<u8>,
    rest: Seq<u8>,
    stream: Seq<u8>,
)
    requires
        spec_decode_frame(s) matches Ok(p) && p.0 == f && rest == s.skip(p.1),
        !(f.op is Exit),
        merged_rel(merged0, s, stream),
    ensures
        merged_rel(
            if f.op is Stdout || f.op is Stderr {
                merged0 + f.data
            } else {
                merged0
            },
            rest,
            stream,
        ),
{
    let p = spec_decode_frame(s)->Ok_0;
    assert(s.len() >= 5 + f.data.len());
    match spec_demux_bytes(rest) {
        Ok(m) => {
            assert(spec_demux_bytes(s) == Ok::<CommandModel, DecodeError>(demux_cons(f, m)));
            if f.op is Stdout || f.op is Stderr {
                assert((merged0 + f.data) + m.merged =~= merged0 + (f.data + m.merged));
            }
        },
        Err(e) => {
            assert(spec_demux_bytes(s) == Err::<CommandModel, DecodeError>(e));
        },
    }
}


/// The serialization of a whole frame stream in the length-delimited form.
pub open spec fn encode_frames(fs: Seq<FrameModel>) -> Seq<u8>
    decreases fs.len(),
{
    if fs.len() == 0 {
        Seq::empty()
    } else {
        frame_bytes(fs[0]) + encode_frames(fs.drop_first())
    }
}

/// Every frame of the stream has a payload the length prefix can carry.
pub open spec fn frames_wf(fs: Seq<FrameModel>) -> bool {
    forall|i: int| 0 <= i < fs.len() ==> #[trigger] fs[i].data.len() <= u32::MAX
}

/// The payloads of a frame stream, concatenated in emission order.
pub open spec fn payload_concat(fs: Seq<FrameModel>) -> Seq<u8>
    decreases fs.len(),
{
    if fs.len() == 0 {
        Seq::empty()
    } else {
        fs[0].data + payload_concat(fs.drop_first())
    }
}

/// Round trip of a whole stream: demultiplexing the serialization of a
/// frame sequence is demultiplexing the frame sequence itself.
pub proof fn lemma_demux_encoded(fs: Seq<FrameModel>)
    requires
        frames_wf(fs),
    ensures
        spec_demux_bytes(encode_frames(fs)) == spec_demux_frames(fs),
    decreases fs.len(),
{
    if fs.len() == 0 {
        assert(spec_decode_frame(Seq::empty()) == Err::<(FrameModel, int), DecodeError>(
            DecodeError::Truncated));
    } else {
        let f = fs[0];
        let rest = encode_frames(fs.drop_first());
        let s = encode_frames(fs);
        lemma_frame_round_trip(f, rest);
        assert(s.skip(5 + f.data.len() as int) == rest);
        if !(f.op is Exit) {
            assert(frames_wf(fs.drop_first()));
            lemma_demux_encoded(fs.drop_first());
        }
    }
}

/// Output order: a stream of output frames closed by one exit frame
/// yields the payload bytes in exactly the frame emission order, the exit
/// frame's code, and nothing of any frame after the exit frame.
pub proof fn lemma_output_order(fs: Seq<FrameModel>, close: FrameModel, extra: Seq<FrameModel>)
    requires
        forall|i: int| 0 <= i < fs.len() ==> (#[trigger] fs[i].op is Stdout || fs[i].op
            is Stderr),
        close.op is Exit,
        spec_exit_code(close.data) is Ok,
    ensures
        spec_demux_frames(fs + seq![close] + extra) matches Ok(m) && m.merged == payload_concat(
            fs) && m.exit_code == spec_exit_code(close.data)->Ok_0,
    decreases fs.len(),
{
    let whole = fs + seq![close] + extra;
    if fs.len() == 0 {
        assert(whole[0] == close);
        let m = spec_demux_frames(whole)->Ok_0;
        assert(m.merged =~= payload_concat(fs));
    } else {
        let f = fs[0];
        assert(whole[0] == f);
        assert(whole.drop_first() =~= fs.drop_first() + seq![close] + extra);
        lemma_output_order(fs.drop_first(), close, extra);
        let m = spec_demux_frames(whole.drop_first())->Ok_0;
        assert(spec_demux_frames(whole) == Ok::<CommandModel, DecodeError>(demux_cons(f, m)));
        assert(f.data + payload_concat(fs.drop_first()) == payload_concat(fs));
    }
}


/// The whole download stream, end to end: a server that sends the zero
/// byte, output frames in some order, one exit frame, and anything after
/// it, yields exactly the output payloads in emission order and the exit
/// frame's code.
pub proof fn lemma_download_stream(fs: Seq<FrameModel>, close: FrameModel, extra: Seq<FrameModel>)
    requires
        frames_wf(fs + seq![close] + extra),
        forall|i: int| 0 <= i < fs.len() ==> (#[trigger] fs[i].op is Stdout || fs[i].op
            is Stderr),
        close.op is Exit,
        spec_exit_code(close.data) is Ok,
    ensures
        spec_process_download(seq![0u8] + encode_frames(fs + seq![close] + extra)) matches Ok(m)
            && m.merged == payload_concat(fs) && m.exit_code == spec_exit_code(close.data)->Ok_0,
{
    let body = seq![0u8] + encode_frames(fs + seq![close] + extra);
    assert(body[0] == 0);
    assert(body.skip(1) =~= encode_frames(fs + seq![close] + extra));
    lemma_demux_encoded(fs + seq![close] + extra);
    lemma_output_order(fs, close, extra);
}

} // verus!
