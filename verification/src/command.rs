//! The encoding of one command invocation.
//!
//! A command is sent as one argument frame per argument string — a caller
//! that passes no arguments gets the single synthetic argument `"help"` —
//! followed by an encoding frame carrying `"utf-8"`, a locale frame
//! carrying `"en"`, and an empty start frame.

use vstd::prelude::*;
use crate::codec::{Code, Encoder, FrameModel, frame_bytes, str_payload};
use crate::demux::encode_frames;
use vstd::string::StringSliceAdditionalSpecFns;
use vstd::utf8::{encode_utf8, is_ascii_chars, is_ascii_chars_encode_utf8};

verus! {

/// One argument frame per argument string, in order.
pub open spec fn arg_frames(args: Seq<Seq<char>>) -> Seq<FrameModel> {
    Seq::new(args.len(), |i: int| FrameModel { op: Code::Arg, data: str_payload(args[i]) })
}

/// The frames of one command invocation: the arguments — or the single
/// synthetic argument `"help"` when none were given — then the encoding,
/// locale and start frames.
pub open spec fn command_frames(args: Seq<Seq<char>>) -> Seq<FrameModel> {
    let actual = if args.len() == 0 {
        seq!["help"@]
    } else {
        args
    };
    arg_frames(actual) + seq![
        FrameModel { op: Code::Encoding, data: str_payload("utf-8"@) },
        FrameModel { op: Code::Locale, data: str_payload("en"@) },
        FrameModel { op: Code::Start, data: Seq::empty() },
    ]
}

/// The upload body of one command invocation.
pub open spec fn spec_command_bytes(args: Seq<Seq<char>>) -> Seq<u8> {
    encode_frames(command_frames(args))
}

/// Passing no arguments is passing exactly the single argument `"help"`.
pub proof fn lemma_empty_args_help()
    ensures
        spec_command_bytes(Seq::empty()) == spec_command_bytes(seq!["help"@]),
{
}

/// Appending one frame to a stream appends its serialization.
pub proof fn lemma_encode_frames_snoc(fs: Seq<FrameModel>, f: FrameModel)
    ensures
        encode_frames(fs.push(f)) == encode_frames(fs) + frame_bytes(f),
    decreases fs.len(),
{
    if fs.len() == 0 {
        assert(fs.push(f).drop_first() =~= fs);
        assert(encode_frames(fs.push(f)) =~= encode_frames(fs) + frame_bytes(f));
    } else {
        assert(fs.push(f).drop_first() =~= fs.drop_first().push(f));
        lemma_encode_frames_snoc(fs.drop_first(), f);
        assert(encode_frames(fs.push(f)) =~= encode_frames(fs) + frame_bytes(f));
    }
}

/// Encode one command invocation into the bytes of its upload body.
pub fn encode_command(args: &Vec<String>) -> (r: Vec<u8>)
    requires
        forall|i: int| 0 <= i < args@.len() ==> #[trigger] encode_utf8(
            args.deep_view()[i]).len() <= u16::MAX,
    ensures
        r@ == spec_command_bytes(args.deep_view()),
{
    broadcast use is_ascii_chars_encode_utf8;

    let ghost dv = args.deep_view();
    let mut enc = Encoder::new();
    let ghost actual: Seq<Seq<char>> = if dv.len() == 0 {
        seq!["help"@]
    } else {
        dv
    };
    if args.len() == 0 {
        proof {
            reveal_strlit("help");
            assert(is_ascii_chars("help"@));
            assert(arg_frames(actual).drop_last() =~= arg_frames(Seq::empty()));
            assert(arg_frames(Seq::empty()) =~= Seq::<FrameModel>::empty());
            assert(arg_frames(actual) =~= arg_frames(Seq::empty()).push(
                FrameModel { op: Code::Arg, data: str_payload("help"@) }));
            lemma_encode_frames_snoc(Seq::empty(), FrameModel {
                op: Code::Arg,
                data: str_payload("help"@),
            });
        }
        enc.string(Code::Arg, "help");
        proof {
            assert(Seq::<u8>::empty() + encode_frames(Seq::<FrameModel>::empty()) + frame_bytes(
                FrameModel { op: Code::Arg, data: str_payload("help"@) }) =~= enc@);
            assert(enc@ =~= encode_frames(arg_frames(actual)));
        }
    } else {
        let mut i: usize = 0;
        while i < args.len()
            invariant
                i <= args@.len(),
                dv == args.deep_view(),
                actual == dv,
                dv.len() == args@.len(),
                forall|j: int| 0 <= j < args@.len() ==> #[trigger] encode_utf8(dv[j]).len()
                    <= u16::MAX,
                enc@ == encode_frames(arg_frames(dv.take(i as int))),
            decreases args@.len() - i,
        {
            let a: &String = &args[i];
            proof {
                assert(args@[i as int]@ == dv[i as int]);
                lemma_encode_frames_snoc(arg_frames(dv.take(i as int)), FrameModel {
                    op: Code::Arg,
                    data: str_payload(dv[i as int]),
                });
            }
            enc.string(Code::Arg, a.as_str());
            i = i + 1;
            proof {
                assert(arg_frames(dv.take(i as int)) =~= arg_frames(dv.take(i as int - 1)).push(
                    FrameModel { op: Code::Arg, data: str_payload(dv[i as int - 1]) }));
                assert(enc@ =~= encode_frames(arg_frames(dv.take(i as int))));
            }
        }
        proof {
            assert(dv.take(dv.len() as int) =~= dv);
        }
    }
    proof {
        reveal_strlit("utf-8");
        reveal_strlit("en");
        assert(is_ascii_chars("utf-8"@));
        assert(is_ascii_chars("en"@));
        lemma_encode_frames_snoc(arg_frames(actual), FrameModel {
            op: Code::Encoding,
            data: str_payload("utf-8"@),
        });
    }
    enc.string(Code::Encoding, "utf-8");
    proof {
        assert(enc@ =~= encode_frames(arg_frames(actual).push(
            FrameModel { op: Code::Encoding, data: str_payload("utf-8"@) })));
        lemma_encode_frames_snoc(arg_frames(actual).push(
            FrameModel { op: Code::Encoding, data: str_payload("utf-8"@) }), FrameModel {
            op: Code::Locale,
            data: str_payload("en"@),
        });
    }
    enc.string(Code::Locale, "en");
    proof {
        assert(enc@ =~= encode_frames(arg_frames(actual).push(
            FrameModel { op: Code::Encoding, data: str_payload("utf-8"@) }).push(
            FrameModel { op: Code::Locale, data: str_payload("en"@) })));
        lemma_encode_frames_snoc(arg_frames(actual).push(
            FrameModel { op: Code::Encoding, data: str_payload("utf-8"@) }).push(
            FrameModel { op: Code::Locale, data: str_payload("en"@) }), FrameModel {
            op: Code::Start,
            data: Seq::empty(),
        });
    }
    enc.op(Code::Start);
    proof {
        assert(arg_frames(actual).push(
            FrameModel { op: Code::Encoding, data: str_payload("utf-8"@) }).push(
            FrameModel { op: Code::Locale, data: str_payload("en"@) }).push(
            FrameModel { op: Code::Start, data: Seq::empty() }) =~= command_frames(dv));
        assert(enc@ =~= spec_command_bytes(dv));
    }
    enc.buffer()
}

} // verus!
