//! Helpers for the job-listing output: splitting a command's output into
//! lines and extending a folder path with an entry found under it.

use vstd::prelude::*;
use vstd::string::{StringExecFns, StringSliceAdditionalSpecFns};

verus! {

/// A path under `root`: `root` and `end` joined with exactly one slash
/// between them; a root already ending in a slash gets no second one.
pub fn append_path(root: &str, end: &str) -> (r: String)
    ensures
        ({
            let slash = root.spec_bytes().len() > 0 && root.spec_bytes().last() == 47;
            if slash {
                r@ == root@ + end@
            } else {
                r@ == root@ + "/"@ + end@
            }
        }),
{
    let rb = root.as_bytes();
    let mut r = String::from_str(root);
    if !(rb.len() > 0 && rb[rb.len() - 1] == 47) {
        r.append("/");
    }
    r.append(end);
    r
}

/// A line as the splitter yields it: its carriage return, if a newline
/// followed, is not part of it.
pub open spec fn trim_line(cur: Seq<u8>) -> Seq<u8> {
    if cur.len() > 0 && cur.last() == 13 {
        cur.drop_last()
    } else {
        cur
    }
}

/// Splitting from the front: `cur` holds the bytes of the line being
/// read. A newline byte closes the line; a final fragment is a line of
/// its own unless it is empty.
pub open spec fn spec_split_rec(s: Seq<u8>, cur: Seq<u8>) -> Seq<Seq<u8>>
    decreases s.len(),
{
    if s.len() == 0 {
        if cur.len() == 0 {
            Seq::empty()
        } else {
            seq![cur]
        }
    } else if s[0] == 10 {
        seq![trim_line(cur)] + spec_split_rec(s.drop_first(), Seq::empty())
    } else {
        spec_split_rec(s.drop_first(), cur.push(s[0]))
    }
}

/// The lines of a byte stream: separated by newline bytes, each stripped
/// of the newline and of a carriage return before it.
pub open spec fn spec_split_lines(s: Seq<u8>) -> Seq<Seq<u8>> {
    spec_split_rec(s, Seq::empty())
}

/// Split a command's output into its lines.
pub fn split_lines(bytes: &[u8]) -> (r: Vec<Vec<u8>>)
    ensures
        r.deep_view() == spec_split_lines(bytes@),
{
    let mut r: Vec<Vec<u8>> = Vec::new();
    let mut cur: Vec<u8> = Vec::new();
    let mut i: usize = 0;
    proof {
        assert(bytes@.skip(0) =~= bytes@);
        assert(r.deep_view() + spec_split_rec(bytes@, cur@) =~~= spec_split_lines(bytes@));
    }
    while i < bytes.len()
        invariant
            i <= bytes@.len(),
            r.deep_view() + spec_split_rec(bytes@.skip(i as int), cur@) == spec_split_lines(
                bytes@),
        decreases bytes@.len() - i,
    {
        let ghost rem = bytes@.skip(i as int);
        let ghost cur0 = cur@;
        let ghost r0 = r.deep_view();
        let b = bytes[i];
        assert(b == rem[0]);
        if b == 10 {
            let mut line = cur;
            if line.len() > 0 && line[line.len() - 1] == 13 {
                let _ = line.pop();
                assert(line@ =~= trim_line(cur0));
            }
            assert(line@ == trim_line(cur0));
            r.push(line);
            cur = Vec::new();
            proof {
                assert(r.deep_view() =~~= r0.push(trim_line(cur0)));
                assert(cur@ =~= Seq::<u8>::empty());
            }
        } else {
            cur.push(b);
        }
        i = i + 1;
        proof {
            assert(bytes@.skip(i as int) =~= rem.drop_first());
            assert(r.deep_view() + spec_split_rec(bytes@.skip(i as int), cur@) =~~= spec_split_lines(
                bytes@));
        }
    }
    proof {
        assert(bytes@.skip(bytes@.len() as int) =~= Seq::<u8>::empty());
    }
    if cur.len() > 0 {
        let ghost r0 = r.deep_view();
        let ghost cur0 = cur@;
        r.push(cur);
        proof {
            assert(r.deep_view() =~~= r0.push(cur0));
        }
    }
    proof {
        assert(r.deep_view() =~~= spec_split_lines(bytes@));
    }
    r
}

} // verus!
