//! The modified UTF-8 decoder.
//!
//! This encoding, used for serialized strings on the server side, deviates
//! from standard UTF-8 in two ways: the NUL character is written as the
//! two-byte pair `C0 80`, and characters outside the basic plane are
//! written as the three-byte encodings of their two UTF-16 surrogates in
//! order, six bytes in all. Everything standard UTF-8 accepts is accepted
//! unchanged, and the first byte sequence that is neither standard nor one
//! of the two deviations fails the whole decode.

use vstd::prelude::*;
use vstd::utf8::{decode_first_scalar, decode_utf8, encode_scalar, encode_utf8,
    encode_utf8_decode_utf8, encode_utf8_valid_utf8, is_scalar, length_of_first_scalar,
    valid_first_scalar, valid_utf8};

verus! {

/// Why a byte sequence failed to decode as modified UTF-8.
#[derive(Clone, Copy, Debug, PartialEq, Eq, Structural)]
pub enum ModifiedUtf8Error {
    /// The bytes stop inside an encoding unit.
    Incomplete,
    /// A byte sequence that no encoding unit begins with.
    Malformed,
}

/// The two-byte spelling of the NUL character at the front of `s`.
pub open spec fn is_nul_pair(s: Seq<u8>) -> bool {
    s.len() >= 2 && s[0] == 0xC0 && s[1] == 0x80
}

/// A surrogate pair at the front of `s`: the three-byte encodings of a
/// high surrogate and then a low surrogate.
pub open spec fn is_surrogate_pair(s: Seq<u8>) -> bool {
    &&& s.len() >= 6
    &&& s[0] == 0xED
    &&& 0xA0 <= s[1] <= 0xAF
    &&& 0x80 <= s[2] <= 0xBF
    &&& s[3] == 0xED
    &&& 0xB0 <= s[4] <= 0xBF
    &&& 0x80 <= s[5] <= 0xBF
}

/// The scalar a surrogate pair at the front of `s` stands for.
pub open spec fn surrogate_pair_scalar(s: Seq<u8>) -> u32
    recommends
        is_surrogate_pair(s),
{
    let hi = (((s[1] & 0x0F) as u32) << 6) | ((s[2] & 0x3F) as u32);
    let lo = (((s[4] & 0x0F) as u32) << 6) | ((s[5] & 0x3F) as u32);
    ((0x10000 | (hi << 10)) | lo) as u32
}

/// A proper prefix, at the end of the input, of a standard scalar
/// encoding: a leading byte whose continuation bytes, valid so far, are
/// cut off.
pub open spec fn incomplete_scalar(s: Seq<u8>) -> bool {
    ||| (s.len() == 1 && 0xC2 <= s[0] <= 0xDF)
    ||| (1 <= s.len() <= 2 && 0xE0 <= s[0] <= 0xEF && (s.len() < 2 || ({
        ||| (s[0] == 0xE0 && 0xA0 <= s[1] <= 0xBF)
        ||| (s[0] == 0xED && 0x80 <= s[1] <= 0x9F)
        ||| (s[0] != 0xE0 && s[0] != 0xED && 0x80 <= s[1] <= 0xBF)
    })))
    ||| (1 <= s.len() <= 3 && 0xF0 <= s[0] <= 0xF4 && (s.len() < 2 || ({
        ||| (s[0] == 0xF0 && 0x90 <= s[1] <= 0xBF)
        ||| (s[0] == 0xF4 && 0x80 <= s[1] <= 0x8F)
        ||| (s[0] != 0xF0 && s[0] != 0xF4 && 0x80 <= s[1] <= 0xBF)
    })) && (s.len() < 3 || 0x80 <= s[2] <= 0xBF))
}

/// A proper prefix, at the end of the input, of some encoding unit: of
/// the NUL pair, of a surrogate pair, or of a standard scalar encoding.
/// More input could complete it; nothing already read contradicts it.
pub open spec fn is_incomplete(s: Seq<u8>) -> bool {
    ||| (s.len() == 1 && s[0] == 0xC0)
    ||| (1 <= s.len() < 6 && s[0] == 0xED && (s.len() < 2 || 0xA0 <= s[1] <= 0xAF) && (s.len()
        < 3 || 0x80 <= s[2] <= 0xBF) && (s.len() < 4 || s[3] == 0xED) && (s.len() < 5 || 0xB0
        <= s[4] <= 0xBF))
    ||| incomplete_scalar(s)
}

/// Decoding a modified UTF-8 byte sequence: the NUL pair, a surrogate
/// pair, or a standard UTF-8 scalar at the front, repeated to the end.
pub open spec fn spec_mutf8(s: Seq<u8>) -> Result<Seq<char>, ModifiedUtf8Error>
    decreases s.len(),
{
    if s.len() == 0 {
        Ok(Seq::empty())
    } else if is_nul_pair(s) {
        match spec_mutf8(s.skip(2)) {
            Ok(cs) => Ok(seq!['\0'] + cs),
            Err(e) => Err(e),
        }
    } else if is_surrogate_pair(s) {
        match spec_mutf8(s.skip(6)) {
            Ok(cs) => Ok(seq![surrogate_pair_scalar(s) as char] + cs),
            Err(e) => Err(e),
        }
    } else if valid_first_scalar(s) {
        if 0 < length_of_first_scalar(s) <= s.len() {
            match spec_mutf8(s.skip(length_of_first_scalar(s))) {
                Ok(cs) => Ok(seq![decode_first_scalar(s) as char] + cs),
                Err(e) => Err(e),
            }
        } else {
            // Unreachable: a valid first scalar occupies one to four of
            // the bytes it was read from.
            Err(ModifiedUtf8Error::Malformed)
        }
    } else if is_incomplete(s) {
        Err(ModifiedUtf8Error::Incomplete)
    } else {
        Err(ModifiedUtf8Error::Malformed)
    }
}

/// The loop relation of the decoder: the characters decoded so far,
/// followed by whatever the rest decodes to, is what the whole decodes to.
spec fn mutf8_rel(acc: Seq<char>, rem: Seq<u8>, whole: Seq<u8>) -> bool {
    match spec_mutf8(rem) {
        Ok(cs) => spec_mutf8(whole) matches Ok(all) && all == acc + cs,
        Err(e) => spec_mutf8(whole) == Err::<Seq<char>, ModifiedUtf8Error>(e),
    }
}

/// Appending one character appends its scalar's encoding.
proof fn lemma_encode_utf8_snoc(cs: Seq<char>, c: char)
    ensures
        encode_utf8(cs.push(c)) == encode_utf8(cs) + encode_scalar(c as u32),
    decreases cs.len(),
{
    if cs.len() == 0 {
        assert(cs.push(c).drop_first() =~= cs);
        assert(encode_utf8(cs.push(c)) =~= encode_utf8(cs) + encode_scalar(c as u32));
    } else {
        assert(cs.push(c).drop_first() =~= cs.drop_first().push(c));
        lemma_encode_utf8_snoc(cs.drop_first(), c);
        assert(encode_utf8(cs.push(c)) =~= encode_utf8(cs) + encode_scalar(c as u32));
    }
}

/// Consuming one decoded unit keeps the loop relation: what moved out of
/// the stream moved into the accumulator.
proof fn lemma_mutf8_shift(acc: Seq<char>, ch: char, rem: Seq<u8>, rest: Seq<u8>, whole: Seq<u8>)
    requires
        mutf8_rel(acc, rem, whole),
        spec_mutf8(rem) == (match spec_mutf8(rest) {
            Ok(cs) => Ok::<Seq<char>, ModifiedUtf8Error>(seq![ch] + cs),
            Err(e) => Err(e),
        }),
    ensures
        mutf8_rel(acc.push(ch), rest, whole),
{
    match spec_mutf8(rest) {
        Ok(cs) => {
            assert(acc + (seq![ch] + cs) =~= acc.push(ch) + cs);
        },
        Err(_) => {},
    }
}

/// Append the standard UTF-8 encoding of a scalar.
fn push_scalar(out: &mut Vec<u8>, c: u32)
    requires
        is_scalar(c),
    ensures
        final(out)@ == old(out)@ + encode_scalar(c),
{
    if c <= 0x7F {
        proof {
            assert((c & 0x7F) <= 0x7F) by (bit_vector);
        }
        out.push((c & 0x7F) as u8);
    } else if c <= 0x7FF {
        proof {
            assert(((c >> 6) & 0x1F) <= 0x1F && (c & 0x3F) <= 0x3F) by (bit_vector);
        }
        out.push(0xC0 | (((c >> 6) & 0x1F) as u8));
        out.push(0x80 | ((c & 0x3F) as u8));
    } else if c <= 0xFFFF {
        proof {
            assert(((c >> 12) & 0x0F) <= 0x0F && ((c >> 6) & 0x3F) <= 0x3F && (c & 0x3F)
                <= 0x3F) by (bit_vector);
        }
        out.push(0xE0 | (((c >> 12) & 0x0F) as u8));
        out.push(0x80 | (((c >> 6) & 0x3F) as u8));
        out.push(0x80 | ((c & 0x3F) as u8));
    } else {
        proof {
            assert(((c >> 18) & 0x7) <= 0x7 && ((c >> 12) & 0x3F) <= 0x3F && ((c >> 6) & 0x3F)
                <= 0x3F && (c & 0x3F) <= 0x3F) by (bit_vector);
        }
        out.push(0xF0 | (((c >> 18) & 0x7) as u8));
        out.push(0x80 | (((c >> 12) & 0x3F) as u8));
        out.push(0x80 | (((c >> 6) & 0x3F) as u8));
        out.push(0x80 | ((c & 0x3F) as u8));
    }
    assert(final(out)@ =~= old(out)@ + encode_scalar(c));
}

/// Read one standard UTF-8 scalar at position `i`: its value and width,
/// or nothing when no well-formed scalar encoding starts there.
fn std_unit(bytes: &[u8], i: usize) -> (r: Option<(u32, usize)>)
    requires
        i < bytes@.len(),
    ensures
        ({
            let rem = bytes@.skip(i as int);
            match r {
                Some(p) => valid_first_scalar(rem) && p.0 == decode_first_scalar(rem) && p.1
                    as int == length_of_first_scalar(rem) && i + p.1 <= bytes@.len() && is_scalar(
                    p.0) && p.1 >= 1,
                None => !valid_first_scalar(rem),
            }
        }),
{
    let ghost rem = bytes@.skip(i as int);
    let n = bytes.len();
    let b0 = bytes[i];
    assert(b0 == rem[0]);
    if b0 < 0x80 {
        proof {
            assert(b0 < 0x80 ==> (b0 & 0x7F) == b0) by (bit_vector);
        }
        Some((b0 as u32, 1))
    } else if b0 < 0xC0 {
        // A continuation byte leads no unit.
        None
    } else if b0 < 0xE0 {
        if n - i < 2 {
            return None;
        }
        let b1 = bytes[i + 1];
        assert(b1 == rem[1]);
        if !(0x80 <= b1 && b1 <= 0xBF) {
            return None;
        }
        let c: u32 = (((b0 & 0x1F) as u32) << 6) | ((b1 & 0x3F) as u32);
        if c < 0x80 {
            // An overlong two-byte spelling of a one-byte value.
            return None;
        }
        proof {
            assert((((b0 & 0x1F) as u32) << 6) | ((b1 & 0x3F) as u32) <= 0x7FF) by (bit_vector);
        }
        Some((c, 2))
    } else if b0 < 0xF0 {
        if n - i < 3 {
            return None;
        }
        let b1 = bytes[i + 1];
        let b2 = bytes[i + 2];
        assert(b1 == rem[1] && b2 == rem[2]);
        if !(0x80 <= b1 && b1 <= 0xBF) || !(0x80 <= b2 && b2 <= 0xBF) {
            return None;
        }
        let c: u32 = ((((b0 & 0x0F) as u32) << 12) | (((b1 & 0x3F) as u32) << 6)) | ((b2
            & 0x3F) as u32);
        if c < 0x800 {
            return None;
        }
        if 0xD800 <= c && c <= 0xDFFF {
            // A surrogate: never a scalar of its own.
            return None;
        }
        proof {
            assert(((((b0 & 0x0F) as u32) << 12) | (((b1 & 0x3F) as u32) << 6)) | ((b2
                & 0x3F) as u32) <= 0xFFFF) by (bit_vector);
        }
        Some((c, 3))
    } else if b0 < 0xF8 {
        if n - i < 4 {
            return None;
        }
        let b1 = bytes[i + 1];
        let b2 = bytes[i + 2];
        let b3 = bytes[i + 3];
        assert(b1 == rem[1] && b2 == rem[2] && b3 == rem[3]);
        if !(0x80 <= b1 && b1 <= 0xBF) || !(0x80 <= b2 && b2 <= 0xBF) || !(0x80 <= b3 && b3
            <= 0xBF) {
            return None;
        }
        let c: u32 = (((((b0 & 0x07) as u32) << 18) | (((b1 & 0x3F) as u32) << 12)) | (((b2
            & 0x3F) as u32) << 6)) | ((b3 & 0x3F) as u32);
        if c < 0x10000 || c > 0x10FFFF {
            return None;
        }
        Some((c, 4))
    } else {
        None
    }
}

/// Whether the bytes from `i` on are a cut-off prefix of some unit.
fn incomplete_unit(bytes: &[u8], i: usize) -> (r: bool)
    requires
        i < bytes@.len(),
    ensures
        r == is_incomplete(bytes@.skip(i as int)),
{
    let ghost rem = bytes@.skip(i as int);
    let n = bytes.len();
    let len = n - i;
    let b0 = bytes[i];
    assert(b0 == rem[0] && len == rem.len());
    if len == 1 && b0 == 0xC0 {
        return true;
    }
    if len < 6 && b0 == 0xED {
        let ok1 = if len < 2 {
            true
        } else {
            let b = bytes[i + 1];
            proof { assert(b == rem[1]); }
            0xA0 <= b && b <= 0xAF
        };
        let ok2 = if len < 3 {
            true
        } else {
            let b = bytes[i + 2];
            proof { assert(b == rem[2]); }
            0x80 <= b && b <= 0xBF
        };
        let ok3 = if len < 4 {
            true
        } else {
            let b = bytes[i + 3];
            proof { assert(b == rem[3]); }
            b == 0xED
        };
        let ok4 = if len < 5 {
            true
        } else {
            let b = bytes[i + 4];
            proof { assert(b == rem[4]); }
            0xB0 <= b && b <= 0xBF
        };
        if ok1 && ok2 && ok3 && ok4 {
            return true;
        }
    }
    if len == 1 && 0xC2 <= b0 && b0 <= 0xDF {
        return true;
    }
    if len <= 2 && 0xE0 <= b0 && b0 <= 0xEF {
        let ok = if len < 2 {
            true
        } else {
            let b = bytes[i + 1];
            proof { assert(b == rem[1]); }
            if b0 == 0xE0 {
                0xA0 <= b && b <= 0xBF
            } else if b0 == 0xED {
                0x80 <= b && b <= 0x9F
            } else {
                0x80 <= b && b <= 0xBF
            }
        };
        if ok {
            return true;
        }
    }
    if len <= 3 && 0xF0 <= b0 && b0 <= 0xF4 {
        let ok1 = if len < 2 {
            true
        } else {
            let b = bytes[i + 1];
            proof { assert(b == rem[1]); }
            if b0 == 0xF0 {
                0x90 <= b && b <= 0xBF
            } else if b0 == 0xF4 {
                0x80 <= b && b <= 0x8F
            } else {
                0x80 <= b && b <= 0xBF
            }
        };
        let ok2 = if len < 3 {
            true
        } else {
            let b = bytes[i + 2];
            proof { assert(b == rem[2]); }
            0x80 <= b && b <= 0xBF
        };
        if ok1 && ok2 {
            return true;
        }
    }
    false
}

/// Decode a modified UTF-8 encoded byte sequence into the string it
/// spells. The first byte sequence that no unit begins with fails the
/// whole decode: as incomplete when the input stops inside a unit that
/// more bytes could finish, as malformed otherwise.
pub fn from_modified_utf8(bytes: &[u8]) -> (r: Result<String, ModifiedUtf8Error>)
    ensures
        match r {
            Ok(s) => spec_mutf8(bytes@) matches Ok(cs) && s@ == cs,
            Err(e) => spec_mutf8(bytes@) == Err::<Seq<char>, ModifiedUtf8Error>(e),
        },
{
    broadcast use encode_utf8_valid_utf8;
    broadcast use encode_utf8_decode_utf8;
    broadcast use vstd::utf8::char_u32_cast;

    let n = bytes.len();
    let mut out: Vec<u8> = Vec::new();
    let ghost mut acc = Seq::<char>::empty();
    let mut i: usize = 0;
    proof {
        assert(bytes@.skip(0) =~= bytes@);
        assert(out@ =~= encode_utf8(acc));
        match spec_mutf8(bytes@) {
            Ok(cs) => {
                assert(cs =~= acc + cs);
            },
            Err(_) => {},
        }
    }
    while i < n
        invariant
            i <= n == bytes@.len(),
            out@ == encode_utf8(acc),
            mutf8_rel(acc, bytes@.skip(i as int), bytes@),
        decreases n - i,
    {
        let ghost rem = bytes@.skip(i as int);
        let ghost acc0 = acc;
        let b0 = bytes[i];
        assert(b0 == rem[0]);
        if b0 == 0xC0 && n - i >= 2 && bytes[i + 1] == 0x80 {
            proof {
                assert(rem[1] == 0x80);
                assert(is_nul_pair(rem));
            }
            push_scalar(&mut out, 0);
            proof {
                acc = acc0.push('\0');
                assert('\0' as u32 == 0);
                lemma_encode_utf8_snoc(acc0, '\0');
                lemma_mutf8_shift(acc0, '\0', rem, rem.skip(2), bytes@);
                assert(bytes@.skip(i as int + 2) =~= rem.skip(2));
            }
            i = i + 2;
        } else if b0 == 0xED && n - i >= 6 && 0xA0 <= bytes[i + 1] && bytes[i + 1] <= 0xAF && 0x80
            <= bytes[i + 2] && bytes[i + 2] <= 0xBF && bytes[i + 3] == 0xED && 0xB0 <= bytes[i + 4]
            && bytes[i + 4] <= 0xBF && 0x80 <= bytes[i + 5] && bytes[i + 5] <= 0xBF {
            let b1 = bytes[i + 1];
            let b2 = bytes[i + 2];
            let b4 = bytes[i + 4];
            let b5 = bytes[i + 5];
            proof {
                assert(b1 == rem[1] && b2 == rem[2] && rem[3] == 0xED && b4 == rem[4] && b5
                    == rem[5]);
                assert(is_surrogate_pair(rem));
            }
            let hi: u32 = (((b1 & 0x0F) as u32) << 6) | ((b2 & 0x3F) as u32);
            let lo: u32 = (((b4 & 0x0F) as u32) << 6) | ((b5 & 0x3F) as u32);
            let c: u32 = (0x10000 | (hi << 10)) | lo;
            proof {
                let bb1 = b1;
                let bb2 = b2;
                let bb4 = b4;
                let bb5 = b5;
                assert(({
                    let h = (((bb1 & 0x0F) as u32) << 6) | ((bb2 & 0x3F) as u32);
                    let l = (((bb4 & 0x0F) as u32) << 6) | ((bb5 & 0x3F) as u32);
                    0x10000 <= ((0x10000 | (h << 10)) | l) <= 0x10FFFF
                })) by (bit_vector);
                assert(c == surrogate_pair_scalar(rem));
                assert(is_scalar(c));
            }
            push_scalar(&mut out, c);
            proof {
                let ch = c as char;
                assert(ch as u32 == c);
                acc = acc0.push(ch);
                lemma_encode_utf8_snoc(acc0, ch);
                lemma_mutf8_shift(acc0, ch, rem, rem.skip(6), bytes@);
                assert(bytes@.skip(i as int + 6) =~= rem.skip(6));
            }
            i = i + 6;
        } else {
            match std_unit(bytes, i) {
                Some((c, w)) => {
                    proof {
                        assert(!is_nul_pair(rem)) by {
                            if is_nul_pair(rem) {
                                assert(rem[0] == 0xC0 && rem[1] == 0x80);
                            }
                        }
                        assert(!is_surrogate_pair(rem)) by {
                            if is_surrogate_pair(rem) {
                                assert(rem[0] == 0xED);
                            }
                        }
                        assert(is_scalar(c));
                    }
                    push_scalar(&mut out, c);
                    proof {
                        let ch = c as char;
                        assert(ch as u32 == c);
                        acc = acc0.push(ch);
                        lemma_encode_utf8_snoc(acc0, ch);
                        lemma_mutf8_shift(acc0, ch, rem, rem.skip(w as int), bytes@);
                        assert(bytes@.skip(i as int + w as int) =~= rem.skip(w as int));
                    }
                    i = i + w;
                },
                None => {
                    proof {
                        assert(!is_nul_pair(rem)) by {
                            if is_nul_pair(rem) {
                                assert(rem[0] == 0xC0 && rem[1] == 0x80);
                            }
                        }
                        assert(!is_surrogate_pair(rem)) by {
                            if is_surrogate_pair(rem) {
                                assert(rem[0] == 0xED);
                            }
                        }
                    }
                    if incomplete_unit(bytes, i) {
                        proof {
                            assert(spec_mutf8(rem) == Err::<Seq<char>, ModifiedUtf8Error>(
                                ModifiedUtf8Error::Incomplete));
                        }
                        return Err(ModifiedUtf8Error::Incomplete);
                    }
                    proof {
                        assert(spec_mutf8(rem) == Err::<Seq<char>, ModifiedUtf8Error>(
                            ModifiedUtf8Error::Malformed));
                    }
                    return Err(ModifiedUtf8Error::Malformed);
                },
            }
        }
    }
    proof {
        assert(bytes@.skip(n as int) =~= Seq::<u8>::empty());
        let all = spec_mutf8(bytes@)->Ok_0;
        assert(acc + Seq::<char>::empty() =~= acc);
        assert(all == acc);
        assert(valid_utf8(out@));
    }
    let s = string_from_utf8(out);
    proof {
        assert(decode_utf8(encode_utf8(s@)) == s@);
        assert(decode_utf8(encode_utf8(acc)) == acc);
    }
    Ok(s)
}

/// Relies on String::from_utf8: a byte vector that is valid UTF-8 becomes
/// the string made of exactly those bytes.
#[verifier::external_body]
fn string_from_utf8(v: Vec<u8>) -> (r: String)
    requires
        valid_utf8(v@),
    ensures
        encode_utf8(r@) == v@,
{
    match String::from_utf8(v) {
        Ok(s) => s,
        Err(_) => String::new(),
    }
}

} // verus!
