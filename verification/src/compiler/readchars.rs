//! An incremental UTF-8 decoder: turns a byte sequence into a forward-only
//! stream of Unicode scalar values, one character at a time, without looking
//! further ahead than the bytes of the next character.

use vstd::prelude::*;
use vstd::utf8::*;

verus! {

/// Error produced by the decoder: the input is not valid UTF-8, either
/// because of an ill-formed byte sequence or because the input ends in the
/// middle of a multi-byte character.
#[derive(Debug)]
pub enum Error {
    Utf8Error,
}

/// The characters encoded by the longest valid UTF-8 prefix of `bs`:
/// decoding stops at the first ill-formed or truncated sequence.
pub open spec fn decoded_chars(bs: Seq<u8>) -> Seq<char>
    decreases bs.len(),
{
    if bs.len() == 0 {
        Seq::<char>::empty()
    } else if valid_first_scalar(bs) {
        seq![decode_first_scalar(bs) as char] + decoded_chars(pop_first_scalar(bs))
    } else {
        Seq::<char>::empty()
    }
}

/// True when decoding `bs` ends with a decode error: some suffix of `bs`
/// past the valid characters is nonempty but not a well-formed encoding.
pub open spec fn decode_fails(bs: Seq<u8>) -> bool
    decreases bs.len(),
{
    if bs.len() == 0 {
        false
    } else if valid_first_scalar(bs) {
        decode_fails(pop_first_scalar(bs))
    } else {
        true
    }
}

/// No more characters decode from a byte sequence than it has bytes.
pub proof fn lemma_decoded_chars_len(bs: Seq<u8>)
    ensures
        decoded_chars(bs).len() <= bs.len(),
    decreases bs.len(),
{
    if bs.len() > 0 && valid_first_scalar(bs) {
        assert(length_of_first_scalar(bs) >= 1);
        lemma_decoded_chars_len(pop_first_scalar(bs));
    }
}

/// The decoder agrees with the standard UTF-8 semantics: it reports no
/// error exactly on valid UTF-8 input, and then decodes to the very
/// character sequence that input encodes.
pub proof fn lemma_decoder_matches_utf8(bs: Seq<u8>)
    ensures
        !decode_fails(bs) <==> valid_utf8(bs),
        valid_utf8(bs) ==> decoded_chars(bs) == decode_utf8(bs),
    decreases bs.len(),
{
    if bs.len() > 0 && valid_first_scalar(bs) {
        assert(length_of_first_scalar(bs) >= 1);
        lemma_decoder_matches_utf8(pop_first_scalar(bs));
    }
}

/// Appending further bytes after a well-formed first encoding leaves the
/// first decoded character and its width unchanged.
proof fn lemma_valid_first_extend(a: Seq<u8>, b: Seq<u8>)
    requires
        valid_first_scalar(a),
    ensures
        valid_first_scalar(a + b),
        decode_first_scalar(a + b) == decode_first_scalar(a),
        length_of_first_scalar(a + b) == length_of_first_scalar(a),
{
    assert(forall|j: int| 0 <= j < a.len() ==> (a + b)[j] == a[j]);
    assert((a + b).len() >= a.len());
}

/// Decoder round trip: decoding the UTF-8 encoding of any character
/// sequence yields exactly those characters, in order, and no decode error.
pub proof fn lemma_decode_encoded(cs: Seq<char>)
    ensures
        decoded_chars(encode_utf8(cs)) == cs,
        !decode_fails(encode_utf8(cs)),
    decreases cs.len(),
{
    if cs.len() == 0 {
        assert(decoded_chars(encode_utf8(cs)) =~= cs);
    } else {
        let bytes = encode_utf8(cs);
        encode_utf8_first_scalar(cs);
        char_u32_cast(cs[0], cs[0] as u32);
        assert(pop_first_scalar(bytes) =~= encode_utf8(cs.drop_first()));
        lemma_decode_encoded(cs.drop_first());
        assert(decoded_chars(bytes) =~= cs);
    }
}

/// A truncated multi-byte sequence at the end of the input: every whole
/// character before the tail still decodes, and the tail itself yields a
/// decode error, never a character.
pub proof fn lemma_decode_truncated(cs: Seq<char>, c: char, k: int)
    requires
        1 <= k < encode_scalar(c as u32).len(),
    ensures
        decoded_chars(encode_utf8(cs) + encode_scalar(c as u32).take(k)) == cs,
        decode_fails(encode_utf8(cs) + encode_scalar(c as u32).take(k)),
    decreases cs.len(),
{
    let v = c as u32;
    let t = encode_scalar(v).take(k);
    char_is_scalar(c);
    if cs.len() == 0 {
        assert(encode_utf8(cs) + t =~= t);
        assert(t[0] == encode_scalar(v)[0]);
        if has_width_1_encoding(v) {
            // A 1-byte encoding has no proper nonempty prefix.
            assert(false);
        } else if has_width_2_encoding(v) {
            let b = leading_byte_width_2(v);
            assert(0xc0 <= b && b <= 0xdf) by (bit_vector)
                requires
                    b == (0xC0 | ((v >> 6u32) & 0x1F) as u8),
            ;
            assert(!valid_first_scalar(t));
        } else if has_width_3_encoding(v) {
            let b = leading_byte_width_3(v);
            assert(0xe0 <= b && b <= 0xef) by (bit_vector)
                requires
                    b == (0xE0 | ((v >> 12u32) & 0x0F) as u8),
            ;
            assert(!valid_first_scalar(t));
        } else {
            let b = leading_byte_width_4(v);
            assert(0xf0 <= b && b <= 0xf7) by (bit_vector)
                requires
                    b == (0xF0 | ((v >> 18u32) & 0x7) as u8),
            ;
            assert(!valid_first_scalar(t));
        }
    } else {
        let bytes = encode_utf8(cs);
        encode_utf8_first_scalar(cs);
        lemma_valid_first_extend(bytes, t);
        char_u32_cast(cs[0], cs[0] as u32);
        assert(pop_first_scalar(bytes + t) =~= encode_utf8(cs.drop_first()) + t);
        lemma_decode_truncated(cs.drop_first(), c, k);
        assert(decoded_chars(bytes + t) =~= cs);
    }
}

/// Relies on char::from_u32: returns `Some` exactly for the Unicode scalar
/// values (at most 0x10FFFF and outside the surrogate range), and the
/// returned character has the given scalar value.
pub assume_specification[ char::from_u32 ](v: u32) -> (r: Option<char>)
    ensures
        r is Some <==> is_scalar(v),
        r is Some ==> r->0 as u32 == v,
;

/// A pull-based character reader over a byte source: yields one decoded
/// character per call, or one terminal error, then nothing.
pub struct ReadChars {
    bytes: Vec<u8>,
    pos: usize,
    failed: bool,
}

impl ReadChars {
    /// The bytes not yet consumed.
    pub closed spec fn remaining(self) -> Seq<u8> {
        self.bytes@.skip(self.pos as int)
    }

    /// True once a decode error has been reported; the reader then stays
    /// exhausted.
    pub closed spec fn has_failed(self) -> bool {
        self.failed
    }

    /// Internal consistency: the read position lies within the byte buffer.
    pub closed spec fn wf(self) -> bool {
        self.pos <= self.bytes@.len()
    }

    /// Builds a reader over the given byte source.
    pub fn from(bytes: Vec<u8>) -> (r: ReadChars)
        ensures
            r.wf(),
            r.remaining() == bytes@,
            !r.has_failed(),
    {
        let r = ReadChars { bytes, pos: 0, failed: false };
        proof {
            assert(r.remaining() =~= r.bytes@);
        }
        r
    }

    /// Decodes the first character found at `pos`, returning it together
    /// with the width in bytes of its encoding, or `None` when the bytes at
    /// `pos` do not begin with a well-formed encoding.
    fn decode_next(bytes: &Vec<u8>, pos: usize) -> (r: Option<(char, usize)>)
        requires
            pos < bytes@.len(),
        ensures
            ({
                let rem = bytes@.skip(pos as int);
                match r {
                    Some(cw) => {
                        &&& valid_first_scalar(rem)
                        &&& cw.0 == decode_first_scalar(rem) as char
                        &&& cw.1 == length_of_first_scalar(rem)
                        &&& pos + cw.1 <= bytes@.len()
                    },
                    None => !valid_first_scalar(rem),
                }
            }),
    {
        let ghost rem = bytes@.skip(pos as int);
        let n: usize = bytes.len();
        let b0: u8 = bytes[pos];
        assert(rem[0] == b0);
        let w: usize = if b0 < 0x80 {
            1
        } else if 0xc0 <= b0 && b0 <= 0xdf {
            2
        } else if 0xe0 <= b0 && b0 <= 0xef {
            3
        } else if 0xf0 <= b0 && b0 <= 0xf7 {
            4
        } else {
            0
        };
        if w == 0 || n - pos < w {
            // Ill-formed leading byte, or the input ends inside the sequence.
            return None;
        }
        assert(rem.len() >= w);
        if w == 1 {
            let v: u32 = b0 as u32;
            assert(b0 & 0x7f == b0) by (bit_vector)
                requires
                    b0 < 0x80,
            ;
            assert(decode_first_codepoint(rem) == v);
            assert(valid_first_scalar(rem));
            match char::from_u32(v) {
                Some(c) => {
                    proof {
                        char_u32_cast(c, v);
                    }
                    Some((c, 1))
                },
                None => vstd::pervasive::unreached(),
            }
        } else if w == 2 {
            let b1: u8 = bytes[pos + 1];
            assert(rem[1] == b1);
            if !(0x80 <= b1 && b1 <= 0xbf) {
                return None;
            }
            let v: u32 = (((b0 & 0x1f) as u32) << 6u32) | ((b1 & 0x3f) as u32);
            assert(v == codepoint_width_2(b0, b1));
            if v < 0x80 {
                // Overlong encoding.
                assert(!not_overlong_encoding(decode_first_codepoint(rem), 2));
                return None;
            }
            assert(v <= 0x7ff) by (bit_vector)
                requires
                    v == (((b0 & 0x1f) as u32) << 6u32) | ((b1 & 0x3f) as u32),
            ;
            assert(valid_first_scalar(rem));
            match char::from_u32(v) {
                Some(c) => {
                    proof {
                        char_u32_cast(c, v);
                    }
                    Some((c, 2))
                },
                None => vstd::pervasive::unreached(),
            }
        } else if w == 3 {
            let b1: u8 = bytes[pos + 1];
            let b2: u8 = bytes[pos + 2];
            assert(rem[1] == b1 && rem[2] == b2);
            if !(0x80 <= b1 && b1 <= 0xbf) {
                return None;
            }
            if !(0x80 <= b2 && b2 <= 0xbf) {
                return None;
            }
            let v: u32 = (((b0 & 0x0f) as u32) << 12u32) | (((b1 & 0x3f) as u32) << 6u32) | ((b2
                & 0x3f) as u32);
            assert(v == codepoint_width_3(b0, b1, b2));
            if v < 0x800 {
                // Overlong encoding.
                assert(!not_overlong_encoding(decode_first_codepoint(rem), 3));
                return None;
            }
            if 0xd800 <= v && v <= 0xdfff {
                // Surrogate range.
                assert(!not_surrogate(decode_first_codepoint(rem)));
                return None;
            }
            assert(v <= 0xffff) by (bit_vector)
                requires
                    v == (((b0 & 0x0f) as u32) << 12u32) | (((b1 & 0x3f) as u32) << 6u32) | ((b2
                        & 0x3f) as u32),
            ;
            assert(valid_first_scalar(rem));
            match char::from_u32(v) {
                Some(c) => {
                    proof {
                        char_u32_cast(c, v);
                    }
                    Some((c, 3))
                },
                None => vstd::pervasive::unreached(),
            }
        } else {
            let b1: u8 = bytes[pos + 1];
            let b2: u8 = bytes[pos + 2];
            let b3: u8 = bytes[pos + 3];
            assert(rem[1] == b1 && rem[2] == b2 && rem[3] == b3);
            if !(0x80 <= b1 && b1 <= 0xbf) {
                return None;
            }
            if !(0x80 <= b2 && b2 <= 0xbf) {
                return None;
            }
            if !(0x80 <= b3 && b3 <= 0xbf) {
                return None;
            }
            let v: u32 = (((b0 & 0x07) as u32) << 18u32) | (((b1 & 0x3f) as u32) << 12u32) | (((b2
                & 0x3f) as u32) << 6u32) | ((b3 & 0x3f) as u32);
            assert(v == codepoint_width_4(b0, b1, b2, b3));
            if !(0x10000 <= v && v <= 0x10ffff) {
                // Overlong encoding or beyond the last scalar value.
                assert(!not_overlong_encoding(decode_first_codepoint(rem), 4));
                return None;
            }
            assert(valid_first_scalar(rem));
            match char::from_u32(v) {
                Some(c) => {
                    proof {
                        char_u32_cast(c, v);
                    }
                    Some((c, 4))
                },
                None => vstd::pervasive::unreached(),
            }
        }
    }

    /// Yields the next character, a terminal decode error, or `None` at a
    /// clean end of input.
    pub fn next(&mut self) -> (r: Option<Result<char, Error>>)
        requires
            old(self).wf(),
        ensures
            final(self).wf(),
            ({
                let rem = old(self).remaining();
                if old(self).has_failed() {
                    r is None && final(self).has_failed()
                } else if rem.len() == 0 {
                    &&& r is None
                    &&& !final(self).has_failed()
                    &&& final(self).remaining() == rem
                } else if valid_first_scalar(rem) {
                    &&& r == Some(Ok::<char, Error>(decode_first_scalar(rem) as char))
                    &&& !final(self).has_failed()
                    &&& final(self).remaining() == pop_first_scalar(rem)
                } else {
                    r == Some(Err::<char, Error>(Error::Utf8Error)) && final(self).has_failed()
                }
            }),
    {
        if self.failed {
            return None;
        }
        if self.pos == self.bytes.len() {
            proof {
                assert(self.remaining().len() == 0);
            }
            return None;
        }
        match Self::decode_next(&self.bytes, self.pos) {
            Some((c, w)) => {
                let ghost rem = self.remaining();
                self.pos = self.pos + w;
                proof {
                    assert(self.remaining() =~= pop_first_scalar(rem));
                }
                Some(Ok(c))
            },
            None => {
                self.failed = true;
                Some(Err(Error::Utf8Error))
            },
        }
    }
}

} // verus!
