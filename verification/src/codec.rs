//! Fixed-width framing codec: a message is UTF-8 text copied into a
//! `FRAME_WIDTH`-byte block and zero-padded; the receiver reads up to the
//! first zero byte. Text longer than `FRAME_WIDTH - 1` bytes is silently
//! truncated so that at least one terminating zero always remains.
use crate::text::{lemma_find_bounds, lemma_find_is, spec_find, find_byte, subvec};
use vstd::prelude::*;
use vstd::utf8::{
    is_continuation_byte, partial_valid_partial_invalid_utf8, partial_valid_utf8,
    partial_valid_utf8_extend, valid_first_scalar, valid_utf8,
};

verus! {

/// Width in bytes of every frame on the wire; both peers must agree on it.
pub const FRAME_WIDTH: usize = 64;

/// Decoding failure: the bytes before the terminating zero are not valid
/// UTF-8. Fatal for the connection that produced the frame.
#[derive(Clone, Copy, Debug, PartialEq, Eq, Structural)]
pub enum FramingError {
    NotUtf8,
}

/// The message bytes that fit in one frame: the whole text when it is
/// shorter than the frame, else its first `FRAME_WIDTH - 1` bytes.
pub open spec fn spec_truncated(t: Seq<u8>) -> Seq<u8> {
    if t.len() < FRAME_WIDTH {
        t
    } else {
        t.take(FRAME_WIDTH as int - 1)
    }
}

/// The frame that carries `t`: the retained text, zero-padded to
/// `FRAME_WIDTH` bytes.
pub open spec fn spec_encode(t: Seq<u8>) -> Seq<u8> {
    spec_truncated(t) + Seq::new((FRAME_WIDTH - spec_truncated(t).len()) as nat, |i: int| 0u8)
}

/// The bytes of a frame before its first zero byte.
pub open spec fn spec_unpad(frame: Seq<u8>) -> Seq<u8> {
    frame.take(spec_find(frame, 0))
}

/// What decoding a frame yields: its unpadded text when that text is valid
/// UTF-8, and a framing error otherwise.
pub open spec fn spec_decode(frame: Seq<u8>) -> Result<Seq<u8>, FramingError> {
    if valid_utf8(spec_unpad(frame)) {
        Ok(spec_unpad(frame))
    } else {
        Err(FramingError::NotUtf8)
    }
}

/// Encode `t` into one zero-padded frame, truncating silently to the first
/// `FRAME_WIDTH - 1` bytes when `t` does not fit.
pub fn encode(t: &Vec<u8>) -> (frame: Vec<u8>)
    ensures
        frame@ == spec_encode(t@),
        frame@.len() == FRAME_WIDTH,
{
    let keep: usize = if t.len() < FRAME_WIDTH {
        t.len()
    } else {
        FRAME_WIDTH - 1
    };
    let mut frame = subvec(t, 0, keep);
    proof {
        if t@.len() < FRAME_WIDTH {
            assert(frame@ =~= spec_truncated(t@));
        }
    }
    while frame.len() < FRAME_WIDTH
        invariant
            keep <= frame@.len() <= FRAME_WIDTH,
            frame@.take(keep as int) == spec_truncated(t@),
            keep == spec_truncated(t@).len(),
            forall|j: int| keep <= j < frame@.len() ==> frame@[j] == 0,
        decreases FRAME_WIDTH - frame@.len(),
    {
        let ghost before = frame@;
        frame.push(0);
        proof {
            assert(frame@.take(keep as int) =~= before.take(keep as int));
        }
    }
    proof {
        assert(frame@ =~= spec_encode(t@));
    }
    frame
}

/// Decode one frame: take the bytes before the first zero and check that
/// they are valid UTF-8.
pub fn decode(frame: &Vec<u8>) -> (r: Result<Vec<u8>, FramingError>)
    ensures
        r is Ok <==> valid_utf8(spec_unpad(frame@)),
        r is Ok ==> r->Ok_0@ == spec_unpad(frame@),
        r is Err ==> r->Err_0 == FramingError::NotUtf8,
{
    proof {
        lemma_find_bounds(frame@, 0);
    }
    let end = find_byte(frame, 0);
    let text = subvec(frame, 0, end);
    if check_utf8(&text) {
        Ok(text)
    } else {
        Err(FramingError::NotUtf8)
    }
}

/// Whether `s` is a valid UTF-8 encoding, checked scalar by scalar.
pub fn check_utf8(s: &Vec<u8>) -> (r: bool)
    ensures
        r == valid_utf8(s@),
{
    let n = s.len();
    let mut i: usize = 0;
    proof {
        assert(s@.subrange(0, 0) =~= Seq::<u8>::empty());
    }
    while i < n
        invariant
            i <= n,
            n == s@.len(),
            partial_valid_utf8(s@, i as int),
        decreases n - i,
    {
        let ghost rest = s@.subrange(i as int, n as int);
        let b0 = s[i];
        proof {
            assert(rest[0] == s@[i as int]);
        }
        if b0 <= 0x7f {
            let cp: u32 = (b0 & 0x7f) as u32;
            if 0xd800 <= cp && cp <= 0xdfff {
                proof {
                    lemma_invalid_at(s@, i as int);
                }
                return false;
            }
            proof {
                assert(valid_first_scalar(rest));
                partial_valid_utf8_extend(s@, i as int);
            }
            i += 1;
        } else if 0xc0 <= b0 && b0 <= 0xdf {
            if i + 1 >= n || !is_cont(s[i + 1]) {
                proof {
                    if i + 1 < n {
                        assert(rest[1] == s@[i + 1]);
                    }
                    lemma_invalid_at(s@, i as int);
                }
                return false;
            }
            let b1 = s[i + 1];
            proof {
                assert(rest[1] == s@[i + 1]);
            }
            let cp: u32 = (((b0 & 0x1f) as u32) << 6u32) | ((b1 & 0x3f) as u32);
            if cp < 0x80 || (0xd800 <= cp && cp <= 0xdfff) {
                proof {
                    lemma_invalid_at(s@, i as int);
                }
                return false;
            }
            proof {
                assert(valid_first_scalar(rest));
                partial_valid_utf8_extend(s@, i as int);
            }
            i += 2;
        } else if 0xe0 <= b0 && b0 <= 0xef {
            if n - i < 3 || !is_cont(s[i + 1]) || !is_cont(s[i + 2]) {
                proof {
                    if i + 1 < n {
                        assert(rest[1] == s@[i + 1]);
                    }
                    if i + 2 < n {
                        assert(rest[2] == s@[i + 2]);
                    }
                    lemma_invalid_at(s@, i as int);
                }
                return false;
            }
            let b1 = s[i + 1];
            let b2 = s[i + 2];
            proof {
                assert(rest[1] == s@[i + 1]);
                assert(rest[2] == s@[i + 2]);
            }
            let cp: u32 = (((b0 & 0x0f) as u32) << 12u32) | (((b1 & 0x3f) as u32) << 6u32) | ((b2
                & 0x3f) as u32);
            if cp < 0x800 || (0xd800 <= cp && cp <= 0xdfff) {
                proof {
                    lemma_invalid_at(s@, i as int);
                }
                return false;
            }
            proof {
                assert(valid_first_scalar(rest));
                partial_valid_utf8_extend(s@, i as int);
            }
            i += 3;
        } else if 0xf0 <= b0 && b0 <= 0xf7 {
            if n - i < 4 || !is_cont(s[i + 1]) || !is_cont(s[i + 2]) || !is_cont(s[i + 3]) {
                proof {
                    if i + 1 < n {
                        assert(rest[1] == s@[i + 1]);
                    }
                    if i + 2 < n {
                        assert(rest[2] == s@[i + 2]);
                    }
                    if i + 3 < n {
                        assert(rest[3] == s@[i + 3]);
                    }
                    lemma_invalid_at(s@, i as int);
                }
                return false;
            }
            let b1 = s[i + 1];
            let b2 = s[i + 2];
            let b3 = s[i + 3];
            proof {
                assert(rest[1] == s@[i + 1]);
                assert(rest[2] == s@[i + 2]);
                assert(rest[3] == s@[i + 3]);
            }
            let cp: u32 = (((b0 & 0x07) as u32) << 18u32) | (((b1 & 0x3f) as u32) << 12u32) | (((b2
                & 0x3f) as u32) << 6u32) | ((b3 & 0x3f) as u32);
            if cp < 0x10000 || cp > 0x10ffff || (0xd800 <= cp && cp <= 0xdfff) {
                proof {
                    lemma_invalid_at(s@, i as int);
                }
                return false;
            }
            proof {
                assert(valid_first_scalar(rest));
                partial_valid_utf8_extend(s@, i as int);
            }
            i += 4;
        } else {
            proof {
                lemma_invalid_at(s@, i as int);
            }
            return false;
        }
    }
    proof {
        assert(s@.subrange(0, n as int) =~= s@);
    }
    true
}

/// Runtime test for a UTF-8 continuation byte.
fn is_cont(b: u8) -> (r: bool)
    ensures
        r == is_continuation_byte(b),
{
    0x80 <= b && b <= 0xbf
}

/// A valid prefix followed by a position that does not start a valid
/// scalar encoding makes the whole sequence invalid.
proof fn lemma_invalid_at(s: Seq<u8>, i: int)
    requires
        0 <= i < s.len(),
        partial_valid_utf8(s, i),
        !valid_first_scalar(s.subrange(i, s.len() as int)),
    ensures
        !valid_utf8(s),
{
    let rest = s.subrange(i, s.len() as int);
    assert(!valid_utf8(rest));
    partial_valid_partial_invalid_utf8(s, i);
}

/// Round trip: any zero-free UTF-8 text shorter than the frame survives
/// encoding and decoding unchanged.
pub proof fn lemma_decode_encode_roundtrip(t: Seq<u8>)
    requires
        t.len() < FRAME_WIDTH,
        forall|i: int| 0 <= i < t.len() ==> t[i] != 0,
        valid_utf8(t),
    ensures
        spec_decode(spec_encode(t)) == Ok::<Seq<u8>, FramingError>(t),
{
    let f = spec_encode(t);
    lemma_find_is(f, 0, t.len() as int);
    assert(spec_unpad(f) =~= t);
}

/// Truncation boundary: text at least as long as the frame keeps exactly
/// its first `FRAME_WIDTH - 1` bytes, followed by a terminating zero.
pub proof fn lemma_encode_truncates(t: Seq<u8>)
    requires
        t.len() >= FRAME_WIDTH,
    ensures
        spec_encode(t).len() == FRAME_WIDTH,
        spec_encode(t).take(FRAME_WIDTH as int - 1) == t.take(FRAME_WIDTH as int - 1),
        spec_encode(t)[FRAME_WIDTH as int - 1] == 0,
{
    assert(spec_encode(t).take(FRAME_WIDTH as int - 1) =~= t.take(FRAME_WIDTH as int - 1));
}

} // verus!
