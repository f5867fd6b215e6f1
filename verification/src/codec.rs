//! Primitive codecs shared by every layer: a big-endian 16-bit integer, a
//! length-prefixed byte string, and a length-prefixed UTF-8 string.
//!
//! Every decoder is specified by a total spec function from the input byte
//! sequence to a [`Decoded`] outcome; the executable decoder is proved to
//! realize that function exactly. Encoders write into a caller-supplied
//! destination at a given offset and are specified against the spec-level
//! encodings.

use vstd::prelude::*;
use vstd::slice::{slice_subrange, slice_to_vec};
use vstd::utf8::valid_utf8;

use crate::error::{DecodeError, EncodeError};
use crate::status::{decoded_of, Decoded, Status};

verus! {

/// The largest length a 2-byte big-endian prefix can declare.
pub const MAX_FIELD_LEN: usize = 65535;

/// The wire encoding of a 16-bit integer: two bytes, big-endian.
pub open spec fn enc_u16(v: u16) -> Seq<u8> {
    seq![(v / 256) as u8, (v % 256) as u8]
}

/// The wire encoding of a length-prefixed field: a 2-byte big-endian length
/// followed by the raw content. Meaningful when `b.len() <= 65535`.
pub open spec fn enc_lp(b: Seq<u8>) -> Seq<u8> {
    enc_u16(b.len() as u16) + b
}

/// What decoding a big-endian 16-bit integer yields on any input.
pub open spec fn dec_u16(s: Seq<u8>) -> Decoded<u16> {
    if s.len() >= 2 {
        (Decoded::Complete { used: 2, value: (s[0] * 256 + s[1]) as u16 })
    } else {
        (Decoded::Partial { need: 2 - s.len() })
    }
}

/// What decoding a length-prefixed byte string yields on any input: the
/// declared length is read first, then exactly that many content bytes.
pub open spec fn dec_lp_bytes(s: Seq<u8>) -> Decoded<Seq<u8>> {
    if s.len() < 2 {
        (Decoded::Partial { need: 2 - s.len() })
    } else {
        let n = s[0] * 256 + s[1];
        if s.len() < 2 + n {
            (Decoded::Partial { need: 2 + n - s.len() })
        } else {
            (Decoded::Complete { used: 2 + n, value: s.subrange(2, 2 + n) })
        }
    }
}

/// What decoding a length-prefixed UTF-8 string yields: the same framing as
/// [`dec_lp_bytes`], with malformed UTF-8 a decode error, never a partial
/// condition.
pub open spec fn dec_lp_string(s: Seq<u8>) -> Decoded<Seq<u8>> {
    match dec_lp_bytes(s) {
        Decoded::Complete { used, value } => if valid_utf8(value) {
            (Decoded::Complete { used, value })
        } else {
            (Decoded::Malformed { err: DecodeError::Utf8 })
        },
        other => other,
    }
}

/// The destination sequence after `patch` has been written over `dst`
/// starting at `at`; everything outside the patched range is untouched.
pub open spec fn spliced(dst: Seq<u8>, at: int, patch: Seq<u8>) -> Seq<u8> {
    dst.take(at) + patch + dst.skip(at + patch.len())
}

/// Reads a big-endian 16-bit integer from the front of `bytes`.
pub fn parse_u16(bytes: &[u8]) -> (r: Result<Status<(usize, u16)>, DecodeError>)
    ensures
        decoded_of(r) == dec_u16(bytes@),
{
    if bytes.len() < 2 {
        return Ok(Status::Partial(2 - bytes.len()));
    }
    let v: u16 = (bytes[0] as u16) * 256 + (bytes[1] as u16);
    Ok(Status::Complete((2, v)))
}

/// Reads a length-prefixed byte string from the front of `bytes`. The
/// returned `Partial` reports exactly the bytes still missing, for the
/// length prefix or for the declared content, whichever is short.
pub fn parse_bytes(bytes: &[u8]) -> (r: Result<Status<(usize, Vec<u8>)>, DecodeError>)
    ensures
        decoded_of(r) == dec_lp_bytes(bytes@),
{
    if bytes.len() < 2 {
        return Ok(Status::Partial(2 - bytes.len()));
    }
    let n: usize = (bytes[0] as usize) * 256 + (bytes[1] as usize);
    if bytes.len() < 2 + n {
        return Ok(Status::Partial(2 + n - bytes.len()));
    }
    let v = slice_to_vec(slice_subrange(bytes, 2, 2 + n));
    Ok(Status::Complete((2 + n, v)))
}

/// Relies on core::str::from_utf8: it returns `Ok` exactly when the bytes
/// are a valid UTF-8 encoding, which is what vstd's `valid_utf8` states.
#[verifier::external_body]
fn utf8_check(bytes: &[u8]) -> (r: bool)
    ensures
        r == valid_utf8(bytes@),
{
    core::str::from_utf8(bytes).is_ok()
}

/// Reads a length-prefixed UTF-8 string from the front of `bytes`; the
/// content is returned as its underlying bytes, checked to be UTF-8.
pub fn parse_string(bytes: &[u8]) -> (r: Result<Status<(usize, Vec<u8>)>, DecodeError>)
    ensures
        decoded_of(r) == dec_lp_string(bytes@),
{
    let st = match parse_bytes(bytes) {
        Ok(st) => st,
        Err(e) => { return Err(e); },
    };
    match st {
        Status::Partial(k) => Ok(Status::Partial(k)),
        Status::Complete((n, v)) => {
            if utf8_check(v.as_slice()) {
                Ok(Status::Complete((n, v)))
            } else {
                Err(DecodeError::Utf8)
            }
        },
    }
}

/// Writes a big-endian 16-bit integer into `bytes` at offset `at`.
pub fn encode_u16(v: u16, bytes: &mut Vec<u8>, at: usize) -> (r: Result<usize, EncodeError>)
    ensures
        match r {
            Ok(n) => n == 2 && at + 2 <= old(bytes)@.len() && final(bytes)@ == spliced(
                old(bytes)@,
                at as int,
                enc_u16(v),
            ),
            Err(e) => e == EncodeError::OutOfSpace && old(bytes)@.len() < at + 2 && final(bytes)@ == old(
                bytes,
            )@,
        },
{
    if bytes.len() < 2 || at > bytes.len() - 2 {
        return Err(EncodeError::OutOfSpace);
    }
    let ghost prev = bytes@;
    bytes[at] = (v / 256) as u8;
    bytes[at + 1] = (v % 256) as u8;
    proof {
        assert(bytes@ =~= spliced(prev, at as int, enc_u16(v)));
    }
    Ok(2)
}

/// Writes a length-prefixed byte string into `bytes` at offset `at`. The
/// required size is computed up front: an undersized destination is
/// reported before anything is written.
pub fn encode_bytes(b: &[u8], bytes: &mut Vec<u8>, at: usize) -> (r: Result<usize, EncodeError>)
    ensures
        match r {
            Ok(n) => b@.len() <= 65535 && n == 2 + b@.len() && at + n <= old(bytes)@.len()
                && final(bytes)@ == spliced(old(bytes)@, at as int, enc_lp(b@)),
            Err(e) => final(bytes)@ == old(bytes)@ && (if b@.len() > 65535 {
                e == EncodeError::ValueTooBig
            } else {
                e == EncodeError::OutOfSpace && old(bytes)@.len() < at + 2 + b@.len()
            }),
        },
{
    if b.len() > MAX_FIELD_LEN {
        return Err(EncodeError::ValueTooBig);
    }
    let need: usize = 2 + b.len();
    if bytes.len() < need || at > bytes.len() - need {
        return Err(EncodeError::OutOfSpace);
    }
    let ghost prev = bytes@;
    let len16: u16 = b.len() as u16;
    bytes[at] = (len16 / 256) as u8;
    bytes[at + 1] = (len16 % 256) as u8;
    let mut i: usize = 0;
    while i < b.len()
        invariant
            i <= b@.len(),
            b@.len() <= 65535,
            prev.len() <= usize::MAX,
            at + 2 + b@.len() <= bytes@.len(),
            bytes@.len() == prev.len(),
            forall|j: int| 0 <= j < at ==> bytes@[j] == prev[j],
            bytes@[at as int] == enc_lp(b@)[0],
            bytes@[at + 1] == enc_lp(b@)[1],
            forall|j: int| 0 <= j < i ==> bytes@[at + 2 + j] == b@[j],
            forall|j: int| at + 2 + b@.len() <= j < prev.len() ==> bytes@[j] == prev[j],
        decreases b@.len() - i,
    {
        bytes[at + 2 + i] = b[i];
        i += 1;
    }
    proof {
        assert(bytes@ =~= spliced(prev, at as int, enc_lp(b@)));
    }
    Ok(need)
}

/// Writes a length-prefixed string into `bytes` at offset `at`. The string
/// content is carried as its UTF-8 bytes, so the framing is exactly that of
/// [`encode_bytes`].
pub fn encode_string(s: &[u8], bytes: &mut Vec<u8>, at: usize) -> (r: Result<usize, EncodeError>)
    ensures
        match r {
            Ok(n) => s@.len() <= 65535 && n == 2 + s@.len() && at + n <= old(bytes)@.len()
                && final(bytes)@ == spliced(old(bytes)@, at as int, enc_lp(s@)),
            Err(e) => final(bytes)@ == old(bytes)@ && (if s@.len() > 65535 {
                e == EncodeError::ValueTooBig
            } else {
                e == EncodeError::OutOfSpace && old(bytes)@.len() < at + 2 + s@.len()
            }),
        },
{
    encode_bytes(s, bytes, at)
}

/// Writes one byte into `bytes` at offset `at`.
pub fn write_u8(v: u8, bytes: &mut Vec<u8>, at: usize) -> (r: Result<usize, EncodeError>)
    ensures
        match r {
            Ok(n) => n == 1 && at + 1 <= old(bytes)@.len() && final(bytes)@ == spliced(
                old(bytes)@,
                at as int,
                seq![v],
            ),
            Err(e) => e == EncodeError::OutOfSpace && old(bytes)@.len() < at + 1 && final(bytes)@
                == old(bytes)@,
        },
{
    if bytes.len() < 1 || at > bytes.len() - 1 {
        return Err(EncodeError::OutOfSpace);
    }
    let ghost prev = bytes@;
    bytes[at] = v;
    proof {
        assert(bytes@ =~= spliced(prev, at as int, seq![v]));
    }
    Ok(1)
}

/// Writes raw content bytes, with no framing, into `bytes` at offset `at`.
pub fn encode_raw(b: &[u8], bytes: &mut Vec<u8>, at: usize) -> (r: Result<usize, EncodeError>)
    ensures
        match r {
            Ok(n) => n == b@.len() && at + n <= old(bytes)@.len() && final(bytes)@ == spliced(
                old(bytes)@,
                at as int,
                b@,
            ),
            Err(e) => e == EncodeError::OutOfSpace && old(bytes)@.len() < at + b@.len() && final(bytes)@ == old(bytes)@,
        },
{
    if bytes.len() < b.len() || at > bytes.len() - b.len() {
        return Err(EncodeError::OutOfSpace);
    }
    let ghost prev = bytes@;
    let mut i: usize = 0;
    while i < b.len()
        invariant
            i <= b@.len(),
            at + b@.len() <= bytes@.len(),
            prev.len() <= usize::MAX,
            bytes@.len() == prev.len(),
            forall|j: int| 0 <= j < at ==> bytes@[j] == prev[j],
            forall|j: int| 0 <= j < i ==> bytes@[at + j] == b@[j],
            forall|j: int| at + b@.len() <= j < prev.len() ==> bytes@[j] == prev[j],
        decreases b@.len() - i,
    {
        bytes[at + i] = b[i];
        i += 1;
    }
    proof {
        assert(bytes@ =~= spliced(prev, at as int, b@));
    }
    Ok(b.len())
}

/// A partial result of the primitive decoders always asks for at least
/// one more byte.
pub proof fn lemma_lp_string_partial_positive(s: Seq<u8>)
    requires
        dec_lp_string(s) is Partial,
    ensures
        dec_lp_string(s)->need >= 1,
{
}

/// A 16-bit integer always decodes back from its own encoding, whatever
/// bytes follow it on the wire.
pub proof fn lemma_u16_round_trip(v: u16, rest: Seq<u8>)
    ensures
        dec_u16(enc_u16(v) + rest) == (Decoded::Complete { used: 2, value: v }),
{
    let s = enc_u16(v) + rest;
    assert(s[0] == v / 256 && s[1] == v % 256);
}

/// A length-prefixed field always decodes back from its own encoding,
/// whatever bytes follow it on the wire.
pub proof fn lemma_lp_round_trip(b: Seq<u8>, rest: Seq<u8>)
    requires
        b.len() <= 65535,
    ensures
        dec_lp_bytes(enc_lp(b) + rest) == (Decoded::Complete { used: 2 + b.len() as int, value: b }),
{
    let s = enc_lp(b) + rest;
    let l: u16 = b.len() as u16;
    assert(s[0] == l / 256 && s[1] == l % 256);
    assert(s[0] * 256 + s[1] == b.len());
    assert(s.subrange(2, 2 + b.len() as int) =~= b);
}

/// On a strict prefix of a complete field the decoder reports a deficit
/// that never overshoots the complete length; on any longer prefix it
/// returns the very same complete result.
pub proof fn lemma_u16_prefix(s: Seq<u8>, k: int)
    requires
        0 <= k <= s.len(),
        dec_u16(s) is Complete,
    ensures
        k < dec_u16(s)->used ==> (dec_u16(s.subrange(0, k)) matches Decoded::Partial { need }
            && k + need == dec_u16(s)->used),
        k >= dec_u16(s)->used ==> dec_u16(s.subrange(0, k)) == dec_u16(s),
{
}

/// The same prefix discipline for length-prefixed byte strings.
pub proof fn lemma_lp_bytes_prefix(s: Seq<u8>, k: int)
    requires
        0 <= k <= s.len(),
        dec_lp_bytes(s) is Complete,
    ensures
        k < dec_lp_bytes(s)->used ==> (dec_lp_bytes(s.subrange(0, k)) matches Decoded::Partial {
            need,
        } && k + need <= dec_lp_bytes(s)->used),
        k >= dec_lp_bytes(s)->used ==> dec_lp_bytes(s.subrange(0, k)) == dec_lp_bytes(s),
{
    let t = s.subrange(0, k);
    let c: int = dec_lp_bytes(s)->used;
    if k >= 2 {
        assert(t[0] == s[0] && t[1] == s[1]);
        if k >= c {
            assert(t.subrange(2, c) =~= s.subrange(2, c));
        }
    }
}

/// The same prefix discipline for length-prefixed strings: a prefix that
/// cuts the content short is partial, never a UTF-8 error.
pub proof fn lemma_lp_string_prefix(s: Seq<u8>, k: int)
    requires
        0 <= k <= s.len(),
        dec_lp_string(s) is Complete,
    ensures
        k < dec_lp_string(s)->used ==> (dec_lp_string(s.subrange(0, k)) matches Decoded::Partial {
            need,
        } && k + need <= dec_lp_string(s)->used),
        k >= dec_lp_string(s)->used ==> dec_lp_string(s.subrange(0, k)) == dec_lp_string(s),
{
    lemma_lp_bytes_prefix(s, k);
}

} // verus!
