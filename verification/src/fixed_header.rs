//! The fixed header: one byte combining the packet type (high nibble) and
//! the per-type flag bits (low nibble), followed by the remaining length as
//! a variable-length integer of one to four bytes, each byte contributing
//! seven magnitude bits in little-endian digit order, with the high bit as
//! a continuation flag.

use vstd::prelude::*;
use vstd::slice::slice_subrange;

use crate::codec::spliced;
use crate::error::{DecodeError, EncodeError};
use crate::status::{decoded_int, decoded_of, Decoded, Status};

verus! {

/// The largest value the remaining-length integer can represent: four
/// bytes of seven magnitude bits each.
pub const MAX_REMAINING_LENGTH: u32 = 268435455;

/// The defined packet types, carried in the high nibble of the first
/// header byte. Nibble values 1 through 14; 0 and 15 are malformed.
#[derive(Clone, Copy, PartialEq, Eq, Structural, Debug)]
pub enum PacketType {
    Connect,
    Connack,
    Publish,
    Puback,
    Pubrec,
    Pubrel,
    Pubcomp,
    Subscribe,
    Suback,
    Unsubscribe,
    Unsuback,
    Pingreq,
    Pingresp,
    Disconnect,
}

/// The wire nibble of each packet type.
pub open spec fn type_code(t: PacketType) -> u8 {
    match t {
        PacketType::Connect => 1,
        PacketType::Connack => 2,
        PacketType::Publish => 3,
        PacketType::Puback => 4,
        PacketType::Pubrec => 5,
        PacketType::Pubrel => 6,
        PacketType::Pubcomp => 7,
        PacketType::Subscribe => 8,
        PacketType::Suback => 9,
        PacketType::Unsubscribe => 10,
        PacketType::Unsuback => 11,
        PacketType::Pingreq => 12,
        PacketType::Pingresp => 13,
        PacketType::Disconnect => 14,
    }
}

/// The packet type a wire nibble stands for, if any.
pub open spec fn code_type(v: u8) -> Option<PacketType> {
    if v == 1 {
        Some(PacketType::Connect)
    } else if v == 2 {
        Some(PacketType::Connack)
    } else if v == 3 {
        Some(PacketType::Publish)
    } else if v == 4 {
        Some(PacketType::Puback)
    } else if v == 5 {
        Some(PacketType::Pubrec)
    } else if v == 6 {
        Some(PacketType::Pubrel)
    } else if v == 7 {
        Some(PacketType::Pubcomp)
    } else if v == 8 {
        Some(PacketType::Subscribe)
    } else if v == 9 {
        Some(PacketType::Suback)
    } else if v == 10 {
        Some(PacketType::Unsubscribe)
    } else if v == 11 {
        Some(PacketType::Unsuback)
    } else if v == 12 {
        Some(PacketType::Pingreq)
    } else if v == 13 {
        Some(PacketType::Pingresp)
    } else if v == 14 {
        Some(PacketType::Disconnect)
    } else {
        None
    }
}

impl PacketType {
    /// The wire nibble of this packet type.
    pub fn to_code(self) -> (r: u8)
        ensures
            r == type_code(self),
    {
        match self {
            PacketType::Connect => 1,
            PacketType::Connack => 2,
            PacketType::Publish => 3,
            PacketType::Puback => 4,
            PacketType::Pubrec => 5,
            PacketType::Pubrel => 6,
            PacketType::Pubcomp => 7,
            PacketType::Subscribe => 8,
            PacketType::Suback => 9,
            PacketType::Unsubscribe => 10,
            PacketType::Unsuback => 11,
            PacketType::Pingreq => 12,
            PacketType::Pingresp => 13,
            PacketType::Disconnect => 14,
        }
    }

    /// The packet type a wire nibble stands for, or `None` for the two
    /// undefined nibbles.
    pub fn from_code(v: u8) -> (r: Option<PacketType>)
        ensures
            r == code_type(v),
    {
        if v == 1 {
            Some(PacketType::Connect)
        } else if v == 2 {
            Some(PacketType::Connack)
        } else if v == 3 {
            Some(PacketType::Publish)
        } else if v == 4 {
            Some(PacketType::Puback)
        } else if v == 5 {
            Some(PacketType::Pubrec)
        } else if v == 6 {
            Some(PacketType::Pubrel)
        } else if v == 7 {
            Some(PacketType::Pubcomp)
        } else if v == 8 {
            Some(PacketType::Subscribe)
        } else if v == 9 {
            Some(PacketType::Suback)
        } else if v == 10 {
            Some(PacketType::Unsubscribe)
        } else if v == 11 {
            Some(PacketType::Unsuback)
        } else if v == 12 {
            Some(PacketType::Pingreq)
        } else if v == 13 {
            Some(PacketType::Pingresp)
        } else if v == 14 {
            Some(PacketType::Disconnect)
        } else {
            None
        }
    }
}

/// 128 raised to a non-negative power: the weight of each digit of the
/// remaining-length integer.
pub open spec fn pow128(b: int) -> int
    decreases b,
{
    if b <= 0 {
        1
    } else {
        128 * pow128(b - 1)
    }
}

/// The wire encoding of a remaining-length value: seven bits per byte,
/// least-significant digit first, continuation bit on all but the last.
pub open spec fn enc_varint(n: int) -> Seq<u8>
    recommends
        n >= 0,
    decreases n,
{
    if n < 128 {
        seq![n as u8]
    } else {
        seq![(n % 128 + 128) as u8] + enc_varint(n / 128)
    }
}

/// What decoding a remaining-length integer yields when at most `budget`
/// digits may still be read: decoding stops at the first byte without the
/// continuation bit; running out of digits is malformed, running out of
/// bytes is partial.
pub open spec fn dec_varint_rec(s: Seq<u8>, budget: int) -> Decoded<int>
    decreases budget,
{
    if budget <= 0 {
        (Decoded::Malformed { err: DecodeError::RemainingLength })
    } else if s.len() == 0 {
        (Decoded::Partial { need: 1 })
    } else if s[0] < 128 {
        (Decoded::Complete { used: 1, value: s[0] as int })
    } else {
        match dec_varint_rec(s.skip(1), budget - 1) {
            Decoded::Complete { used, value } => (Decoded::Complete {
                used: used + 1,
                value: (s[0] - 128) + 128 * value,
            }),
            other => other,
        }
    }
}

/// What decoding the remaining-length integer of a fixed header yields: up
/// to four digit bytes.
pub open spec fn dec_varint(s: Seq<u8>) -> Decoded<int> {
    dec_varint_rec(s, 4)
}

/// The digit weight is always positive.
pub proof fn lemma_pow128_pos(b: int)
    ensures
        pow128(b) >= 1,
    decreases b,
{
    if b > 0 {
        lemma_pow128_pos(b - 1);
    }
}

/// A complete remaining-length decode consumes between one byte and the
/// whole budget, and its value is below the budget's digit capacity.
pub proof fn lemma_varint_bounds(s: Seq<u8>, budget: int)
    requires
        dec_varint_rec(s, budget) is Complete,
    ensures
        1 <= dec_varint_rec(s, budget)->used <= budget,
        dec_varint_rec(s, budget)->used <= s.len(),
        0 <= dec_varint_rec(s, budget)->value < pow128(budget),
    decreases budget,
{
    lemma_pow128_pos(budget - 1);
    if budget > 0 && s.len() > 0 && s[0] >= 128 {
        lemma_varint_bounds(s.skip(1), budget - 1);
        let inner = dec_varint_rec(s.skip(1), budget - 1);
        assert(pow128(budget) == 128 * pow128(budget - 1));
        assert((s[0] - 128) + 128 * inner->value < 128 * pow128(budget - 1)) by (nonlinear_arith)
            requires
                inner->value < pow128(budget - 1),
                s[0] < 256,
                0 <= inner->value,
        ;
    }
}

/// A remaining-length value always decodes back from its own encoding,
/// whatever bytes follow it on the wire.
pub proof fn lemma_varint_round_trip(n: int, rest: Seq<u8>, budget: int)
    requires
        1 <= budget,
        0 <= n < pow128(budget),
    ensures
        dec_varint_rec(enc_varint(n) + rest, budget) == (Decoded::Complete {
            used: enc_varint(n).len() as int,
            value: n,
        }),
    decreases budget,
{
    let s = enc_varint(n) + rest;
    if n < 128 {
        assert(s[0] == n as u8);
    } else {
        assert(budget >= 2) by {
            if budget == 1 {
                assert(pow128(0) == 1);
                assert(pow128(1) == 128);
            }
        }
        assert(n / 128 < pow128(budget - 1)) by (nonlinear_arith)
            requires
                n < pow128(budget),
                pow128(budget) == 128 * pow128(budget - 1),
                n >= 128,
        ;
        lemma_varint_round_trip(n / 128, rest, budget - 1);
        assert(s[0] == (n % 128 + 128) as u8);
        assert(s.skip(1) =~= enc_varint(n / 128) + rest);
        assert((s[0] - 128) + 128 * (n / 128) == n);
    }
}

/// On a strict prefix of a complete remaining-length integer the decoder
/// asks for one more byte; on any longer prefix it returns the very same
/// complete result.
pub proof fn lemma_varint_prefix(s: Seq<u8>, k: int, budget: int)
    requires
        0 <= k <= s.len(),
        dec_varint_rec(s, budget) is Complete,
    ensures
        k < dec_varint_rec(s, budget)->used ==> dec_varint_rec(s.subrange(0, k), budget) == (
        Decoded::<int>::Partial { need: 1 }),
        k >= dec_varint_rec(s, budget)->used ==> dec_varint_rec(s.subrange(0, k), budget)
            == dec_varint_rec(s, budget),
    decreases budget,
{
    let t = s.subrange(0, k);
    lemma_varint_bounds(s, budget);
    if budget > 0 && s.len() > 0 {
        if s[0] < 128 {
            if k >= 1 {
                assert(t[0] == s[0]);
                assert(dec_varint_rec(t, budget) == dec_varint_rec(s, budget));
            }
        } else {
            if k >= 1 {
                assert(t[0] == s[0]);
                assert(t.skip(1) =~= s.skip(1).subrange(0, k - 1));
                assert(dec_varint_rec(s.skip(1), budget - 1) is Complete);
                lemma_varint_prefix(s.skip(1), k - 1, budget - 1);
                let iu: int = dec_varint_rec(s.skip(1), budget - 1)->used;
                assert(dec_varint_rec(s, budget)->used == iu + 1);
                if k - 1 >= iu {
                    assert(dec_varint_rec(t.skip(1), budget - 1) == dec_varint_rec(
                        s.skip(1),
                        budget - 1,
                    ));
                    assert(dec_varint_rec(t, budget) == dec_varint_rec(s, budget));
                } else {
                    assert(dec_varint_rec(t, budget) == (Decoded::<int>::Partial { need: 1 }));
                }
            }
        }
    }
}

/// The fixed header of every packet: its type, the four per-type flag
/// bits, and the exact byte count of everything that follows the fixed
/// header (variable header and payload combined).
#[derive(Clone, Copy, PartialEq, Eq, Structural, Debug)]
pub struct FixedHeader {
    pub packet_type: PacketType,
    pub flags: u8,
    pub remaining_length: u32,
}

impl View for FixedHeader {
    type V = FixedHeader;

    open spec fn view(&self) -> FixedHeader {
        *self
    }
}

/// The wire encoding of a fixed header.
pub open spec fn enc_fixed_header(h: FixedHeader) -> Seq<u8> {
    seq![(type_code(h.packet_type) * 16 + h.flags) as u8] + enc_varint(
        h.remaining_length as int,
    )
}

/// What decoding a fixed header yields on any input.
pub open spec fn dec_fixed_header(s: Seq<u8>) -> Decoded<FixedHeader> {
    if s.len() == 0 {
        (Decoded::Partial { need: 1 })
    } else {
        match code_type((s[0] / 16) as u8) {
            None => (Decoded::Malformed { err: DecodeError::PacketType }),
            Some(t) => match dec_varint(s.skip(1)) {
                Decoded::Complete { used, value } => (Decoded::Complete {
                    used: used + 1,
                    value: FixedHeader {
                        packet_type: t,
                        flags: (s[0] % 16) as u8,
                        remaining_length: value as u32,
                    },
                }),
                Decoded::Partial { need } => (Decoded::Partial { need }),
                Decoded::Malformed { err } => (Decoded::Malformed { err }),
            },
        }
    }
}

impl FixedHeader {
    /// The header's fields are within their wire representation: flags fit
    /// the low nibble, the remaining length fits four digit bytes.
    pub open spec fn wf(self) -> bool {
        self.flags < 16 && self.remaining_length <= MAX_REMAINING_LENGTH
    }

    /// Builds a fixed header from fields that fit their representation.
    pub fn new(packet_type: PacketType, flags: u8, remaining_length: u32) -> (r: FixedHeader)
        requires
            flags < 16,
            remaining_length <= MAX_REMAINING_LENGTH,
        ensures
            r == (FixedHeader { packet_type, flags, remaining_length }),
    {
        FixedHeader { packet_type, flags, remaining_length }
    }

    /// The packet type carried in the high nibble.
    pub fn packet_type(&self) -> (r: PacketType)
        ensures
            r == self.packet_type,
    {
        self.packet_type
    }

    /// The four flag bits carried in the low nibble.
    pub fn flags(&self) -> (r: u8)
        ensures
            r == self.flags,
    {
        self.flags
    }

    /// The remaining length: the exact byte count of the variable header
    /// and payload that follow this fixed header.
    pub fn len(&self) -> (r: u32)
        ensures
            r == self.remaining_length,
    {
        self.remaining_length
    }

    /// Decodes a fixed header from the front of `bytes`.
    pub fn from_bytes(bytes: &[u8]) -> (r: Result<Status<(usize, FixedHeader)>, DecodeError>)
        ensures
            decoded_of(r) == dec_fixed_header(bytes@),
    {
        if bytes.len() == 0 {
            return Ok(Status::Partial(1));
        }
        let b0: u8 = bytes[0];
        let t = match PacketType::from_code(b0 / 16) {
            None => { return Err(DecodeError::PacketType); },
            Some(t) => t,
        };
        let rest = slice_subrange(bytes, 1, bytes.len());
        proof {
            assert(rest@ =~= bytes@.skip(1));
        }
        match parse_varint(rest, 4) {
            Err(e) => Err(e),
            Ok(Status::Partial(k)) => Ok(Status::Partial(k)),
            Ok(Status::Complete((n, v))) => {
                proof {
                    lemma_varint_bounds(rest@, 4);
                }
                let h = FixedHeader { packet_type: t, flags: b0 % 16, remaining_length: v };
                Ok(Status::Complete((n + 1, h)))
            },
        }
    }

    /// The number of bytes this header occupies on the wire.
    pub fn encoded_len(&self) -> (r: usize)
        requires
            self.wf(),
        ensures
            r == enc_fixed_header(*self).len(),
    {
        1 + varint_len(self.remaining_length)
    }

    /// Encodes this header into `bytes` at offset `at`. The required size
    /// is computed up front; an undersized destination is reported before
    /// anything is written.
    pub fn to_bytes(&self, bytes: &mut Vec<u8>, at: usize) -> (r: Result<usize, EncodeError>)
        requires
            self.wf(),
        ensures
            match r {
                Ok(n) => n == enc_fixed_header(*self).len() && at + n <= old(bytes)@.len()
                    && final(bytes)@ == spliced(old(bytes)@, at as int, enc_fixed_header(*self)),
                Err(e) => e == EncodeError::OutOfSpace && old(bytes)@.len() < at
                    + enc_fixed_header(*self).len() && final(bytes)@ == old(bytes)@,
            },
    {
        let need: usize = 1 + varint_len(self.remaining_length);
        if bytes.len() < need || at > bytes.len() - need {
            return Err(EncodeError::OutOfSpace);
        }
        let ghost prev = bytes@;
        bytes[at] = self.packet_type.to_code() * 16 + self.flags;
        let w = match encode_varint(self.remaining_length, bytes, at + 1) {
            Ok(w) => w,
            Err(..) => { return Err(EncodeError::OutOfSpace); },
        };
        proof {
            assert(bytes@ =~= spliced(prev, at as int, enc_fixed_header(*self)));
        }
        Ok(1 + w)
    }
}

/// Every complete fixed header is well formed and fits the bytes it was
/// decoded from, using at least two of them.
pub proof fn lemma_fixed_header_complete(s: Seq<u8>)
    requires
        dec_fixed_header(s) is Complete,
    ensures
        2 <= dec_fixed_header(s)->used <= s.len(),
        dec_fixed_header(s)->used <= 5,
        dec_fixed_header(s)->value.wf(),
{
    lemma_varint_bounds(s.skip(1), 4);
    assert(pow128(4) == 268435456) by {
        assert(pow128(0) == 1);
        assert(pow128(1) == 128);
        assert(pow128(2) == 16384);
        assert(pow128(3) == 2097152);
    }
}

/// A partial remaining-length decode always asks for exactly one more
/// byte: the next digit.
pub proof fn lemma_varint_partial_positive(s: Seq<u8>, budget: int)
    requires
        dec_varint_rec(s, budget) is Partial,
    ensures
        dec_varint_rec(s, budget)->need == 1,
    decreases budget,
{
    if budget > 0 && s.len() > 0 && s[0] >= 128 {
        lemma_varint_partial_positive(s.skip(1), budget - 1);
    }
}

/// A partial fixed-header decode always asks for at least one more byte.
pub proof fn lemma_fixed_header_partial_positive(s: Seq<u8>)
    requires
        dec_fixed_header(s) is Partial,
    ensures
        dec_fixed_header(s)->need >= 1,
{
    if s.len() > 0 && code_type((s[0] / 16) as u8) is Some {
        lemma_varint_partial_positive(s.skip(1), 4);
    }
}

/// A fixed header always decodes back from its own encoding, whatever
/// bytes follow it on the wire.
pub proof fn lemma_fixed_header_round_trip(h: FixedHeader, rest: Seq<u8>)
    requires
        h.wf(),
    ensures
        dec_fixed_header(enc_fixed_header(h) + rest) == (Decoded::Complete {
            used: enc_fixed_header(h).len() as int,
            value: h,
        }),
{
    let s = enc_fixed_header(h) + rest;
    assert(s[0] == (type_code(h.packet_type) * 16 + h.flags) as u8);
    assert(s[0] / 16 == type_code(h.packet_type));
    assert(code_type((s[0] / 16) as u8) == Some(h.packet_type));
    assert(s.skip(1) =~= enc_varint(h.remaining_length as int) + rest);
    assert(pow128(4) == 268435456) by {
        assert(pow128(0) == 1);
        assert(pow128(1) == 128);
        assert(pow128(2) == 16384);
        assert(pow128(3) == 2097152);
    }
    lemma_varint_round_trip(h.remaining_length as int, rest, 4);
}

/// On a strict prefix of a complete fixed header the decoder reports a
/// deficit that never overshoots the complete length; on any longer
/// prefix it returns the very same complete result.
pub proof fn lemma_fixed_header_prefix(s: Seq<u8>, k: int)
    requires
        0 <= k <= s.len(),
        dec_fixed_header(s) is Complete,
    ensures
        k < dec_fixed_header(s)->used ==> (dec_fixed_header(s.subrange(0, k))
            matches Decoded::Partial { need } && 1 <= need && k + need <= dec_fixed_header(
            s,
        )->used),
        k >= dec_fixed_header(s)->used ==> dec_fixed_header(s.subrange(0, k)) == dec_fixed_header(
            s,
        ),
{
    let t = s.subrange(0, k);
    lemma_varint_bounds(s.skip(1), 4);
    if k >= 1 {
        assert(t[0] == s[0]);
        assert(t.skip(1) =~= s.skip(1).subrange(0, k - 1));
        lemma_varint_prefix(s.skip(1), k - 1, 4);
    }
}

/// The number of wire bytes of a remaining-length value.
fn varint_len(n: u32) -> (l: usize)
    requires
        n <= MAX_REMAINING_LENGTH,
    ensures
        l == enc_varint(n as int).len(),
        1 <= l <= 4,
{
    proof {
        let m: int = n as int;
        if 128 <= m < 16384 {
            assert(enc_varint(m / 128).len() == 1);
        } else if 16384 <= m < 2097152 {
            assert(128 <= m / 128 < 16384);
            assert(enc_varint((m / 128) / 128).len() == 1);
            assert(enc_varint(m / 128).len() == 2);
        } else if m >= 2097152 {
            assert(128 <= (m / 128) / 128 < 16384);
            assert(enc_varint(((m / 128) / 128) / 128).len() == 1);
            assert(enc_varint((m / 128) / 128).len() == 2);
            assert(enc_varint(m / 128).len() == 3);
        }
    }
    if n < 128 {
        1
    } else if n < 16384 {
        2
    } else if n < 2097152 {
        3
    } else {
        4
    }
}

/// Decodes a remaining-length integer, reading at most `budget` more
/// digit bytes.
fn parse_varint(bytes: &[u8], budget: u32) -> (r: Result<Status<(usize, u32)>, DecodeError>)
    requires
        budget <= 4,
    ensures
        decoded_int(decoded_of(r)) == dec_varint_rec(bytes@, budget as int),
    decreases budget,
{
    if budget == 0 {
        return Err(DecodeError::RemainingLength);
    }
    if bytes.len() == 0 {
        return Ok(Status::Partial(1));
    }
    let b: u8 = bytes[0];
    if b < 128 {
        return Ok(Status::Complete((1, b as u32)));
    }
    let rest = slice_subrange(bytes, 1, bytes.len());
    proof {
        assert(rest@ =~= bytes@.skip(1));
    }
    match parse_varint(rest, budget - 1) {
        Err(e) => Err(e),
        Ok(Status::Partial(k)) => Ok(Status::Partial(k)),
        Ok(Status::Complete((n, v))) => {
            proof {
                lemma_varint_bounds(rest@, budget - 1);
                assert(pow128(3) == 2097152) by {
                    assert(pow128(0) == 1);
                    assert(pow128(1) == 128);
                    assert(pow128(2) == 16384);
                }
                assert(pow128(budget - 1) <= pow128(3)) by {
                    assert(pow128(0) == 1);
                    assert(pow128(1) == 128);
                    assert(pow128(2) == 16384);
                }
            }
            Ok(Status::Complete((n + 1, (b - 128) as u32 + 128 * v)))
        },
    }
}

/// Encodes a remaining-length value into `bytes` at offset `at`, lowest
/// digit first. The whole size is checked before the first write.
fn encode_varint(n: u32, bytes: &mut Vec<u8>, at: usize) -> (r: Result<usize, EncodeError>)
    requires
        n <= MAX_REMAINING_LENGTH,
    ensures
        match r {
            Ok(c) => c == enc_varint(n as int).len() && at + c <= old(bytes)@.len()
                && final(bytes)@ == spliced(old(bytes)@, at as int, enc_varint(n as int)),
            Err(e) => e == EncodeError::OutOfSpace && old(bytes)@.len() < at + enc_varint(
                n as int,
            ).len() && final(bytes)@ == old(bytes)@,
        },
    decreases n,
{
    let need: usize = varint_len(n);
    if bytes.len() < need || at > bytes.len() - need {
        return Err(EncodeError::OutOfSpace);
    }
    let ghost prev = bytes@;
    if n < 128 {
        bytes[at] = n as u8;
        proof {
            assert(bytes@ =~= spliced(prev, at as int, enc_varint(n as int)));
        }
        Ok(1)
    } else {
        bytes[at] = (n % 128 + 128) as u8;
        let ghost mid = bytes@;
        match encode_varint(n / 128, bytes, at + 1) {
            Ok(c) => {
                proof {
                    assert(bytes@ =~= spliced(prev, at as int, enc_varint(n as int)));
                }
                Ok(1 + c)
            },
            Err(..) => {
                proof {
                    assert(false);
                }
                Err(EncodeError::OutOfSpace)
            },
        }
    }
}

} // verus!
