//! The variable header: a tagged union keyed by packet type. Not every
//! packet type has a defined variant; absence is legal and modeled as "no
//! variable header for this type", distinct from "present but empty".

use vstd::prelude::*;
use vstd::slice::slice_subrange;
use vstd::utf8::valid_utf8;

use crate::codec::{
    dec_lp_string, dec_u16, enc_lp, enc_u16, encode_string, encode_u16, lemma_lp_string_prefix,
    lemma_lp_round_trip, lemma_u16_round_trip, parse_string, parse_u16, spliced, write_u8,
};
use crate::error::{DecodeError, EncodeError};
use crate::fixed_header::PacketType;
use crate::status::{decoded_of, Decoded, Status};

verus! {

/// The connect flags byte. The three bits read by the codec gate which
/// payload fields are structurally present; the remaining bits are carried
/// through untouched.
#[derive(Clone, Copy, PartialEq, Eq, Structural, Debug)]
pub struct Flags(pub u8);

impl Flags {
    /// The will bit: a will topic and message follow the client
    /// identifier in the payload.
    pub open spec fn spec_has_will(self) -> bool {
        self.0 & 0x04 != 0
    }

    /// The username bit: a username field is present in the payload.
    pub open spec fn spec_has_username(self) -> bool {
        self.0 & 0x80 != 0
    }

    /// The password bit: a password field is present in the payload.
    pub open spec fn spec_has_password(self) -> bool {
        self.0 & 0x40 != 0
    }

    /// Whether the will bit is set.
    pub fn has_will(&self) -> (r: bool)
        ensures
            r == self.spec_has_will(),
    {
        self.0 & 0x04 != 0
    }

    /// Whether the username bit is set.
    pub fn has_username(&self) -> (r: bool)
        ensures
            r == self.spec_has_username(),
    {
        self.0 & 0x80 != 0
    }

    /// Whether the password bit is set.
    pub fn has_password(&self) -> (r: bool)
        ensures
            r == self.spec_has_password(),
    {
        self.0 & 0x40 != 0
    }
}

/// The variable header of a connect packet: protocol name, protocol
/// level, connect flags, and keep-alive interval.
#[derive(Clone, PartialEq, Eq, Debug)]
pub struct Connect {
    pub protocol_name: Vec<u8>,
    pub protocol_level: u8,
    pub flags: Flags,
    pub keep_alive: u16,
}

/// The mathematical value of a connect variable header.
pub struct ConnectV {
    pub protocol_name: Seq<u8>,
    pub protocol_level: u8,
    pub flags: Flags,
    pub keep_alive: u16,
}

impl View for Connect {
    type V = ConnectV;

    open spec fn view(&self) -> ConnectV {
        ConnectV {
            protocol_name: self.protocol_name@,
            protocol_level: self.protocol_level,
            flags: self.flags,
            keep_alive: self.keep_alive,
        }
    }
}

impl ConnectV {
    /// The protocol name fits its length prefix.
    pub open spec fn sizes_ok(self) -> bool {
        self.protocol_name.len() <= 65535
    }

    /// The fields fit their wire representation and the protocol name is
    /// a valid string.
    pub open spec fn wf(self) -> bool {
        self.sizes_ok() && valid_utf8(self.protocol_name)
    }
}

/// The wire encoding of a connect variable header: the protocol name as a
/// length-prefixed string, one protocol level byte, one flags byte, and
/// the keep-alive interval big-endian.
pub open spec fn enc_connect_vh(v: ConnectV) -> Seq<u8> {
    enc_lp(v.protocol_name) + seq![v.protocol_level, v.flags.0] + enc_u16(v.keep_alive)
}

/// What decoding a connect variable header yields on any input.
pub open spec fn dec_connect_vh(s: Seq<u8>) -> Decoded<ConnectV> {
    match dec_lp_string(s) {
        Decoded::Complete { used: u0, value: name } => {
            let r = s.skip(u0);
            if r.len() < 2 {
                (Decoded::Partial { need: 2 - r.len() })
            } else {
                match dec_u16(r.skip(2)) {
                    Decoded::Complete { used: u1, value: ka } => (Decoded::Complete {
                        used: u0 + 2 + u1,
                        value: ConnectV {
                            protocol_name: name,
                            protocol_level: r[0],
                            flags: Flags(r[1]),
                            keep_alive: ka,
                        },
                    }),
                    Decoded::Partial { need } => (Decoded::Partial { need }),
                    Decoded::Malformed { err } => (Decoded::Malformed { err }),
                }
            }
        },
        Decoded::Partial { need } => (Decoded::Partial { need }),
        Decoded::Malformed { err } => (Decoded::Malformed { err }),
    }
}

impl Connect {
    /// Builds a connect variable header from its fields.
    pub fn new(protocol_name: Vec<u8>, protocol_level: u8, flags: Flags, keep_alive: u16) -> (r:
        Connect)
        ensures
            r@ == (ConnectV {
                protocol_name: protocol_name@,
                protocol_level,
                flags,
                keep_alive,
            }),
    {
        Connect { protocol_name, protocol_level, flags, keep_alive }
    }

    /// Decodes a connect variable header from the front of `bytes`.
    pub fn from_bytes(bytes: &[u8]) -> (r: Result<Status<(usize, Connect)>, DecodeError>)
        ensures
            decoded_of(r) == dec_connect_vh(bytes@),
    {
        let (u0, name) = match parse_string(bytes) {
            Err(e) => { return Err(e); },
            Ok(Status::Partial(k)) => { return Ok(Status::Partial(k)); },
            Ok(Status::Complete((n, v))) => (n, v),
        };
        let rest = slice_subrange(bytes, u0, bytes.len());
        proof {
            assert(rest@ =~= bytes@.skip(u0 as int));
        }
        if rest.len() < 2 {
            return Ok(Status::Partial(2 - rest.len()));
        }
        let level: u8 = rest[0];
        let fl: u8 = rest[1];
        let rest2 = slice_subrange(rest, 2, rest.len());
        proof {
            assert(rest2@ =~= rest@.skip(2));
        }
        match parse_u16(rest2) {
            Err(e) => Err(e),
            Ok(Status::Partial(k)) => Ok(Status::Partial(k)),
            Ok(Status::Complete((u1, ka))) => {
                let h = Connect {
                    protocol_name: name,
                    protocol_level: level,
                    flags: Flags(fl),
                    keep_alive: ka,
                };
                Ok(Status::Complete((u0 + 2 + u1, h)))
            },
        }
    }

    /// The number of bytes this header occupies on the wire.
    pub fn encoded_len(&self) -> (r: usize)
        requires
            self@.sizes_ok(),
        ensures
            r == enc_connect_vh(self@).len(),
    {
        6 + self.protocol_name.len()
    }

    /// Encodes this header into `bytes` at offset `at`. The required size
    /// is computed up front; an undersized destination is reported before
    /// anything is written.
    pub fn to_bytes(&self, bytes: &mut Vec<u8>, at: usize) -> (r: Result<usize, EncodeError>)
        ensures
            match r {
                Ok(n) => self@.sizes_ok() && n == enc_connect_vh(self@).len() && at + n <= old(
                    bytes,
                )@.len() && final(bytes)@ == spliced(old(bytes)@, at as int, enc_connect_vh(self@)),
                Err(e) => final(bytes)@ == old(bytes)@ && (if !self@.sizes_ok() {
                    e == EncodeError::ValueTooBig
                } else {
                    e == EncodeError::OutOfSpace && old(bytes)@.len() < at + enc_connect_vh(
                        self@,
                    ).len()
                }),
            },
    {
        if self.protocol_name.len() > 65535 {
            return Err(EncodeError::ValueTooBig);
        }
        let need: usize = 6 + self.protocol_name.len();
        if bytes.len() < need || at > bytes.len() - need {
            return Err(EncodeError::OutOfSpace);
        }
        let ghost prev = bytes@;
        let o0: usize = match encode_string(self.protocol_name.as_slice(), bytes, at) {
            Ok(n) => at + n,
            Err(..) => { proof { assert(false); } return Err(EncodeError::OutOfSpace); },
        };
        let o1: usize = match write_u8(self.protocol_level, bytes, o0) {
            Ok(n) => o0 + n,
            Err(..) => { proof { assert(false); } return Err(EncodeError::OutOfSpace); },
        };
        let o2: usize = match write_u8(self.flags.0, bytes, o1) {
            Ok(n) => o1 + n,
            Err(..) => { proof { assert(false); } return Err(EncodeError::OutOfSpace); },
        };
        match encode_u16(self.keep_alive, bytes, o2) {
            Ok(..) => {
                proof {
                    assert(bytes@ =~= spliced(prev, at as int, enc_connect_vh(self@)));
                }
                Ok(need)
            },
            Err(..) => { proof { assert(false); } Err(EncodeError::OutOfSpace) },
        }
    }
}

/// A complete connect variable header uses at least six bytes, never more
/// than were given, and its value is well formed.
pub proof fn lemma_connect_vh_complete(s: Seq<u8>)
    requires
        dec_connect_vh(s) is Complete,
    ensures
        6 <= dec_connect_vh(s)->used <= s.len(),
        dec_connect_vh(s)->value.wf(),
        dec_connect_vh(s)->used == enc_connect_vh(dec_connect_vh(s)->value).len(),
{
}

/// A connect variable header always decodes back from its own encoding,
/// whatever bytes follow it on the wire.
pub proof fn lemma_connect_vh_round_trip(v: ConnectV, rest: Seq<u8>)
    requires
        v.wf(),
    ensures
        dec_connect_vh(enc_connect_vh(v) + rest) == (Decoded::Complete {
            used: enc_connect_vh(v).len() as int,
            value: v,
        }),
{
    let s = enc_connect_vh(v) + rest;
    let tail = seq![v.protocol_level, v.flags.0] + enc_u16(v.keep_alive) + rest;
    assert(s =~= enc_lp(v.protocol_name) + tail);
    lemma_lp_round_trip(v.protocol_name, tail);
    let u0: int = 2 + v.protocol_name.len() as int;
    assert(s.skip(u0) =~= tail);
    assert(tail.skip(2) =~= enc_u16(v.keep_alive) + rest);
    lemma_u16_round_trip(v.keep_alive, rest);
    assert(dec_connect_vh(s)->value =~= v) by {
        assert(dec_connect_vh(s)->value.protocol_name == v.protocol_name);
    }
}

/// On a strict prefix of a complete connect variable header the decoder
/// reports a deficit that never overshoots the complete length; on any
/// longer prefix it returns the very same complete result.
pub proof fn lemma_connect_vh_prefix(s: Seq<u8>, k: int)
    requires
        0 <= k <= s.len(),
        dec_connect_vh(s) is Complete,
    ensures
        k < dec_connect_vh(s)->used ==> (dec_connect_vh(s.subrange(0, k)) matches Decoded::Partial {
            need,
        } && 1 <= need && k + need <= dec_connect_vh(s)->used),
        k >= dec_connect_vh(s)->used ==> dec_connect_vh(s.subrange(0, k)) == dec_connect_vh(s),
{
    let t = s.subrange(0, k);
    let u0: int = dec_lp_string(s)->used;
    lemma_lp_string_prefix(s, k);
    if k >= u0 {
        assert(t.skip(u0) =~= s.skip(u0).subrange(0, k - u0));
        let r = s.skip(u0);
        let tr = t.skip(u0);
        if k - u0 >= 2 {
            assert(tr[0] == r[0] && tr[1] == r[1]);
            assert(tr.skip(2) =~= r.skip(2).subrange(0, k - u0 - 2));
            if k - u0 - 2 < 2 {
                assert(dec_u16(tr.skip(2)) == (Decoded::<u16>::Partial {
                    need: 2 - (k - u0 - 2),
                }));
            } else {
                assert(dec_u16(tr.skip(2)) == dec_u16(r.skip(2)));
            }
        }
    }
}

/// The acknowledgment-style variable header: just the packet identifier
/// the acknowledgment refers to.
#[derive(Clone, Copy, PartialEq, Eq, Structural, Debug)]
pub struct Suback {
    pub packet_identifier: u16,
}

impl View for Suback {
    type V = Suback;

    open spec fn view(&self) -> Suback {
        *self
    }
}

/// The wire encoding of an acknowledgment variable header.
pub open spec fn enc_suback(v: Suback) -> Seq<u8> {
    enc_u16(v.packet_identifier)
}

/// What decoding an acknowledgment variable header yields on any input.
pub open spec fn dec_suback(s: Seq<u8>) -> Decoded<Suback> {
    match dec_u16(s) {
        Decoded::Complete { used, value } => (Decoded::Complete {
            used,
            value: Suback { packet_identifier: value },
        }),
        Decoded::Partial { need } => (Decoded::Partial { need }),
        Decoded::Malformed { err } => (Decoded::Malformed { err }),
    }
}

impl Suback {
    /// Decodes an acknowledgment variable header from the front of
    /// `bytes`: fewer than two bytes is a partial result.
    pub fn from_bytes(bytes: &[u8]) -> (r: Result<Status<(usize, Suback)>, DecodeError>)
        ensures
            decoded_of(r) == dec_suback(bytes@),
    {
        if bytes.len() < 2 {
            return Ok(Status::Partial(2 - bytes.len()));
        }
        match parse_u16(bytes) {
            Err(e) => Err(e),
            Ok(Status::Partial(k)) => Ok(Status::Partial(k)),
            Ok(Status::Complete((n, v))) => Ok(
                Status::Complete((n, Suback { packet_identifier: v })),
            ),
        }
    }

    /// The packet identifier this acknowledgment refers to.
    pub fn packet_identifier(&self) -> (r: u16)
        ensures
            r == self.packet_identifier,
    {
        self.packet_identifier
    }

    /// The number of bytes this header occupies on the wire.
    pub fn encoded_len(&self) -> (r: usize)
        ensures
            r == enc_suback(*self).len(),
    {
        2
    }

    /// Encodes this header into `bytes` at offset `at`.
    pub fn to_bytes(&self, bytes: &mut Vec<u8>, at: usize) -> (r: Result<usize, EncodeError>)
        ensures
            match r {
                Ok(n) => n == enc_suback(*self).len() && at + n <= old(bytes)@.len() && final(bytes)@ == spliced(old(bytes)@, at as int, enc_suback(*self)),
                Err(e) => e == EncodeError::OutOfSpace && old(bytes)@.len() < at + 2 && final(bytes)@ == old(bytes)@,
            },
    {
        encode_u16(self.packet_identifier, bytes, at)
    }
}

/// An acknowledgment variable header always decodes back from its own
/// encoding, whatever bytes follow it on the wire.
pub proof fn lemma_suback_round_trip(v: Suback, rest: Seq<u8>)
    ensures
        dec_suback(enc_suback(v) + rest) == (Decoded::Complete { used: 2, value: v }),
{
    lemma_u16_round_trip(v.packet_identifier, rest);
}

/// The prefix discipline for the acknowledgment variable header.
pub proof fn lemma_suback_prefix(s: Seq<u8>, k: int)
    requires
        0 <= k <= s.len(),
        dec_suback(s) is Complete,
    ensures
        k < dec_suback(s)->used ==> (dec_suback(s.subrange(0, k)) matches Decoded::Partial { need }
            && 1 <= need && k + need <= dec_suback(s)->used),
        k >= dec_suback(s)->used ==> dec_suback(s.subrange(0, k)) == dec_suback(s),
{
    crate::codec::lemma_u16_prefix(s, k);
}

/// The variable header of a packet: one variant per packet type that
/// defines one.
#[derive(Clone, PartialEq, Eq, Debug)]
pub enum VariableHeader {
    Connect(Connect),
    Suback(Suback),
}

/// The mathematical value of a variable header.
pub enum VariableHeaderV {
    Connect(ConnectV),
    Suback(Suback),
}

impl View for VariableHeader {
    type V = VariableHeaderV;

    open spec fn view(&self) -> VariableHeaderV {
        match self {
            VariableHeader::Connect(c) => VariableHeaderV::Connect(c@),
            VariableHeader::Suback(sb) => VariableHeaderV::Suback(*sb),
        }
    }
}

/// Whether a packet type defines a variable header.
pub open spec fn has_variable_header(t: PacketType) -> bool {
    t == PacketType::Connect || t == PacketType::Suback
}

/// The wire encoding of a variable header.
pub open spec fn enc_variable_header(v: VariableHeaderV) -> Seq<u8> {
    match v {
        VariableHeaderV::Connect(c) => enc_connect_vh(c),
        VariableHeaderV::Suback(sb) => enc_suback(sb),
    }
}

/// The field lengths of a variable header fit their wire representation.
pub open spec fn vh_sizes_ok(v: VariableHeaderV) -> bool {
    match v {
        VariableHeaderV::Connect(c) => c.sizes_ok(),
        VariableHeaderV::Suback(..) => true,
    }
}

/// The variable header is well formed: sizes fit and strings are valid.
pub open spec fn vh_wf(v: VariableHeaderV) -> bool {
    match v {
        VariableHeaderV::Connect(c) => c.wf(),
        VariableHeaderV::Suback(..) => true,
    }
}

/// What decoding the variable header of a packet of type `t` yields.
/// Meaningful only for types that define one.
pub open spec fn dec_variable_header(t: PacketType, s: Seq<u8>) -> Decoded<VariableHeaderV>
    recommends
        has_variable_header(t),
{
    if t == PacketType::Connect {
        match dec_connect_vh(s) {
            Decoded::Complete { used, value } => (Decoded::Complete {
                used,
                value: VariableHeaderV::Connect(value),
            }),
            Decoded::Partial { need } => (Decoded::Partial { need }),
            Decoded::Malformed { err } => (Decoded::Malformed { err }),
        }
    } else {
        match dec_suback(s) {
            Decoded::Complete { used, value } => (Decoded::Complete {
                used,
                value: VariableHeaderV::Suback(value),
            }),
            Decoded::Partial { need } => (Decoded::Partial { need }),
            Decoded::Malformed { err } => (Decoded::Malformed { err }),
        }
    }
}

impl VariableHeader {
    /// Decodes the variable header for an already-decoded packet type from
    /// the buffer slice immediately following the fixed header. Returns
    /// `None` for types with no defined variable header: a typed absence,
    /// not an error.
    pub fn from_bytes(packet_type: PacketType, bytes: &[u8]) -> (r: Option<
        Result<Status<(usize, VariableHeader)>, DecodeError>,
    >)
        ensures
            match r {
                None => !has_variable_header(packet_type),
                Some(res) => has_variable_header(packet_type) && decoded_of(res)
                    == dec_variable_header(packet_type, bytes@),
            },
    {
        match packet_type {
            PacketType::Connect => Some(
                match Connect::from_bytes(bytes) {
                    Err(e) => Err(e),
                    Ok(Status::Partial(k)) => Ok(Status::Partial(k)),
                    Ok(Status::Complete((n, c))) => Ok(
                        Status::Complete((n, VariableHeader::Connect(c))),
                    ),
                },
            ),
            PacketType::Suback => Some(
                match Suback::from_bytes(bytes) {
                    Err(e) => Err(e),
                    Ok(Status::Partial(k)) => Ok(Status::Partial(k)),
                    Ok(Status::Complete((n, sb))) => Ok(
                        Status::Complete((n, VariableHeader::Suback(sb))),
                    ),
                },
            ),
            _ => None,
        }
    }

    /// The number of bytes this header occupies on the wire.
    pub fn encoded_len(&self) -> (r: usize)
        requires
            vh_sizes_ok(self@),
        ensures
            r == enc_variable_header(self@).len(),
    {
        match self {
            VariableHeader::Connect(c) => c.encoded_len(),
            VariableHeader::Suback(sb) => sb.encoded_len(),
        }
    }

    /// Encodes this header into `bytes` at offset `at`.
    pub fn to_bytes(&self, bytes: &mut Vec<u8>, at: usize) -> (r: Result<usize, EncodeError>)
        ensures
            match r {
                Ok(n) => vh_sizes_ok(self@) && n == enc_variable_header(self@).len() && at + n
                    <= old(bytes)@.len() && final(bytes)@ == spliced(
                    old(bytes)@,
                    at as int,
                    enc_variable_header(self@),
                ),
                Err(e) => final(bytes)@ == old(bytes)@ && (if !vh_sizes_ok(self@) {
                    e == EncodeError::ValueTooBig
                } else {
                    e == EncodeError::OutOfSpace && old(bytes)@.len() < at + enc_variable_header(
                        self@,
                    ).len()
                }),
            },
    {
        match self {
            VariableHeader::Connect(c) => c.to_bytes(bytes, at),
            VariableHeader::Suback(sb) => sb.to_bytes(bytes, at),
        }
    }
}

/// A partial variable-header decode always asks for at least one more
/// byte.
pub proof fn lemma_variable_header_partial_positive(t: PacketType, s: Seq<u8>)
    requires
        has_variable_header(t),
        dec_variable_header(t, s) is Partial,
    ensures
        dec_variable_header(t, s)->need >= 1,
{
    if t == PacketType::Connect {
        if dec_lp_string(s) is Partial {
            crate::codec::lemma_lp_string_partial_positive(s);
        }
    }
}

/// A complete variable header uses at least two bytes, never more than
/// were given; its value is well formed and of the variant the packet
/// type selects.
pub proof fn lemma_variable_header_complete(t: PacketType, s: Seq<u8>)
    requires
        has_variable_header(t),
        dec_variable_header(t, s) is Complete,
    ensures
        2 <= dec_variable_header(t, s)->used <= s.len(),
        vh_wf(dec_variable_header(t, s)->value),
        dec_variable_header(t, s)->used == enc_variable_header(
            dec_variable_header(t, s)->value,
        ).len(),
        t == PacketType::Connect ==> dec_variable_header(t, s)->value is Connect,
        t == PacketType::Suback ==> dec_variable_header(t, s)->value is Suback,
{
    if t == PacketType::Connect {
        lemma_connect_vh_complete(s);
    }
}

/// A variable header always decodes back from its own encoding under the
/// packet type that selects its variant, whatever bytes follow it.
pub proof fn lemma_variable_header_round_trip(v: VariableHeaderV, rest: Seq<u8>)
    requires
        vh_wf(v),
    ensures
        (v is Connect ==> dec_variable_header(PacketType::Connect, enc_variable_header(v) + rest)
            == (Decoded::Complete { used: enc_variable_header(v).len() as int, value: v })),
        (v is Suback ==> dec_variable_header(PacketType::Suback, enc_variable_header(v) + rest)
            == (Decoded::Complete { used: enc_variable_header(v).len() as int, value: v })),
{
    match v {
        VariableHeaderV::Connect(c) => {
            lemma_connect_vh_round_trip(c, rest);
        },
        VariableHeaderV::Suback(sb) => {
            lemma_suback_round_trip(sb, rest);
        },
    }
}

/// The prefix discipline for the variable header of any packet type that
/// defines one.
pub proof fn lemma_variable_header_prefix(t: PacketType, s: Seq<u8>, k: int)
    requires
        has_variable_header(t),
        0 <= k <= s.len(),
        dec_variable_header(t, s) is Complete,
    ensures
        k < dec_variable_header(t, s)->used ==> (dec_variable_header(t, s.subrange(0, k))
            matches Decoded::Partial { need } && 1 <= need && k + need <= dec_variable_header(
            t,
            s,
        )->used),
        k >= dec_variable_header(t, s)->used ==> dec_variable_header(t, s.subrange(0, k))
            == dec_variable_header(t, s),
{
    if t == PacketType::Connect {
        lemma_connect_vh_prefix(s, k);
    } else {
        lemma_suback_prefix(s, k);
    }
}

} // verus!
