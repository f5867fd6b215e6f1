//! The top-level packet: fixed header, then the variable header if the
//! packet type defines one, then the payload, whose length is derived as
//! the remaining length minus what the variable header consumed — it is
//! never independently encoded.

use vstd::prelude::*;
use vstd::slice::{slice_subrange, slice_to_vec};

use crate::codec::spliced;
use crate::error::{DecodeError, EncodeError};
use crate::fixed_header::{
    dec_fixed_header, enc_fixed_header, FixedHeader, PacketType, MAX_REMAINING_LENGTH,
};
use crate::payload;
use crate::payload::{dec_connect_payload, enc_payload, payload_sizes_ok, Payload, PayloadV};
use crate::status::{decoded_of, Decoded, Status};
use crate::variable_header;
use crate::variable_header::{
    dec_variable_header, enc_variable_header, has_variable_header, vh_sizes_ok, vh_wf,
    lemma_variable_header_complete, VariableHeader, VariableHeaderV,
};

verus! {

/// One packet of the wire protocol.
#[derive(Clone, PartialEq, Eq, Debug)]
pub struct Packet {
    pub fixed_header: FixedHeader,
    pub variable_header: Option<VariableHeader>,
    pub payload: Option<Payload>,
}

/// The mathematical value of a packet.
pub struct PacketV {
    pub fixed_header: FixedHeader,
    pub variable_header: Option<VariableHeaderV>,
    pub payload: Option<PayloadV>,
}

impl View for Packet {
    type V = PacketV;

    open spec fn view(&self) -> PacketV {
        PacketV {
            fixed_header: self.fixed_header,
            variable_header: match self.variable_header {
                Some(h) => Some(h@),
                None => None,
            },
            payload: match self.payload {
                Some(p) => Some(p@),
                None => None,
            },
        }
    }
}

/// The wire bytes of an absent or present variable header.
pub open spec fn enc_opt_vh(v: Option<VariableHeaderV>) -> Seq<u8> {
    match v {
        Some(h) => enc_variable_header(h),
        None => Seq::empty(),
    }
}

/// The wire bytes of an absent or present payload.
pub open spec fn enc_opt_payload(v: Option<PayloadV>) -> Seq<u8> {
    match v {
        Some(p) => enc_payload(p),
        None => Seq::empty(),
    }
}

/// The wire encoding of a packet: fixed header, variable header if
/// present, payload if present.
pub open spec fn enc_packet(v: PacketV) -> Seq<u8> {
    enc_fixed_header(v.fixed_header) + enc_opt_vh(v.variable_header) + enc_opt_payload(v.payload)
}

/// What decoding the body inside the payload window yields, shaped by the
/// already-decoded variable header: a structured connect payload after a
/// connect variable header, the raw window otherwise.
pub open spec fn dec_body(vh: VariableHeaderV, window: Seq<u8>) -> Decoded<PayloadV> {
    match vh {
        VariableHeaderV::Connect(c) => match dec_connect_payload(c.flags, window) {
            Decoded::Complete { used, value } => (Decoded::Complete {
                used,
                value: PayloadV::Connect(value),
            }),
            Decoded::Partial { need } => (Decoded::Partial { need }),
            Decoded::Malformed { err } => (Decoded::Malformed { err }),
        },
        VariableHeaderV::Suback(..) => (Decoded::Complete {
            used: window.len() as int,
            value: PayloadV::Bytes(window),
        }),
    }
}

/// What decoding a whole packet yields on any input. After the fixed
/// header, the remaining length bounds everything that follows: a window
/// with fewer than `remaining_length` bytes available is partial, and the
/// deficit is exactly the window shortfall. Only a fully present window
/// is examined further: the variable header and then exactly
/// `remaining_length - variable_header_consumed` bytes of payload are
/// decoded inside it, and a variable header or payload that does not fit
/// its window is malformed, never partial.
pub open spec fn dec_packet(s: Seq<u8>) -> Decoded<PacketV> {
    match dec_fixed_header(s) {
        Decoded::Complete { used: f, value: h } => {
            let rem = h.remaining_length as int;
            if s.len() - f < rem {
                (Decoded::Partial { need: rem - (s.len() - f) })
            } else {
                let window = s.subrange(f, f + rem);
                if has_variable_header(h.packet_type) {
                    match dec_variable_header(h.packet_type, window) {
                        Decoded::Complete { used: hv, value: vh } => {
                            let plen = rem - hv;
                            match dec_body(vh, s.subrange(f + hv, f + rem)) {
                                Decoded::Complete { used: pu, value: body } => if pu == plen {
                                    (Decoded::Complete {
                                        used: f + rem,
                                        value: PacketV {
                                            fixed_header: h,
                                            variable_header: Some(vh),
                                            payload: Some(body),
                                        },
                                    })
                                } else {
                                    (Decoded::Malformed { err: DecodeError::PayloadLength })
                                },
                                Decoded::Partial { .. } => (Decoded::Malformed {
                                    err: DecodeError::PayloadLength,
                                }),
                                Decoded::Malformed { err } => (Decoded::Malformed { err }),
                            }
                        },
                        Decoded::Partial { .. } => (Decoded::Malformed {
                            err: DecodeError::PayloadLength,
                        }),
                        Decoded::Malformed { err } => (Decoded::Malformed { err }),
                    }
                } else {
                    (Decoded::Complete {
                        used: f + rem,
                        value: PacketV {
                            fixed_header: h,
                            variable_header: None,
                            payload: Some(PayloadV::Bytes(window)),
                        },
                    })
                }
            }
        },
        Decoded::Partial { need } => (Decoded::Partial { need }),
        Decoded::Malformed { err } => (Decoded::Malformed { err }),
    }
}

/// Every field of the packet fits its wire representation.
pub open spec fn packet_enc_ok(v: PacketV) -> bool {
    &&& v.fixed_header.wf()
    &&& (v.variable_header matches Some(h) ==> vh_sizes_ok(h))
    &&& (v.payload matches Some(p) ==> payload_sizes_ok(p))
}

/// A well-formed packet: the shapes of variable header and payload match
/// the packet type, string fields are valid, optional payload fields are
/// present exactly as the connect flags say, and the remaining length is
/// exactly the byte count of variable header plus payload.
pub open spec fn packet_wf(v: PacketV) -> bool {
    &&& v.fixed_header.wf()
    &&& v.fixed_header.remaining_length == enc_opt_vh(v.variable_header).len() + enc_opt_payload(
        v.payload,
    ).len()
    &&& if v.fixed_header.packet_type == PacketType::Connect {
        &&& v.variable_header matches Some(VariableHeaderV::Connect(c)) && c.wf()
        &&& v.payload matches Some(PayloadV::Connect(p)) && p.wf()
        &&& (v.variable_header matches Some(VariableHeaderV::Connect(c)) && v.payload matches Some(
            PayloadV::Connect(p),
        ) ==> p.matches_flags(c.flags))
    } else if v.fixed_header.packet_type == PacketType::Suback {
        &&& v.variable_header matches Some(VariableHeaderV::Suback(..))
        &&& v.payload matches Some(PayloadV::Bytes(..))
    } else {
        &&& v.variable_header is None
        &&& v.payload matches Some(PayloadV::Bytes(..))
    }
}

impl Packet {
    /// Builds a connect packet from a connect variable header and a
    /// connect payload; the remaining length is computed from the two.
    /// Fails when a field does not fit its wire representation or when
    /// the combined length exceeds the remaining-length maximum.
    pub fn connect(
        variable_header: variable_header::Connect,
        payload: payload::Connect,
    ) -> (r: Result<Packet, EncodeError>)
        ensures
            match r {
                Ok(p) => variable_header@.sizes_ok() && payload@.sizes_ok()
                    && enc_connect_vh_len(variable_header@) + enc_cp_len(payload@)
                    <= MAX_REMAINING_LENGTH && p@ == (PacketV {
                    fixed_header: FixedHeader {
                        packet_type: PacketType::Connect,
                        flags: 0,
                        remaining_length: (enc_connect_vh_len(variable_header@) + enc_cp_len(
                            payload@,
                        )) as u32,
                    },
                    variable_header: Some(VariableHeaderV::Connect(variable_header@)),
                    payload: Some(PayloadV::Connect(payload@)),
                }),
                Err(e) => e == EncodeError::ValueTooBig && (!variable_header@.sizes_ok()
                    || !payload@.sizes_ok() || enc_connect_vh_len(variable_header@) + enc_cp_len(
                    payload@,
                ) > MAX_REMAINING_LENGTH),
            },
    {
        if variable_header.protocol_name.len() > 65535 {
            return Err(EncodeError::ValueTooBig);
        }
        if !payload.sizes_ok_exec() {
            return Err(EncodeError::ValueTooBig);
        }
        let len: usize = variable_header.encoded_len() + payload.encoded_len();
        if len > MAX_REMAINING_LENGTH as usize {
            return Err(EncodeError::ValueTooBig);
        }
        Ok(
            Packet {
                fixed_header: FixedHeader::new(PacketType::Connect, 0, len as u32),
                variable_header: Some(VariableHeader::Connect(variable_header)),
                payload: Some(Payload::Connect(payload)),
            },
        )
    }

    /// The fixed header of this packet.
    pub fn fixed_header(&self) -> (r: &FixedHeader)
        ensures
            *r == self.fixed_header,
    {
        &self.fixed_header
    }

    /// Decodes one packet from the front of `bytes`. On `Complete` the
    /// consumed count is the fixed header's bytes plus its remaining
    /// length; the caller may advance past that many bytes for the next
    /// packet. On `Partial` the caller must supply at least that many
    /// more bytes and retry from the start of the same packet: once the
    /// fixed header is readable, the deficit is exactly how far the
    /// buffer falls short of the declared remaining length.
    pub fn from_bytes(bytes: &[u8]) -> (r: Result<Status<(usize, Packet)>, DecodeError>)
        ensures
            decoded_of(r) == dec_packet(bytes@),
    {
        let (f, fh) = match FixedHeader::from_bytes(bytes) {
            Err(e) => { return Err(e); },
            Ok(Status::Partial(k)) => { return Ok(Status::Partial(k)); },
            Ok(Status::Complete((n, h))) => (n, h),
        };
        proof {
            crate::fixed_header::lemma_fixed_header_complete(bytes@);
        }
        let rem: usize = fh.len() as usize;
        let avail: usize = bytes.len() - f;
        if avail < rem {
            return Ok(Status::Partial(rem - avail));
        }
        let window = slice_subrange(bytes, f, f + rem);
        proof {
            assert(window@ =~= bytes@.subrange(f as int, f + rem as int));
        }
        match VariableHeader::from_bytes(fh.packet_type(), window) {
            Some(res) => {
                let (hv, vh) = match res {
                    Err(e) => { return Err(e); },
                    Ok(Status::Partial(..)) => { return Err(DecodeError::PayloadLength); },
                    Ok(Status::Complete((n, v))) => (n, v),
                };
                proof {
                    lemma_variable_header_complete(fh.packet_type, window@);
                }
                let plen: usize = rem - hv;
                let body_window = slice_subrange(bytes, f + hv, f + rem);
                proof {
                    assert(body_window@ =~= bytes@.subrange(f + hv as int, f + rem as int));
                }
                let body = match &vh {
                    VariableHeader::Connect(cvh) => {
                        let flags = cvh.flags;
                        match payload::Connect::from_bytes(flags, body_window) {
                            Err(e) => { return Err(e); },
                            Ok(Status::Partial(..)) => {
                                return Err(DecodeError::PayloadLength);
                            },
                            Ok(Status::Complete((pu, c))) => {
                                if pu != plen {
                                    return Err(DecodeError::PayloadLength);
                                }
                                Payload::Connect(c)
                            },
                        }
                    },
                    VariableHeader::Suback(..) => Payload::Bytes(slice_to_vec(body_window)),
                };
                Ok(
                    Status::Complete(
                        (
                            f + rem,
                            Packet {
                                fixed_header: fh,
                                variable_header: Some(vh),
                                payload: Some(body),
                            },
                        ),
                    ),
                )
            },
            None => Ok(
                Status::Complete(
                    (
                        f + rem,
                        Packet {
                            fixed_header: fh,
                            variable_header: None,
                            payload: Some(Payload::Bytes(slice_to_vec(window))),
                        },
                    ),
                ),
            ),
        }
    }

    /// The number of bytes this packet occupies on the wire.
    pub fn encoded_len(&self) -> (r: usize)
        requires
            packet_enc_ok(self@),
            enc_packet(self@).len() <= usize::MAX,
        ensures
            r == enc_packet(self@).len(),
    {
        let mut n: usize = self.fixed_header.encoded_len();
        n = match &self.variable_header {
            Some(h) => n + h.encoded_len(),
            None => n,
        };
        n = match &self.payload {
            Some(p) => n + p.encoded_len(),
            None => n,
        };
        n
    }

    /// Encodes this packet into the front of `bytes`: fixed header, then
    /// variable header if present, then payload if present. The capacity
    /// is validated against the computed total length before writing
    /// begins; an undersized destination is an error, never a partial
    /// result.
    #[verifier::rlimit(100)]
    #[verifier::spinoff_prover]
    pub fn to_bytes(&self, bytes: &mut Vec<u8>) -> (r: Result<usize, EncodeError>)
        ensures
            match r {
                Ok(n) => packet_enc_ok(self@) && n == enc_packet(self@).len() && n <= old(
                    bytes,
                )@.len() && final(bytes)@ == spliced(old(bytes)@, 0, enc_packet(self@)),
                Err(e) => final(bytes)@ == old(bytes)@ && (if !packet_enc_ok(self@) {
                    e == EncodeError::ValueTooBig
                } else {
                    e == EncodeError::OutOfSpace && old(bytes)@.len() < enc_packet(self@).len()
                }),
            },
    {
        if !self.enc_ok_exec() {
            return Err(EncodeError::ValueTooBig);
        }
        let fl: usize = self.fixed_header.encoded_len();
        let vl: usize = match &self.variable_header {
            Some(h) => h.encoded_len(),
            None => 0,
        };
        let pl: usize = match &self.payload {
            Some(p) => p.encoded_len(),
            None => 0,
        };
        if pl > bytes.len() || vl > bytes.len() - pl || fl > bytes.len() - pl - vl {
            return Err(EncodeError::OutOfSpace);
        }
        let ghost prev = bytes@;
        match self.fixed_header.to_bytes(bytes, 0) {
            Ok(..) => {},
            Err(..) => { proof { assert(false); } return Err(EncodeError::OutOfSpace); },
        }
        let ghost b0 = bytes@;
        match &self.variable_header {
            Some(h) => match h.to_bytes(bytes, fl) {
                Ok(..) => {},
                Err(..) => { proof { assert(false); } return Err(EncodeError::OutOfSpace); },
            },
            None => {},
        }
        proof {
            assert(bytes@ =~= spliced(
                prev,
                0,
                enc_fixed_header(self@.fixed_header) + enc_opt_vh(self@.variable_header),
            ));
        }
        match &self.payload {
            Some(p) => match p.to_bytes(bytes, fl + vl) {
                Ok(..) => {},
                Err(..) => { proof { assert(false); } return Err(EncodeError::OutOfSpace); },
            },
            None => {},
        }
        proof {
            assert(bytes@ =~= spliced(prev, 0, enc_packet(self@)));
        }
        Ok(fl + vl + pl)
    }

    /// Whether every field of this packet fits its wire representation.
    fn enc_ok_exec(&self) -> (r: bool)
        ensures
            r == packet_enc_ok(self@),
    {
        if self.fixed_header.flags >= 16 {
            return false;
        }
        if self.fixed_header.remaining_length > MAX_REMAINING_LENGTH {
            return false;
        }
        match &self.variable_header {
            Some(VariableHeader::Connect(c)) => {
                if c.protocol_name.len() > 65535 {
                    return false;
                }
            },
            Some(VariableHeader::Suback(..)) => {},
            None => {},
        }
        match &self.payload {
            Some(Payload::Connect(c)) => {
                if !c.sizes_ok_exec() {
                    return false;
                }
            },
            Some(Payload::Bytes(..)) => {},
            None => {},
        }
        true
    }
}

/// The wire length of a connect variable header.
pub open spec fn enc_connect_vh_len(v: variable_header::ConnectV) -> int {
    crate::variable_header::enc_connect_vh(v).len() as int
}

/// The wire length of a connect payload.
pub open spec fn enc_cp_len(v: payload::ConnectV) -> int {
    crate::payload::enc_connect_payload(v).len() as int
}

} // verus!
