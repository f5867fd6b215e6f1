//! The two wire-format laws of the codec, stated over the specification
//! functions that every executable decoder and encoder is proved against:
//! encoding then decoding returns the same packet, and decoding a prefix
//! of a complete packet is partial with an honest deficit.

use vstd::prelude::*;

use crate::fixed_header::{
    dec_fixed_header, enc_fixed_header, lemma_fixed_header_complete,
    lemma_fixed_header_partial_positive, lemma_fixed_header_prefix,
    lemma_fixed_header_round_trip, PacketType,
};
use crate::packet::{
    dec_packet, enc_opt_payload, enc_opt_vh, enc_packet, packet_wf, PacketV,
};
use crate::payload::{
    enc_connect_payload, lemma_connect_payload_complete, lemma_connect_payload_round_trip,
};
use crate::status::Decoded;
use crate::variable_header::{
    dec_variable_header, has_variable_header, lemma_variable_header_complete,
    lemma_variable_header_round_trip, VariableHeaderV,
};

verus! {

/// Round-trip: a well-formed packet of any variant decodes back from its
/// own encoding, consuming exactly the bytes the encoder produced.
#[verifier::rlimit(100)]
#[verifier::spinoff_prover]
pub proof fn lemma_packet_round_trip(p: PacketV)
    requires
        packet_wf(p),
    ensures
        dec_packet(enc_packet(p)) == (Decoded::Complete {
            used: enc_packet(p).len() as int,
            value: p,
        }),
{
    let s = enc_packet(p);
    let hb = enc_fixed_header(p.fixed_header);
    let vb = enc_opt_vh(p.variable_header);
    let pb = enc_opt_payload(p.payload);
    let f: int = hb.len() as int;
    assert(s =~= hb + (vb + pb));
    lemma_fixed_header_round_trip(p.fixed_header, vb + pb);
    assert(s.skip(f) =~= vb + pb);
    let t = p.fixed_header.packet_type;
    if t == PacketType::Connect {
        let c = p.variable_header->0->Connect_0;
        let pp = p.payload->0->Connect_0;
        lemma_variable_header_round_trip(VariableHeaderV::Connect(c), pb);
        let hv: int = vb.len() as int;
        let plen: int = pb.len() as int;
        assert(s.subrange(f + hv, f + hv + plen) =~= pb);
        assert(enc_connect_payload(pp) + Seq::<u8>::empty() =~= pb);
        lemma_connect_payload_round_trip(pp, c.flags, Seq::<u8>::empty());
    } else if t == PacketType::Suback {
        let sb = p.variable_header->0->Suback_0;
        lemma_variable_header_round_trip(VariableHeaderV::Suback(sb), pb);
        let hv: int = vb.len() as int;
        let plen: int = pb.len() as int;
        assert(s.subrange(f + hv, f + hv + plen) =~= pb);
        let b = p.payload->0->Bytes_0;
        assert(pb == b);
    } else {
        assert(vb =~= Seq::<u8>::empty());
        let rem: int = p.fixed_header.remaining_length as int;
        assert(s.subrange(f, f + rem) =~= pb);
        let b = p.payload->0->Bytes_0;
        assert(pb == b);
    }
}

/// Partial monotonicity: on any strict prefix of a complete packet the
/// decoder reports a deficit that never overshoots the complete length,
/// and on the complete length, or more, it returns the very same result.
#[verifier::rlimit(100)]
#[verifier::spinoff_prover]
pub proof fn lemma_partial_monotonic(s: Seq<u8>, k: int)
    requires
        dec_packet(s) is Complete,
        0 <= k <= s.len(),
    ensures
        k < dec_packet(s)->used ==> (dec_packet(s.subrange(0, k)) matches Decoded::Partial { need }
            && 1 <= need && k + need <= dec_packet(s)->used),
        k >= dec_packet(s)->used ==> dec_packet(s.subrange(0, k)) == dec_packet(s),
{
    let t = s.subrange(0, k);
    let f: int = dec_fixed_header(s)->used;
    let h = dec_fixed_header(s)->value;
    let rem: int = h.remaining_length as int;
    lemma_fixed_header_complete(s);
    lemma_fixed_header_prefix(s, k);
    if k >= f + rem {
        assert(t.subrange(f, f + rem) =~= s.subrange(f, f + rem));
        if has_variable_header(h.packet_type) {
            lemma_variable_header_complete(h.packet_type, s.subrange(f, f + rem));
            let hv: int = dec_variable_header(h.packet_type, s.subrange(f, f + rem))->used;
            assert(t.subrange(f + hv, f + rem) =~= s.subrange(f + hv, f + rem));
        }
    }
}

/// Symmetry of decode and encode: a decoded packet is itself well
/// formed, so it can be re-encoded and the round-trip law applies to it.
#[verifier::rlimit(100)]
#[verifier::spinoff_prover]
pub proof fn lemma_decoded_wf(s: Seq<u8>)
    requires
        dec_packet(s) is Complete,
    ensures
        packet_wf(dec_packet(s)->value),
{
    let f: int = dec_fixed_header(s)->used;
    let h = dec_fixed_header(s)->value;
    let rem: int = h.remaining_length as int;
    lemma_fixed_header_complete(s);
    if has_variable_header(h.packet_type) {
        let window = s.subrange(f, f + rem);
        lemma_variable_header_complete(h.packet_type, window);
        let vh = dec_variable_header(h.packet_type, window)->value;
        let hv: int = dec_variable_header(h.packet_type, window)->used;
        match vh {
            VariableHeaderV::Connect(c) => {
                lemma_connect_payload_complete(c.flags, s.subrange(f + hv, f + rem));
            },
            VariableHeaderV::Suback(..) => {},
        }
    }
}

/// No decoder of this crate ever returns a zero deficit: a partial
/// outcome always asks for at least one more byte before a retry.
pub proof fn lemma_partial_positive(s: Seq<u8>)
    requires
        dec_packet(s) is Partial,
    ensures
        dec_packet(s)->need >= 1,
{
    if dec_fixed_header(s) is Partial {
        lemma_fixed_header_partial_positive(s);
    }
}

} // verus!
