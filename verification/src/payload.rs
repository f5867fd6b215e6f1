//! The payload: a tagged union keyed by packet type, with a raw-bytes
//! fallback for types without a structured decoder. The connect payload
//! reads, strictly in order, the client identifier and then — each gated
//! by its connect-flags bit — the will topic and message, the username,
//! and the password. An absent optional field occupies zero bytes.

use vstd::prelude::*;
use vstd::slice::{slice_subrange, slice_to_vec};
use vstd::utf8::valid_utf8;

use crate::codec::{
    dec_lp_bytes, dec_lp_string, enc_lp, encode_bytes, encode_string, lemma_lp_bytes_prefix,
    lemma_lp_round_trip, lemma_lp_string_prefix, parse_bytes, parse_string, spliced,
};
use crate::error::{DecodeError, EncodeError};
use crate::status::{decoded_of, Decoded, Status};
use crate::variable_header::Flags;

verus! {

/// The will of a connect payload: the topic to publish to and the message
/// to publish if the session ends abnormally.
#[derive(Clone, PartialEq, Eq, Debug)]
pub struct Will {
    pub topic: Vec<u8>,
    pub message: Vec<u8>,
}

/// The mathematical value of a will.
pub struct WillV {
    pub topic: Seq<u8>,
    pub message: Seq<u8>,
}

impl View for Will {
    type V = WillV;

    open spec fn view(&self) -> WillV {
        WillV { topic: self.topic@, message: self.message@ }
    }
}

impl WillV {
    /// Both fields fit their length prefixes.
    pub open spec fn sizes_ok(self) -> bool {
        self.topic.len() <= 65535 && self.message.len() <= 65535
    }

    /// The fields fit the wire and the topic is a valid string.
    pub open spec fn wf(self) -> bool {
        self.sizes_ok() && valid_utf8(self.topic)
    }
}

/// The wire encoding of a will: the topic as a length-prefixed string,
/// then the message as a length-prefixed byte string.
pub open spec fn enc_will(w: WillV) -> Seq<u8> {
    enc_lp(w.topic) + enc_lp(w.message)
}

/// What decoding a will yields on any input.
pub open spec fn dec_will(s: Seq<u8>) -> Decoded<WillV> {
    match dec_lp_string(s) {
        Decoded::Complete { used: u0, value: topic } => match dec_lp_bytes(s.skip(u0)) {
            Decoded::Complete { used: u1, value: message } => (Decoded::Complete {
                used: u0 + u1,
                value: WillV { topic, message },
            }),
            Decoded::Partial { need } => (Decoded::Partial { need }),
            Decoded::Malformed { err } => (Decoded::Malformed { err }),
        },
        Decoded::Partial { need } => (Decoded::Partial { need }),
        Decoded::Malformed { err } => (Decoded::Malformed { err }),
    }
}

impl Will {
    /// Builds a will from its topic and message.
    pub fn new(topic: Vec<u8>, message: Vec<u8>) -> (r: Will)
        ensures
            r@ == (WillV { topic: topic@, message: message@ }),
    {
        Will { topic, message }
    }

    /// Decodes a will from the front of `bytes`.
    pub fn from_bytes(bytes: &[u8]) -> (r: Result<Status<(usize, Will)>, DecodeError>)
        ensures
            decoded_of(r) == dec_will(bytes@),
    {
        let (u0, topic) = match parse_string(bytes) {
            Err(e) => { return Err(e); },
            Ok(Status::Partial(k)) => { return Ok(Status::Partial(k)); },
            Ok(Status::Complete((n, v))) => (n, v),
        };
        let rest = slice_subrange(bytes, u0, bytes.len());
        proof {
            assert(rest@ =~= bytes@.skip(u0 as int));
        }
        match parse_bytes(rest) {
            Err(e) => Err(e),
            Ok(Status::Partial(k)) => Ok(Status::Partial(k)),
            Ok(Status::Complete((u1, message))) => Ok(
                Status::Complete((u0 + u1, Will { topic, message })),
            ),
        }
    }

    /// The number of bytes this will occupies on the wire.
    pub fn encoded_len(&self) -> (r: usize)
        requires
            self@.sizes_ok(),
        ensures
            r == enc_will(self@).len(),
    {
        4 + self.topic.len() + self.message.len()
    }

    /// Encodes this will into `bytes` at offset `at`. The required size
    /// is computed up front; an undersized destination is reported before
    /// anything is written.
    pub fn to_bytes(&self, bytes: &mut Vec<u8>, at: usize) -> (r: Result<usize, EncodeError>)
        ensures
            match r {
                Ok(n) => self@.sizes_ok() && n == enc_will(self@).len() && at + n <= old(
                    bytes,
                )@.len() && final(bytes)@ == spliced(old(bytes)@, at as int, enc_will(self@)),
                Err(e) => final(bytes)@ == old(bytes)@ && (if !self@.sizes_ok() {
                    e == EncodeError::ValueTooBig
                } else {
                    e == EncodeError::OutOfSpace && old(bytes)@.len() < at + enc_will(self@).len()
                }),
            },
    {
        if self.topic.len() > 65535 || self.message.len() > 65535 {
            return Err(EncodeError::ValueTooBig);
        }
        let need: usize = 4 + self.topic.len() + self.message.len();
        if bytes.len() < need || at > bytes.len() - need {
            return Err(EncodeError::OutOfSpace);
        }
        let ghost prev = bytes@;
        let o0: usize = match encode_string(self.topic.as_slice(), bytes, at) {
            Ok(n) => at + n,
            Err(..) => { proof { assert(false); } return Err(EncodeError::OutOfSpace); },
        };
        match encode_bytes(self.message.as_slice(), bytes, o0) {
            Ok(..) => {
                proof {
                    assert(bytes@ =~= spliced(prev, at as int, enc_will(self@)));
                }
                Ok(need)
            },
            Err(..) => { proof { assert(false); } Err(EncodeError::OutOfSpace) },
        }
    }
}

/// A complete will uses at least four bytes, never more than were given,
/// and its value is well formed.
pub proof fn lemma_will_complete(s: Seq<u8>)
    requires
        dec_will(s) is Complete,
    ensures
        4 <= dec_will(s)->used <= s.len(),
        dec_will(s)->value.wf(),
        dec_will(s)->used == enc_will(dec_will(s)->value).len(),
{
}

/// A will always decodes back from its own encoding, whatever bytes
/// follow it on the wire.
#[verifier::rlimit(100)]
#[verifier::spinoff_prover]
pub proof fn lemma_will_round_trip(w: WillV, rest: Seq<u8>)
    requires
        w.wf(),
    ensures
        dec_will(enc_will(w) + rest) == (Decoded::Complete {
            used: enc_will(w).len() as int,
            value: w,
        }),
{
    let s = enc_will(w) + rest;
    let tail = enc_lp(w.message) + rest;
    assert(s =~= enc_lp(w.topic) + tail);
    lemma_lp_round_trip(w.topic, tail);
    let u0: int = 2 + w.topic.len() as int;
    assert(s.skip(u0) =~= tail);
    lemma_lp_round_trip(w.message, rest);
    assert(dec_will(s)->value =~= w);
}

/// On a strict prefix of a complete will the decoder reports a deficit
/// that never overshoots the complete length; on any longer prefix it
/// returns the very same complete result.
pub proof fn lemma_will_prefix(s: Seq<u8>, k: int)
    requires
        0 <= k <= s.len(),
        dec_will(s) is Complete,
    ensures
        k < dec_will(s)->used ==> (dec_will(s.subrange(0, k)) matches Decoded::Partial { need }
            && 1 <= need && k + need <= dec_will(s)->used),
        k >= dec_will(s)->used ==> dec_will(s.subrange(0, k)) == dec_will(s),
{
    let t = s.subrange(0, k);
    let u0: int = dec_lp_string(s)->used;
    lemma_lp_string_prefix(s, k);
    if k >= u0 {
        assert(t.skip(u0) =~= s.skip(u0).subrange(0, k - u0));
        lemma_lp_bytes_prefix(s.skip(u0), k - u0);
    }
}

/// The connect payload: the client identifier, then the optional fields
/// in wire order, each present exactly when its connect-flags bit is set.
#[derive(Clone, PartialEq, Eq, Debug)]
pub struct Connect {
    pub client_id: Vec<u8>,
    pub will: Option<Will>,
    pub username: Option<Vec<u8>>,
    pub password: Option<Vec<u8>>,
}

/// The mathematical value of a connect payload.
pub struct ConnectV {
    pub client_id: Seq<u8>,
    pub will: Option<WillV>,
    pub username: Option<Seq<u8>>,
    pub password: Option<Seq<u8>>,
}

impl View for Connect {
    type V = ConnectV;

    open spec fn view(&self) -> ConnectV {
        ConnectV {
            client_id: self.client_id@,
            will: match self.will {
                Some(w) => Some(w@),
                None => None,
            },
            username: match self.username {
                Some(u) => Some(u@),
                None => None,
            },
            password: match self.password {
                Some(p) => Some(p@),
                None => None,
            },
        }
    }
}

impl ConnectV {
    /// Every present field fits its length prefix.
    pub open spec fn sizes_ok(self) -> bool {
        &&& self.client_id.len() <= 65535
        &&& (self.will matches Some(w) ==> w.sizes_ok())
        &&& (self.username matches Some(u) ==> u.len() <= 65535)
        &&& (self.password matches Some(p) ==> p.len() <= 65535)
    }

    /// The fields fit the wire and every string field is valid UTF-8.
    pub open spec fn wf(self) -> bool {
        &&& self.sizes_ok()
        &&& valid_utf8(self.client_id)
        &&& (self.will matches Some(w) ==> w.wf())
        &&& (self.username matches Some(u) ==> valid_utf8(u))
    }

    /// The optional fields are present exactly as the connect flags say.
    pub open spec fn matches_flags(self, flags: Flags) -> bool {
        &&& (self.will is Some) == flags.spec_has_will()
        &&& (self.username is Some) == flags.spec_has_username()
        &&& (self.password is Some) == flags.spec_has_password()
    }
}

/// The wire encoding of an optional will: nothing when absent.
pub open spec fn enc_opt_will(w: Option<WillV>) -> Seq<u8> {
    match w {
        Some(w) => enc_will(w),
        None => Seq::empty(),
    }
}

/// The wire encoding of an optional length-prefixed field: nothing when
/// absent.
pub open spec fn enc_opt_lp(b: Option<Seq<u8>>) -> Seq<u8> {
    match b {
        Some(b) => enc_lp(b),
        None => Seq::empty(),
    }
}

/// The wire encoding of a connect payload: client identifier, then the
/// present optional fields in order.
pub open spec fn enc_connect_payload(v: ConnectV) -> Seq<u8> {
    enc_lp(v.client_id) + enc_opt_will(v.will) + enc_opt_lp(v.username) + enc_opt_lp(v.password)
}

/// What decoding an optional will yields: an absent field consumes zero
/// bytes and is `None`, not present-but-empty.
pub open spec fn dec_opt_will(present: bool, s: Seq<u8>) -> Decoded<Option<WillV>> {
    if present {
        match dec_will(s) {
            Decoded::Complete { used, value } => (Decoded::Complete { used, value: Some(value) }),
            Decoded::Partial { need } => (Decoded::Partial { need }),
            Decoded::Malformed { err } => (Decoded::Malformed { err }),
        }
    } else {
        (Decoded::Complete { used: 0, value: None })
    }
}

/// What decoding an optional length-prefixed string yields.
pub open spec fn dec_opt_string(present: bool, s: Seq<u8>) -> Decoded<Option<Seq<u8>>> {
    if present {
        match dec_lp_string(s) {
            Decoded::Complete { used, value } => (Decoded::Complete { used, value: Some(value) }),
            Decoded::Partial { need } => (Decoded::Partial { need }),
            Decoded::Malformed { err } => (Decoded::Malformed { err }),
        }
    } else {
        (Decoded::Complete { used: 0, value: None })
    }
}

/// What decoding an optional length-prefixed byte string yields.
pub open spec fn dec_opt_bytes(present: bool, s: Seq<u8>) -> Decoded<Option<Seq<u8>>> {
    if present {
        match dec_lp_bytes(s) {
            Decoded::Complete { used, value } => (Decoded::Complete { used, value: Some(value) }),
            Decoded::Partial { need } => (Decoded::Partial { need }),
            Decoded::Malformed { err } => (Decoded::Malformed { err }),
        }
    } else {
        (Decoded::Complete { used: 0, value: None })
    }
}

/// What decoding a connect payload under the given connect flags yields.
pub open spec fn dec_connect_payload(flags: Flags, s: Seq<u8>) -> Decoded<ConnectV> {
    match dec_lp_string(s) {
        Decoded::Complete { used: u0, value: cid } => match dec_opt_will(
            flags.spec_has_will(),
            s.skip(u0),
        ) {
            Decoded::Complete { used: u1, value: will } => match dec_opt_string(
                flags.spec_has_username(),
                s.skip(u0 + u1),
            ) {
                Decoded::Complete { used: u2, value: username } => match dec_opt_bytes(
                    flags.spec_has_password(),
                    s.skip(u0 + u1 + u2),
                ) {
                    Decoded::Complete { used: u3, value: password } => (Decoded::Complete {
                        used: u0 + u1 + u2 + u3,
                        value: ConnectV { client_id: cid, will, username, password },
                    }),
                    Decoded::Partial { need } => (Decoded::Partial { need }),
                    Decoded::Malformed { err } => (Decoded::Malformed { err }),
                },
                Decoded::Partial { need } => (Decoded::Partial { need }),
                Decoded::Malformed { err } => (Decoded::Malformed { err }),
            },
            Decoded::Partial { need } => (Decoded::Partial { need }),
            Decoded::Malformed { err } => (Decoded::Malformed { err }),
        },
        Decoded::Partial { need } => (Decoded::Partial { need }),
        Decoded::Malformed { err } => (Decoded::Malformed { err }),
    }
}

impl Connect {
    /// Builds a connect payload from its fields.
    pub fn new(client_id: Vec<u8>, will: Option<Will>, username: Option<Vec<u8>>, password: Option<
        Vec<u8>,
    >) -> (r: Connect)
        ensures
            r.client_id == client_id,
            r.will == will,
            r.username == username,
            r.password == password,
    {
        Connect { client_id, will, username, password }
    }

    /// Decodes a connect payload from the front of `bytes` under the
    /// given connect flags. Bytes past the last structurally present
    /// field are not consumed: they belong to whatever follows.
    pub fn from_bytes(flags: Flags, bytes: &[u8]) -> (r: Result<
        Status<(usize, Connect)>,
        DecodeError,
    >)
        ensures
            decoded_of(r) == dec_connect_payload(flags, bytes@),
    {
        let (u0, client_id) = match parse_string(bytes) {
            Err(e) => { return Err(e); },
            Ok(Status::Partial(k)) => { return Ok(Status::Partial(k)); },
            Ok(Status::Complete((n, v))) => (n, v),
        };
        let (o1, will) = if flags.has_will() {
            let rest = slice_subrange(bytes, u0, bytes.len());
            proof {
                assert(rest@ =~= bytes@.skip(u0 as int));
            }
            match Will::from_bytes(rest) {
                Err(e) => { return Err(e); },
                Ok(Status::Partial(k)) => { return Ok(Status::Partial(k)); },
                Ok(Status::Complete((n, w))) => (u0 + n, Some(w)),
            }
        } else {
            (u0, None)
        };
        let (o2, username) = if flags.has_username() {
            let rest = slice_subrange(bytes, o1, bytes.len());
            proof {
                assert(rest@ =~= bytes@.skip(o1 as int));
            }
            match parse_string(rest) {
                Err(e) => { return Err(e); },
                Ok(Status::Partial(k)) => { return Ok(Status::Partial(k)); },
                Ok(Status::Complete((n, u))) => (o1 + n, Some(u)),
            }
        } else {
            (o1, None)
        };
        let (o3, password) = if flags.has_password() {
            let rest = slice_subrange(bytes, o2, bytes.len());
            proof {
                assert(rest@ =~= bytes@.skip(o2 as int));
            }
            match parse_bytes(rest) {
                Err(e) => { return Err(e); },
                Ok(Status::Partial(k)) => { return Ok(Status::Partial(k)); },
                Ok(Status::Complete((n, p))) => (o2 + n, Some(p)),
            }
        } else {
            (o2, None)
        };
        Ok(Status::Complete((o3, Connect { client_id, will, username, password })))
    }

    /// The number of bytes this payload occupies on the wire.
    pub fn encoded_len(&self) -> (r: usize)
        requires
            self@.sizes_ok(),
        ensures
            r == enc_connect_payload(self@).len(),
    {
        let mut n: usize = 2 + self.client_id.len();
        n = match &self.will {
            Some(w) => n + w.encoded_len(),
            None => n,
        };
        n = match &self.username {
            Some(u) => n + 2 + u.len(),
            None => n,
        };
        n = match &self.password {
            Some(p) => n + 2 + p.len(),
            None => n,
        };
        n
    }

    /// Encodes this payload into `bytes` at offset `at`. The required
    /// size is computed up front; an undersized destination is reported
    /// before anything is written.
    #[verifier::rlimit(60)]
    pub fn to_bytes(&self, bytes: &mut Vec<u8>, at: usize) -> (r: Result<usize, EncodeError>)
        ensures
            match r {
                Ok(n) => self@.sizes_ok() && n == enc_connect_payload(self@).len() && at + n <= old(
                    bytes,
                )@.len() && final(bytes)@ == spliced(
                    old(bytes)@,
                    at as int,
                    enc_connect_payload(self@),
                ),
                Err(e) => final(bytes)@ == old(bytes)@ && (if !self@.sizes_ok() {
                    e == EncodeError::ValueTooBig
                } else {
                    e == EncodeError::OutOfSpace && old(bytes)@.len() < at + enc_connect_payload(
                        self@,
                    ).len()
                }),
            },
    {
        if !self.sizes_ok_exec() {
            return Err(EncodeError::ValueTooBig);
        }
        let need: usize = self.encoded_len();
        if bytes.len() < need || at > bytes.len() - need {
            return Err(EncodeError::OutOfSpace);
        }
        let ghost prev = bytes@;
        let o0: usize = match encode_string(self.client_id.as_slice(), bytes, at) {
            Ok(n) => at + n,
            Err(..) => { proof { assert(false); } return Err(EncodeError::OutOfSpace); },
        };
        let o1: usize = match &self.will {
            Some(w) => match w.to_bytes(bytes, o0) {
                Ok(n) => o0 + n,
                Err(..) => { proof { assert(false); } return Err(EncodeError::OutOfSpace); },
            },
            None => o0,
        };
        let ghost b1 = bytes@;
        let o2: usize = match &self.username {
            Some(u) => match encode_string(u.as_slice(), bytes, o1) {
                Ok(n) => o1 + n,
                Err(..) => { proof { assert(false); } return Err(EncodeError::OutOfSpace); },
            },
            None => o1,
        };
        proof {
            assert(b1 =~= spliced(prev, at as int, enc_lp(self.client_id@) + enc_opt_will(self@.will)));
        }
        let ghost b2 = bytes@;
        match &self.password {
            Some(p) => match encode_bytes(p.as_slice(), bytes, o2) {
                Ok(..) => {},
                Err(..) => { proof { assert(false); } return Err(EncodeError::OutOfSpace); },
            },
            None => {},
        }
        proof {
            let p0 = enc_lp(self.client_id@);
            let p1 = enc_opt_will(self@.will);
            let p2 = enc_opt_lp(self@.username);
            let p3 = enc_opt_lp(self@.password);
            assert(b2 =~= spliced(prev, at as int, p0 + p1 + p2));
            assert(bytes@ =~= spliced(prev, at as int, p0 + p1 + p2 + p3));
            assert(bytes@ =~= spliced(prev, at as int, enc_connect_payload(self@)));
        }
        Ok(need)
    }

    /// Whether every present field fits its length prefix.
    pub fn sizes_ok_exec(&self) -> (r: bool)
        ensures
            r == self@.sizes_ok(),
    {
        if self.client_id.len() > 65535 {
            return false;
        }
        match &self.will {
            Some(w) => {
                if w.topic.len() > 65535 || w.message.len() > 65535 {
                    return false;
                }
            },
            None => {},
        }
        match &self.username {
            Some(u) => {
                if u.len() > 65535 {
                    return false;
                }
            },
            None => {},
        }
        match &self.password {
            Some(p) => {
                if p.len() > 65535 {
                    return false;
                }
            },
            None => {},
        }
        true
    }
}

/// A complete connect payload uses at least two bytes, never more than
/// were given; its value is well formed and its optional fields are
/// present exactly as the flags say.
pub proof fn lemma_connect_payload_complete(flags: Flags, s: Seq<u8>)
    requires
        dec_connect_payload(flags, s) is Complete,
    ensures
        2 <= dec_connect_payload(flags, s)->used <= s.len(),
        dec_connect_payload(flags, s)->value.wf(),
        dec_connect_payload(flags, s)->value.matches_flags(flags),
        dec_connect_payload(flags, s)->used == enc_connect_payload(
            dec_connect_payload(flags, s)->value,
        ).len(),
{
    let u0: int = dec_lp_string(s)->used;
    if flags.spec_has_will() {
        lemma_will_complete(s.skip(u0));
    }
}

/// With no will, username, or password bit set, a complete connect
/// payload is just the client identifier: the gated fields are absent,
/// and any bytes beyond the identifier are left unconsumed — they belong
/// to whatever follows, not to this payload.
pub proof fn lemma_ungated_fields_absent(flags: Flags, s: Seq<u8>)
    requires
        !flags.spec_has_will(),
        !flags.spec_has_username(),
        !flags.spec_has_password(),
        dec_connect_payload(flags, s) is Complete,
    ensures
        dec_connect_payload(flags, s)->value.will is None,
        dec_connect_payload(flags, s)->value.username is None,
        dec_connect_payload(flags, s)->value.password is None,
        dec_connect_payload(flags, s)->used == dec_lp_string(s)->used,
{
}

/// The skip offsets into a connect payload's own encoding land on each
/// following field.
#[verifier::rlimit(100)]
#[verifier::spinoff_prover]
proof fn lemma_connect_payload_split(v: ConnectV, rest: Seq<u8>)
    ensures
        enc_connect_payload(v) + rest == enc_lp(v.client_id) + (enc_opt_will(v.will) + (enc_opt_lp(
            v.username,
        ) + (enc_opt_lp(v.password) + rest))),
        (enc_connect_payload(v) + rest).skip(enc_lp(v.client_id).len() as int) == enc_opt_will(
            v.will,
        ) + (enc_opt_lp(v.username) + (enc_opt_lp(v.password) + rest)),
        (enc_connect_payload(v) + rest).skip(
            enc_lp(v.client_id).len() as int + enc_opt_will(v.will).len() as int,
        ) == enc_opt_lp(v.username) + (enc_opt_lp(v.password) + rest),
        (enc_connect_payload(v) + rest).skip(
            enc_lp(v.client_id).len() as int + enc_opt_will(v.will).len() as int + enc_opt_lp(
                v.username,
            ).len() as int,
        ) == enc_opt_lp(v.password) + rest,
{
    let p0 = enc_lp(v.client_id);
    let p1 = enc_opt_will(v.will);
    let p2 = enc_opt_lp(v.username);
    let p3 = enc_opt_lp(v.password);
    let s = enc_connect_payload(v) + rest;
    assert(s =~= p0 + (p1 + (p2 + (p3 + rest))));
    assert(s.skip(p0.len() as int) =~= p1 + (p2 + (p3 + rest)));
    assert(s.skip(p0.len() as int + p1.len() as int) =~= p2 + (p3 + rest));
    assert(s.skip(p0.len() as int + p1.len() as int + p2.len() as int) =~= p3 + rest);
}

/// A connect payload always decodes back from its own encoding under
/// flags that match its optional fields, whatever bytes follow it.
#[verifier::rlimit(100)]
#[verifier::spinoff_prover]
pub proof fn lemma_connect_payload_round_trip(v: ConnectV, flags: Flags, rest: Seq<u8>)
    requires
        v.wf(),
        v.matches_flags(flags),
    ensures
        dec_connect_payload(flags, enc_connect_payload(v) + rest) == (Decoded::Complete {
            used: enc_connect_payload(v).len() as int,
            value: v,
        }),
{
    let s = enc_connect_payload(v) + rest;
    let p1 = enc_opt_will(v.will);
    let p2 = enc_opt_lp(v.username);
    let p3 = enc_opt_lp(v.password);
    lemma_connect_payload_split(v, rest);
    lemma_lp_round_trip(v.client_id, p1 + (p2 + (p3 + rest)));
    match v.will {
        Some(w) => {
            lemma_will_round_trip(w, p2 + (p3 + rest));
        },
        None => {},
    }
    match v.username {
        Some(u) => {
            lemma_lp_round_trip(u, p3 + rest);
        },
        None => {},
    }
    match v.password {
        Some(p) => {
            lemma_lp_round_trip(p, rest);
        },
        None => {},
    }
}

/// On a strict prefix of a complete connect payload the decoder reports
/// a deficit that never overshoots the complete length; on any longer
/// prefix it returns the very same complete result.
#[verifier::rlimit(100)]
#[verifier::spinoff_prover]
pub proof fn lemma_connect_payload_prefix(flags: Flags, s: Seq<u8>, k: int)
    requires
        0 <= k <= s.len(),
        dec_connect_payload(flags, s) is Complete,
    ensures
        k < dec_connect_payload(flags, s)->used ==> (dec_connect_payload(flags, s.subrange(0, k))
            matches Decoded::Partial { need } && 1 <= need && k + need <= dec_connect_payload(
            flags,
            s,
        )->used),
        k >= dec_connect_payload(flags, s)->used ==> dec_connect_payload(flags, s.subrange(0, k))
            == dec_connect_payload(flags, s),
{
    let t = s.subrange(0, k);
    let u0: int = dec_lp_string(s)->used;
    lemma_lp_string_prefix(s, k);
    if k >= u0 {
        assert(t.skip(u0) =~= s.skip(u0).subrange(0, k - u0));
        let d1 = dec_opt_will(flags.spec_has_will(), s.skip(u0));
        let u1: int = d1->used;
        if flags.spec_has_will() {
            lemma_will_complete(s.skip(u0));
            lemma_will_prefix(s.skip(u0), k - u0);
        }
        if k >= u0 + u1 {
            assert(t.skip(u0 + u1) =~= s.skip(u0 + u1).subrange(0, k - u0 - u1));
            let d2 = dec_opt_string(flags.spec_has_username(), s.skip(u0 + u1));
            let u2: int = d2->used;
            if flags.spec_has_username() {
                lemma_lp_string_prefix(s.skip(u0 + u1), k - u0 - u1);
            }
            if k >= u0 + u1 + u2 {
                assert(t.skip(u0 + u1 + u2) =~= s.skip(u0 + u1 + u2).subrange(
                    0,
                    k - u0 - u1 - u2,
                ));
                if flags.spec_has_password() {
                    lemma_lp_bytes_prefix(s.skip(u0 + u1 + u2), k - u0 - u1 - u2);
                }
            }
        }
    }
}

/// A partial will decode always asks for at least one more byte.
pub proof fn lemma_will_partial_positive(s: Seq<u8>)
    requires
        dec_will(s) is Partial,
    ensures
        dec_will(s)->need >= 1,
{
}

/// A partial connect-payload decode always asks for at least one more
/// byte.
pub proof fn lemma_connect_payload_partial_positive(flags: Flags, s: Seq<u8>)
    requires
        dec_connect_payload(flags, s) is Partial,
    ensures
        dec_connect_payload(flags, s)->need >= 1,
{
}

/// The payload of a packet: the structured connect variant, or the raw
/// bytes fallback for packet types without a structured decoder.
#[derive(Clone, PartialEq, Eq, Debug)]
pub enum Payload {
    Connect(Connect),
    Bytes(Vec<u8>),
}

/// The mathematical value of a payload.
pub enum PayloadV {
    Connect(ConnectV),
    Bytes(Seq<u8>),
}

impl View for Payload {
    type V = PayloadV;

    open spec fn view(&self) -> PayloadV {
        match self {
            Payload::Connect(c) => PayloadV::Connect(c@),
            Payload::Bytes(b) => PayloadV::Bytes(b@),
        }
    }
}

/// The wire encoding of a payload.
pub open spec fn enc_payload(v: PayloadV) -> Seq<u8> {
    match v {
        PayloadV::Connect(c) => enc_connect_payload(c),
        PayloadV::Bytes(b) => b,
    }
}

/// Every field of the payload fits its wire representation.
pub open spec fn payload_sizes_ok(v: PayloadV) -> bool {
    match v {
        PayloadV::Connect(c) => c.sizes_ok(),
        PayloadV::Bytes(..) => true,
    }
}

impl Payload {
    /// The number of bytes this payload occupies on the wire.
    pub fn encoded_len(&self) -> (r: usize)
        requires
            payload_sizes_ok(self@),
        ensures
            r == enc_payload(self@).len(),
    {
        match self {
            Payload::Connect(c) => c.encoded_len(),
            Payload::Bytes(b) => b.len(),
        }
    }

    /// Encodes this payload into `bytes` at offset `at`.
    pub fn to_bytes(&self, bytes: &mut Vec<u8>, at: usize) -> (r: Result<usize, EncodeError>)
        ensures
            match r {
                Ok(n) => payload_sizes_ok(self@) && n == enc_payload(self@).len() && at + n <= old(
                    bytes,
                )@.len() && final(bytes)@ == spliced(old(bytes)@, at as int, enc_payload(self@)),
                Err(e) => final(bytes)@ == old(bytes)@ && (if !payload_sizes_ok(self@) {
                    e == EncodeError::ValueTooBig
                } else {
                    e == EncodeError::OutOfSpace && old(bytes)@.len() < at + enc_payload(
                        self@,
                    ).len()
                }),
            },
    {
        match self {
            Payload::Connect(c) => c.to_bytes(bytes, at),
            Payload::Bytes(b) => crate::codec::encode_raw(b.as_slice(), bytes, at),
        }
    }
}

} // verus!
