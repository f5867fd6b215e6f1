//! The result of a successful parse pass.
//!
//! `Complete` is used when the buffer contained the complete value.
//! `Partial` is used when parsing did not reach the end of the expected
//! value, but no invalid data was found.

use vstd::prelude::*;

use crate::error::DecodeError;

verus! {

/// The outcome of one decode attempt that did not hit malformed input.
#[derive(Copy, Clone, PartialEq, Eq, Debug)]
pub enum Status<T> {
    /// The completed result.
    Complete(T),
    /// A partial result: the minimum number of additional bytes needed
    /// before a retry can make progress. Always at least 1.
    Partial(usize),
}

impl<T> Status<T> {
    /// Convenience method to check if status is complete.
    pub fn is_complete(&self) -> (r: bool)
        ensures
            r == (self is Complete),
    {
        match *self {
            Status::Complete(..) => true,
            Status::Partial(..) => false,
        }
    }

    /// Convenience method to check if status is partial.
    pub fn is_partial(&self) -> (r: bool)
        ensures
            r == (self is Partial),
    {
        match *self {
            Status::Complete(..) => false,
            Status::Partial(..) => true,
        }
    }

    /// Convenience method to unwrap a `Complete` value. The caller must
    /// have established that the status is not `Partial`.
    pub fn unwrap(self) -> (t: T)
        requires
            self is Complete,
        ensures
            self == Status::Complete(t),
    {
        match self {
            Status::Complete(t) => t,
            Status::Partial(..) => unreached(),
        }
    }
}

/// The mathematical outcome of a decoder on a byte sequence: every decoder
/// of this crate is specified by a total function into this type, and every
/// executable decoder is proved to agree with its specification exactly.
pub enum Decoded<V> {
    /// A complete value: `used` bytes were consumed to produce `value`.
    Complete { used: int, value: V },
    /// At least `need` more bytes are required; `need >= 1` always.
    Partial { need: int },
    /// The input can never become a valid value.
    Malformed { err: DecodeError },
}

/// Maps an executable decode result onto the mathematical outcome it
/// realizes, so that one `ensures` clause can pin the whole result.
pub open spec fn decoded_of<T: View>(r: Result<Status<(usize, T)>, DecodeError>) -> Decoded<
    T::V,
> {
    match r {
        Ok(Status::Complete((n, v))) => (Decoded::Complete { used: n as int, value: v@ }),
        Ok(Status::Partial(k)) => (Decoded::Partial { need: k as int }),
        Err(e) => (Decoded::Malformed { err: e }),
    }
}

/// Widens a machine-integer outcome to the mathematical outcome it stands
/// for.
pub open spec fn decoded_int(d: Decoded<u32>) -> Decoded<int> {
    match d {
        Decoded::Complete { used, value } => (Decoded::Complete { used, value: value as int }),
        Decoded::Partial { need } => (Decoded::Partial { need }),
        Decoded::Malformed { err } => (Decoded::Malformed { err }),
    }
}

} // verus!
