//! Payload values that accompany a trigger.
//!
//! A trigger may carry a value of one of several concrete types. The value
//! travels as a [`Payload`] envelope; each envelope variant corresponds to one
//! concrete payload type, identified by a [`PayloadTag`]. Callbacks that
//! expect a payload declare the tag they accept and are dispatched only when
//! the supplied payload carries exactly that tag.

use vstd::prelude::*;

verus! {

/// A dynamically-typed value supplied alongside a triggered event.
#[derive(Debug, PartialEq, Eq)]
pub enum Payload {
    /// No payload; what a bare trigger carries.
    Unit,
    /// A 32-bit signed integer payload.
    I32(i32),
    /// A 32-bit unsigned integer payload.
    U32(u32),
    /// A 64-bit signed integer payload.
    I64(i64),
    /// A 64-bit unsigned integer payload.
    U64(u64),
    /// A pointer-sized unsigned integer payload.
    USize(usize),
    /// A text payload.
    Text(String),
}

/// The identity of a payload's concrete type.
#[derive(Debug, Clone, Copy, PartialEq, Eq, Structural)]
pub enum PayloadTag {
    /// The type of the empty payload.
    Unit,
    /// The 32-bit signed integer type.
    I32,
    /// The 32-bit unsigned integer type.
    U32,
    /// The 64-bit signed integer type.
    I64,
    /// The 64-bit unsigned integer type.
    U64,
    /// The pointer-sized unsigned integer type.
    USize,
    /// The text type.
    Text,
}

/// The type tag carried by a payload value.
pub open spec fn spec_tag(p: Payload) -> PayloadTag {
    match p {
        Payload::Unit => PayloadTag::Unit,
        Payload::I32(_) => PayloadTag::I32,
        Payload::U32(_) => PayloadTag::U32,
        Payload::I64(_) => PayloadTag::I64,
        Payload::U64(_) => PayloadTag::U64,
        Payload::USize(_) => PayloadTag::USize,
        Payload::Text(_) => PayloadTag::Text,
    }
}

impl Payload {
    /// The tag identifying this payload's concrete type.
    pub fn tag(&self) -> (t: PayloadTag)
        ensures
            t == spec_tag(*self),
    {
        match self {
            Payload::Unit => PayloadTag::Unit,
            Payload::I32(_) => PayloadTag::I32,
            Payload::U32(_) => PayloadTag::U32,
            Payload::I64(_) => PayloadTag::I64,
            Payload::U64(_) => PayloadTag::U64,
            Payload::USize(_) => PayloadTag::USize,
            Payload::Text(_) => PayloadTag::Text,
        }
    }
}

impl Clone for Payload {
    /// An exact copy of the payload value.
    fn clone(&self) -> (r: Self)
        ensures
            r == *self,
    {
        match self {
            Payload::Unit => Payload::Unit,
            Payload::I32(v) => Payload::I32(*v),
            Payload::U32(v) => Payload::U32(*v),
            Payload::I64(v) => Payload::I64(*v),
            Payload::U64(v) => Payload::U64(*v),
            Payload::USize(v) => Payload::USize(*v),
            Payload::Text(s) => Payload::Text(s.clone()),
        }
    }
}

} // verus!
