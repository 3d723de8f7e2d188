//! The closed set of wire-type tags of the D-Bus type system.

use vstd::prelude::*;

verus! {

/// One tag per D-Bus type code.  `Invalid` only ever appears as the
/// end-of-sequence sentinel reported by a cursor; it never tags a value.
#[derive(Clone, Copy, Debug, PartialEq, Eq, Structural)]
pub enum ArgType {
    Invalid,
    Boolean,
    Byte,
    Int16,
    Int32,
    Int64,
    Uint16,
    Uint32,
    Uint64,
    Double,
    String,
    ObjectPath,
    Signature,
    Array,
    Struct,
    Variant,
    DictEntry,
    UnixFd,
}

impl ArgType {
    /// The tag encoded by an ASCII type-code byte; unknown codes map to `Invalid`.
    pub open spec fn spec_from_code(code: u8) -> ArgType {
        if code == 98 {
            ArgType::Boolean
        } else if code == 121 {
            ArgType::Byte
        } else if code == 110 {
            ArgType::Int16
        } else if code == 105 {
            ArgType::Int32
        } else if code == 120 {
            ArgType::Int64
        } else if code == 113 {
            ArgType::Uint16
        } else if code == 117 {
            ArgType::Uint32
        } else if code == 116 {
            ArgType::Uint64
        } else if code == 100 {
            ArgType::Double
        } else if code == 115 {
            ArgType::String
        } else if code == 111 {
            ArgType::ObjectPath
        } else if code == 103 {
            ArgType::Signature
        } else if code == 97 {
            ArgType::Array
        } else if code == 114 {
            ArgType::Struct
        } else if code == 118 {
            ArgType::Variant
        } else if code == 101 {
            ArgType::DictEntry
        } else if code == 104 {
            ArgType::UnixFd
        } else {
            ArgType::Invalid
        }
    }

    /// The ASCII type-code byte of this tag; `Invalid` maps to 0.
    /// Containers use their single-letter codes (`r` for structures and
    /// `e` for dictionary entries), as the wire protocol does for tags.
    pub open spec fn spec_code(self) -> u8 {
        match self {
            ArgType::Invalid => 0,
            ArgType::Boolean => 98,
            ArgType::Byte => 121,
            ArgType::Int16 => 110,
            ArgType::Int32 => 105,
            ArgType::Int64 => 120,
            ArgType::Uint16 => 113,
            ArgType::Uint32 => 117,
            ArgType::Uint64 => 116,
            ArgType::Double => 100,
            ArgType::String => 115,
            ArgType::ObjectPath => 111,
            ArgType::Signature => 103,
            ArgType::Array => 97,
            ArgType::Struct => 114,
            ArgType::Variant => 118,
            ArgType::DictEntry => 101,
            ArgType::UnixFd => 104,
        }
    }

    /// Container tags support recursion into their members.
    pub open spec fn spec_is_container(self) -> bool {
        self == ArgType::Array || self == ArgType::Struct || self == ArgType::Variant
            || self == ArgType::DictEntry
    }

    /// Basic tags denote fixed-shape values extractable without recursion.
    /// `Invalid` is neither basic nor a container.
    pub open spec fn spec_is_basic(self) -> bool {
        self != ArgType::Invalid && !self.spec_is_container()
    }

    #[verifier::when_used_as_spec(spec_from_code)]
    pub fn from_code(code: u8) -> (r: ArgType)
        ensures
            r == ArgType::spec_from_code(code),
    {
        match code {
            98 => ArgType::Boolean,
            121 => ArgType::Byte,
            110 => ArgType::Int16,
            105 => ArgType::Int32,
            120 => ArgType::Int64,
            113 => ArgType::Uint16,
            117 => ArgType::Uint32,
            116 => ArgType::Uint64,
            100 => ArgType::Double,
            115 => ArgType::String,
            111 => ArgType::ObjectPath,
            103 => ArgType::Signature,
            97 => ArgType::Array,
            114 => ArgType::Struct,
            118 => ArgType::Variant,
            101 => ArgType::DictEntry,
            104 => ArgType::UnixFd,
            _ => ArgType::Invalid,
        }
    }

    #[verifier::when_used_as_spec(spec_code)]
    pub fn code(self) -> (r: u8)
        ensures
            r == self.spec_code(),
    {
        match self {
            ArgType::Invalid => 0,
            ArgType::Boolean => 98,
            ArgType::Byte => 121,
            ArgType::Int16 => 110,
            ArgType::Int32 => 105,
            ArgType::Int64 => 120,
            ArgType::Uint16 => 113,
            ArgType::Uint32 => 117,
            ArgType::Uint64 => 116,
            ArgType::Double => 100,
            ArgType::String => 115,
            ArgType::ObjectPath => 111,
            ArgType::Signature => 103,
            ArgType::Array => 97,
            ArgType::Struct => 114,
            ArgType::Variant => 118,
            ArgType::DictEntry => 101,
            ArgType::UnixFd => 104,
        }
    }

    #[verifier::when_used_as_spec(spec_is_container)]
    pub fn is_container(self) -> (r: bool)
        ensures
            r == self.spec_is_container(),
    {
        match self {
            ArgType::Array | ArgType::Struct | ArgType::Variant | ArgType::DictEntry => true,
            _ => false,
        }
    }

    #[verifier::when_used_as_spec(spec_is_basic)]
    pub fn is_basic(self) -> (r: bool)
        ensures
            r == self.spec_is_basic(),
    {
        match self {
            ArgType::Invalid | ArgType::Array | ArgType::Struct | ArgType::Variant
            | ArgType::DictEntry => false,
            _ => true,
        }
    }
}

} // verus!
