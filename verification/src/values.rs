//! Decoded values: typed wrappers and the dynamic [`Any`] representation.

use vstd::prelude::*;

use crate::arg_type::ArgType;
use crate::reader::Error;
use crate::signature::type_views;
use crate::signature::Signature;
use crate::signature::WireType;
use crate::signature::WireTypeV;
use crate::wire::AnyVal;

verus! {

/// An object path: a string naming an object on the bus.
#[derive(Clone, Debug, Eq, PartialEq)]
pub struct ObjectPath(pub String);

/// A value extracted from a variant, decoded as `T`.
#[derive(Clone, Debug, Eq, PartialEq)]
pub struct Variant<T>(pub T);

/// A dictionary entry: one key paired with one value.
#[derive(Clone, Debug, Eq, PartialEq)]
pub struct DictEntry<K, V>(pub K, pub V);

/// A unix file descriptor slot, by index.
#[derive(Clone, Copy, Debug, Eq, PartialEq)]
pub struct UnixFd(pub u32);

/// A double-precision number, carried as its raw IEEE 754 bits.
#[derive(Clone, Copy, Debug, Eq, PartialEq)]
pub struct DoubleBits(pub u64);

/// A dynamic value: one tagged variant per wire type, with container
/// variants holding recursively decoded children.  An `Array` additionally
/// records its declared element type; every element is guaranteed to have
/// exactly that type.
#[derive(Debug, PartialEq)]
pub enum Any {
    Boolean(bool),
    Byte(u8),
    Int16(i16),
    Int32(i32),
    Int64(i64),
    Uint16(u16),
    Uint32(u32),
    Uint64(u64),
    /// The raw IEEE 754 bits of a double-precision number.
    Double(u64),
    String(String),
    ObjectPath(String),
    Signature(Signature),
    UnixFd(u32),
    Array(Vec<Any>, WireType),
    Struct(Vec<Any>),
    Variant(Box<Any>),
    DictEntry(Box<Any>, Box<Any>),
}

pub open spec fn any_view(a: Any) -> AnyVal
    decreases a,
{
    match a {
        Any::Boolean(b) => AnyVal::Boolean(b),
        Any::Byte(x) => AnyVal::Byte(x),
        Any::Int16(x) => AnyVal::Int16(x),
        Any::Int32(x) => AnyVal::Int32(x),
        Any::Int64(x) => AnyVal::Int64(x),
        Any::Uint16(x) => AnyVal::Uint16(x),
        Any::Uint32(x) => AnyVal::Uint32(x),
        Any::Uint64(x) => AnyVal::Uint64(x),
        Any::Double(x) => AnyVal::Double(x),
        Any::String(s) => AnyVal::String(s@),
        Any::ObjectPath(s) => AnyVal::ObjectPath(s@),
        Any::Signature(sig) => AnyVal::Signature(sig@),
        Any::UnixFd(x) => AnyVal::UnixFd(x),
        Any::Array(vs, et) => AnyVal::Array(any_views(vs@), et@),
        Any::Struct(vs) => AnyVal::Struct(any_views(vs@)),
        Any::Variant(b) => AnyVal::Variant(Box::new(any_view(*b))),
        Any::DictEntry(k, v) => AnyVal::DictEntry(Box::new(any_view(*k)), Box::new(any_view(*v))),
    }
}

pub open spec fn any_views(vs: Seq<Any>) -> Seq<AnyVal>
    decreases vs,
{
    if vs.len() == 0 {
        Seq::empty()
    } else {
        seq![any_view(vs[0])] + any_views(vs.subrange(1, vs.len() as int))
    }
}

impl View for Any {
    type V = AnyVal;

    open spec fn view(&self) -> AnyVal {
        any_view(*self)
    }
}

pub broadcast proof fn lemma_any_views_index(vs: Seq<Any>, i: int)
    requires
        0 <= i < vs.len(),
    ensures
        #[trigger] any_views(vs)[i] == any_view(vs[i]),
        any_views(vs).len() == vs.len(),
    decreases vs.len(),
{
    if vs.len() > 0 {
        lemma_any_views_len(vs);
        if i > 0 {
            lemma_any_views_index(vs.subrange(1, vs.len() as int), i - 1);
        }
    }
}

pub broadcast proof fn lemma_any_views_len(vs: Seq<Any>)
    ensures
        #[trigger] any_views(vs).len() == vs.len(),
    decreases vs.len(),
{
    if vs.len() > 0 {
        lemma_any_views_len(vs.subrange(1, vs.len() as int));
    }
}

impl Any {
    /// The wire type this value inhabits.
    pub fn wire_type(&self) -> (r: WireType)
        ensures
            r@ == self@.typ(),
        decreases self,
    {
        match self {
            Any::Boolean(_) => WireType::Boolean,
            Any::Byte(_) => WireType::Byte,
            Any::Int16(_) => WireType::Int16,
            Any::Int32(_) => WireType::Int32,
            Any::Int64(_) => WireType::Int64,
            Any::Uint16(_) => WireType::Uint16,
            Any::Uint32(_) => WireType::Uint32,
            Any::Uint64(_) => WireType::Uint64,
            Any::Double(_) => WireType::Double,
            Any::String(_) => WireType::String,
            Any::ObjectPath(_) => WireType::ObjectPath,
            Any::Signature(_) => WireType::Signature,
            Any::UnixFd(_) => WireType::UnixFd,
            Any::Array(_, et) => WireType::Array(Box::new(et.duplicate())),
            Any::Struct(vs) => WireType::Struct(member_types(vs)),
            Any::Variant(_) => WireType::Variant,
            Any::DictEntry(k, v) => WireType::DictEntry(
                Box::new(k.wire_type()),
                Box::new(v.wire_type()),
            ),
        }
    }

    /// The tag of this value's wire type.
    pub fn arg_type(&self) -> (r: ArgType)
        ensures
            r == self@.typ().tag(),
    {
        match self {
            Any::Boolean(_) => ArgType::Boolean,
            Any::Byte(_) => ArgType::Byte,
            Any::Int16(_) => ArgType::Int16,
            Any::Int32(_) => ArgType::Int32,
            Any::Int64(_) => ArgType::Int64,
            Any::Uint16(_) => ArgType::Uint16,
            Any::Uint32(_) => ArgType::Uint32,
            Any::Uint64(_) => ArgType::Uint64,
            Any::Double(_) => ArgType::Double,
            Any::String(_) => ArgType::String,
            Any::ObjectPath(_) => ArgType::ObjectPath,
            Any::Signature(_) => ArgType::Signature,
            Any::UnixFd(_) => ArgType::UnixFd,
            Any::Array(_, _) => ArgType::Array,
            Any::Struct(_) => ArgType::Struct,
            Any::Variant(_) => ArgType::Variant,
            Any::DictEntry(_, _) => ArgType::DictEntry,
        }
    }

    /// The one-type signature of this value.
    pub fn signature(&self) -> (r: Signature)
        ensures
            r@ =~= seq![self@.typ()],
    {
        Signature::single(self.wire_type())
    }

    /// An array value over the given elements and declared element type.
    /// Succeeds exactly when every element has that type: the check that
    /// keeps every `Array` homogeneous and rejects mixed sequences.
    pub fn array(values: Vec<Any>, elem: WireType) -> (r: Result<Any, Error>)
        ensures
            match r {
                Ok(a) => a@ == AnyVal::Array(any_views(values@), elem@) && forall|i: int|
                    0 <= i < values@.len() ==> (#[trigger] values@[i])@.typ() == elem@,
                Err(e) => {
                    &&& exists|i: int|
                        0 <= i < values@.len() && (#[trigger] values@[i])@.typ() != elem@
                    &&& e is UnexpectedType
                },
            },
    {
        let mut i: usize = 0;
        while i < values.len()
            invariant
                i <= values@.len(),
                forall|j: int| 0 <= j < i ==> (#[trigger] values@[j])@.typ() == elem@,
            decreases values@.len() - i,
        {
            let t = values[i].wire_type();
            if !t.same_as(&elem) {
                return Err(Error::UnexpectedType {
                    expected: Signature::single(elem),
                    actual: Some(Signature::single(t)),
                });
            }
            i = i + 1;
        }
        Ok(Any::Array(values, elem))
    }
}

/// The wire types of a member list, in order.
fn member_types(vs: &Vec<Any>) -> (r: Vec<WireType>)
    ensures
        type_views(r@) == AnyVal::typ_list(any_views(vs@)),
    decreases vs,
{
    let mut r: Vec<WireType> = Vec::new();
    let mut i: usize = 0;
    while i < vs.len()
        invariant
            i <= vs@.len(),
            r@.len() == i,
            forall|j: int| 0 <= j < i ==> (#[trigger] r@[j])@ == any_view(vs@[j]).typ(),
        decreases vs@.len() - i,
    {
        let t = vs[i].wire_type();
        r.push(t);
        i = i + 1;
    }
    proof {
        crate::signature::lemma_type_views_len(r@);
        crate::wire::lemma_typ_list_len(any_views(vs@));
        lemma_any_views_len(vs@);
        assert forall|j: int| 0 <= j < vs@.len() implies #[trigger] type_views(r@)[j]
            == AnyVal::typ_list(any_views(vs@))[j] by {
            crate::signature::lemma_type_views_index(r@, j);
            crate::wire::lemma_typ_list_index(any_views(vs@), j);
            lemma_any_views_index(vs@, j);
        }
        assert(type_views(r@) =~= AnyVal::typ_list(any_views(vs@)));
    }
    r
}

} // verus!
