//! Type signatures: parsing, serialization, and the structured type model.
//!
//! A signature is an ordered sequence of (possibly nested) type codes.  The
//! executable representation is [`WireType`]; its mathematical counterpart is
//! [`WireTypeV`], obtained through the view.  Parsing and serialization are
//! specified byte-for-byte by [`spec_parse_sig`] and [`ser_types`], and
//! parsing is proved to round-trip: a parsed signature serializes back to
//! exactly the bytes it was parsed from.

use vstd::prelude::*;

use crate::arg_type::ArgType;
use crate::reader::Error;

verus! {

/// One complete type of the wire type system.
#[derive(Debug, Eq, PartialEq)]
pub enum WireType {
    Boolean,
    Byte,
    Int16,
    Int32,
    Int64,
    Uint16,
    Uint32,
    Uint64,
    Double,
    String,
    ObjectPath,
    Signature,
    UnixFd,
    Variant,
    Array(Box<WireType>),
    Struct(Vec<WireType>),
    DictEntry(Box<WireType>, Box<WireType>),
}

/// The mathematical model of a [`WireType`]: the same tree with member lists
/// as sequences.
pub enum WireTypeV {
    Boolean,
    Byte,
    Int16,
    Int32,
    Int64,
    Uint16,
    Uint32,
    Uint64,
    Double,
    String,
    ObjectPath,
    Signature,
    UnixFd,
    Variant,
    Array(Box<WireTypeV>),
    Struct(Seq<WireTypeV>),
    DictEntry(Box<WireTypeV>, Box<WireTypeV>),
}

pub open spec fn type_view(t: WireType) -> WireTypeV
    decreases t,
{
    match t {
        WireType::Boolean => WireTypeV::Boolean,
        WireType::Byte => WireTypeV::Byte,
        WireType::Int16 => WireTypeV::Int16,
        WireType::Int32 => WireTypeV::Int32,
        WireType::Int64 => WireTypeV::Int64,
        WireType::Uint16 => WireTypeV::Uint16,
        WireType::Uint32 => WireTypeV::Uint32,
        WireType::Uint64 => WireTypeV::Uint64,
        WireType::Double => WireTypeV::Double,
        WireType::String => WireTypeV::String,
        WireType::ObjectPath => WireTypeV::ObjectPath,
        WireType::Signature => WireTypeV::Signature,
        WireType::UnixFd => WireTypeV::UnixFd,
        WireType::Variant => WireTypeV::Variant,
        WireType::Array(e) => WireTypeV::Array(Box::new(type_view(*e))),
        WireType::Struct(ts) => WireTypeV::Struct(type_views(ts@)),
        WireType::DictEntry(k, v) => WireTypeV::DictEntry(
            Box::new(type_view(*k)),
            Box::new(type_view(*v)),
        ),
    }
}

pub open spec fn type_views(ts: Seq<WireType>) -> Seq<WireTypeV>
    decreases ts,
{
    if ts.len() == 0 {
        Seq::empty()
    } else {
        seq![type_view(ts[0])] + type_views(ts.subrange(1, ts.len() as int))
    }
}

impl View for WireType {
    type V = WireTypeV;

    open spec fn view(&self) -> WireTypeV {
        type_view(*self)
    }
}

pub broadcast proof fn lemma_type_views_index(ts: Seq<WireType>, i: int)
    requires
        0 <= i < ts.len(),
    ensures
        #[trigger] type_views(ts)[i] == type_view(ts[i]),
        type_views(ts).len() == ts.len(),
    decreases ts.len(),
{
    if ts.len() > 0 {
        lemma_type_views_len(ts);
        if i > 0 {
            lemma_type_views_index(ts.subrange(1, ts.len() as int), i - 1);
        }
    }
}

pub broadcast proof fn lemma_type_views_len(ts: Seq<WireType>)
    ensures
        #[trigger] type_views(ts).len() == ts.len(),
    decreases ts.len(),
{
    if ts.len() > 0 {
        lemma_type_views_len(ts.subrange(1, ts.len() as int));
    }
}

impl WireTypeV {
    /// The tag of this type.
    pub open spec fn tag(self) -> ArgType {
        match self {
            WireTypeV::Boolean => ArgType::Boolean,
            WireTypeV::Byte => ArgType::Byte,
            WireTypeV::Int16 => ArgType::Int16,
            WireTypeV::Int32 => ArgType::Int32,
            WireTypeV::Int64 => ArgType::Int64,
            WireTypeV::Uint16 => ArgType::Uint16,
            WireTypeV::Uint32 => ArgType::Uint32,
            WireTypeV::Uint64 => ArgType::Uint64,
            WireTypeV::Double => ArgType::Double,
            WireTypeV::String => ArgType::String,
            WireTypeV::ObjectPath => ArgType::ObjectPath,
            WireTypeV::Signature => ArgType::Signature,
            WireTypeV::UnixFd => ArgType::UnixFd,
            WireTypeV::Variant => ArgType::Variant,
            WireTypeV::Array(_) => ArgType::Array,
            WireTypeV::Struct(_) => ArgType::Struct,
            WireTypeV::DictEntry(_, _) => ArgType::DictEntry,
        }
    }

    /// A structural size used as a termination measure when walking a type.
    pub open spec fn size(self) -> nat
        decreases self,
    {
        match self {
            WireTypeV::Array(e) => 1 + e.size(),
            WireTypeV::Struct(ts) => 1 + WireTypeV::size_list(ts),
            WireTypeV::DictEntry(k, v) => 3 + k.size() + v.size(),
            _ => 1,
        }
    }

    pub open spec fn size_list(ts: Seq<WireTypeV>) -> nat
        decreases ts,
    {
        if ts.len() == 0 {
            0
        } else {
            1 + ts[0].size() + WireTypeV::size_list(ts.subrange(1, ts.len() as int))
        }
    }
}

/// Each member's size is strictly below the whole list's size.
pub proof fn lemma_size_list_ge(ts: Seq<WireTypeV>, j: int)
    requires
        0 <= j < ts.len(),
    ensures
        WireTypeV::size_list(ts) > ts[j].size(),
    decreases ts.len(),
{
    if j > 0 {
        lemma_size_list_ge(ts.subrange(1, ts.len() as int), j - 1);
    }
}

impl WireType {
    /// The tag of this type.
    pub fn tag(&self) -> (r: ArgType)
        ensures
            r == self@.tag(),
    {
        match self {
            WireType::Boolean => ArgType::Boolean,
            WireType::Byte => ArgType::Byte,
            WireType::Int16 => ArgType::Int16,
            WireType::Int32 => ArgType::Int32,
            WireType::Int64 => ArgType::Int64,
            WireType::Uint16 => ArgType::Uint16,
            WireType::Uint32 => ArgType::Uint32,
            WireType::Uint64 => ArgType::Uint64,
            WireType::Double => ArgType::Double,
            WireType::String => ArgType::String,
            WireType::ObjectPath => ArgType::ObjectPath,
            WireType::Signature => ArgType::Signature,
            WireType::UnixFd => ArgType::UnixFd,
            WireType::Variant => ArgType::Variant,
            WireType::Array(_) => ArgType::Array,
            WireType::Struct(_) => ArgType::Struct,
            WireType::DictEntry(_, _) => ArgType::DictEntry,
        }
    }

    /// A structurally equal copy.
    pub fn duplicate(&self) -> (r: WireType)
        ensures
            r@ == self@,
        decreases self,
    {
        match self {
            WireType::Boolean => WireType::Boolean,
            WireType::Byte => WireType::Byte,
            WireType::Int16 => WireType::Int16,
            WireType::Int32 => WireType::Int32,
            WireType::Int64 => WireType::Int64,
            WireType::Uint16 => WireType::Uint16,
            WireType::Uint32 => WireType::Uint32,
            WireType::Uint64 => WireType::Uint64,
            WireType::Double => WireType::Double,
            WireType::String => WireType::String,
            WireType::ObjectPath => WireType::ObjectPath,
            WireType::Signature => WireType::Signature,
            WireType::UnixFd => WireType::UnixFd,
            WireType::Variant => WireType::Variant,
            WireType::Array(e) => WireType::Array(Box::new(e.duplicate())),
            WireType::Struct(ts) => WireType::Struct(duplicate_types(ts)),
            WireType::DictEntry(k, v) => WireType::DictEntry(
                Box::new(k.duplicate()),
                Box::new(v.duplicate()),
            ),
        }
    }
}

impl WireType {
    /// Structural equality: true exactly when the two types are the same
    /// tree of type codes.
    pub fn same_as(&self, other: &WireType) -> (r: bool)
        ensures
            r == (self@ == other@),
        decreases self,
    {
        match (self, other) {
            (WireType::Boolean, WireType::Boolean) => true,
            (WireType::Byte, WireType::Byte) => true,
            (WireType::Int16, WireType::Int16) => true,
            (WireType::Int32, WireType::Int32) => true,
            (WireType::Int64, WireType::Int64) => true,
            (WireType::Uint16, WireType::Uint16) => true,
            (WireType::Uint32, WireType::Uint32) => true,
            (WireType::Uint64, WireType::Uint64) => true,
            (WireType::Double, WireType::Double) => true,
            (WireType::String, WireType::String) => true,
            (WireType::ObjectPath, WireType::ObjectPath) => true,
            (WireType::Signature, WireType::Signature) => true,
            (WireType::UnixFd, WireType::UnixFd) => true,
            (WireType::Variant, WireType::Variant) => true,
            (WireType::Array(a), WireType::Array(b)) => a.same_as(b),
            (WireType::Struct(a), WireType::Struct(b)) => types_same(a, b),
            (WireType::DictEntry(ka, va), WireType::DictEntry(kb, vb)) => {
                let kk = ka.same_as(kb);
                let vv = va.same_as(vb);
                kk && vv
            },
            _ => false,
        }
    }
}

/// Structural equality of member lists.
fn types_same(a: &Vec<WireType>, b: &Vec<WireType>) -> (r: bool)
    ensures
        r == (type_views(a@) == type_views(b@)),
    decreases a,
{
    proof {
        lemma_type_views_len(a@);
        lemma_type_views_len(b@);
    }
    if a.len() != b.len() {
        proof {
            assert(type_views(a@).len() != type_views(b@).len());
        }
        return false;
    }
    let mut i: usize = 0;
    while i < a.len()
        invariant
            a@.len() == b@.len(),
            i <= a@.len(),
            type_views(a@).len() == a@.len(),
            type_views(b@).len() == b@.len(),
            forall|j: int| 0 <= j < i ==> #[trigger] type_views(a@)[j] == type_views(b@)[j],
        decreases a@.len() - i,
    {
        let same = a[i].same_as(&b[i]);
        proof {
            lemma_type_views_index(a@, i as int);
            lemma_type_views_index(b@, i as int);
        }
        if !same {
            proof {
                assert(type_views(a@)[i as int] != type_views(b@)[i as int]);
            }
            return false;
        }
        i = i + 1;
    }
    proof {
        assert(type_views(a@) =~= type_views(b@));
    }
    true
}

impl Clone for WireType {
    fn clone(&self) -> (r: Self)
        ensures
            r@ == self@,
    {
        self.duplicate()
    }
}

/// A structurally equal copy of a member list.
pub fn duplicate_types(ts: &Vec<WireType>) -> (r: Vec<WireType>)
    ensures
        type_views(r@) == type_views(ts@),
        r@.len() == ts@.len(),
    decreases ts,
{
    let mut r: Vec<WireType> = Vec::new();
    let mut i: usize = 0;
    while i < ts.len()
        invariant
            i <= ts@.len(),
            r@.len() == i,
            forall|j: int| 0 <= j < i ==> #[trigger] r@[j]@ == ts@[j]@,
        decreases ts@.len() - i,
    {
        let t = ts[i].duplicate();
        r.push(t);
        i = i + 1;
    }
    proof {
        lemma_views_pointwise(r@, ts@);
    }
    r
}

/// Member lists with pointwise equal views have equal view sequences.
proof fn lemma_views_pointwise(a: Seq<WireType>, b: Seq<WireType>)
    requires
        a.len() == b.len(),
        forall|j: int| 0 <= j < a.len() ==> #[trigger] a[j]@ == b[j]@,
    ensures
        type_views(a) == type_views(b),
{
    lemma_type_views_len(a);
    lemma_type_views_len(b);
    assert forall|j: int| 0 <= j < a.len() implies #[trigger] type_views(a)[j] == type_views(b)[j]
    by {
        lemma_type_views_index(a, j);
        lemma_type_views_index(b, j);
        assert(a[j]@ == b[j]@);
        assert(type_view(a[j]) == type_view(b[j]));
    }
    assert(type_views(a) =~= type_views(b));
}

/// The serialized bytes of one complete type.
pub open spec fn ser_type(t: WireTypeV) -> Seq<u8>
    decreases t,
{
    match t {
        WireTypeV::Array(e) => seq![97u8] + ser_type(*e),
        WireTypeV::Struct(ts) => seq![40u8] + ser_types(ts) + seq![41u8],
        WireTypeV::DictEntry(k, v) => seq![123u8] + ser_type(*k) + ser_type(*v) + seq![125u8],
        _ => seq![t.tag().spec_code()],
    }
}

/// The serialized bytes of a sequence of complete types.
pub open spec fn ser_types(ts: Seq<WireTypeV>) -> Seq<u8>
    decreases ts,
{
    if ts.len() == 0 {
        Seq::empty()
    } else {
        ser_type(ts[0]) + ser_types(ts.subrange(1, ts.len() as int))
    }
}

/// Parses one complete type starting at `pos`; yields the type and the
/// position one past it.
pub open spec fn spec_parse_type(s: Seq<u8>, pos: int) -> Option<(WireTypeV, int)>
    decreases s.len() - pos, 0int,
{
    if pos < 0 || pos >= s.len() {
        None
    } else {
        let code = s[pos];
        if code == 97 {
            // 'a': an array of the one following element type
            match spec_parse_type(s, pos + 1) {
                Some((e, p2)) => Some((WireTypeV::Array(Box::new(e)), p2)),
                None => None,
            }
        } else if code == 40 {
            // '(': struct members up to the matching ')'
            match spec_parse_members(s, pos + 1) {
                Some((ts, p2)) => Some((WireTypeV::Struct(ts), p2)),
                None => None,
            }
        } else if code == 123 {
            // '{': a dict entry of exactly two members up to '}'
            match spec_parse_type(s, pos + 1) {
                Some((k, p2)) => if p2 <= pos || p2 > s.len() {
                    None
                } else {
                    match spec_parse_type(s, p2) {
                        Some((v, p3)) => if p3 < s.len() && s[p3] == 125 {
                            Some((WireTypeV::DictEntry(Box::new(k), Box::new(v)), p3 + 1))
                        } else {
                            None
                        },
                        None => None,
                    }
                },
                None => None,
            }
        } else {
            let tag = ArgType::spec_from_code(code);
            if tag.spec_is_basic() || tag == ArgType::Variant {
                Some((tag_type(tag), pos + 1))
            } else {
                None
            }
        }
    }
}

/// The non-container type denoted by a basic or variant tag.
pub open spec fn tag_type(tag: ArgType) -> WireTypeV {
    match tag {
        ArgType::Boolean => WireTypeV::Boolean,
        ArgType::Byte => WireTypeV::Byte,
        ArgType::Int16 => WireTypeV::Int16,
        ArgType::Int32 => WireTypeV::Int32,
        ArgType::Int64 => WireTypeV::Int64,
        ArgType::Uint16 => WireTypeV::Uint16,
        ArgType::Uint32 => WireTypeV::Uint32,
        ArgType::Uint64 => WireTypeV::Uint64,
        ArgType::Double => WireTypeV::Double,
        ArgType::String => WireTypeV::String,
        ArgType::ObjectPath => WireTypeV::ObjectPath,
        ArgType::Signature => WireTypeV::Signature,
        ArgType::UnixFd => WireTypeV::UnixFd,
        _ => WireTypeV::Variant,
    }
}

/// Parses struct members up to and including the closing ')'.
pub open spec fn spec_parse_members(s: Seq<u8>, pos: int) -> Option<(Seq<WireTypeV>, int)>
    decreases s.len() - pos, 1int,
{
    if pos < 0 || pos >= s.len() {
        None
    } else if s[pos] == 41 {
        Some((Seq::empty(), pos + 1))
    } else {
        match spec_parse_type(s, pos) {
            Some((t, p2)) => if p2 <= pos || p2 > s.len() {
                None
            } else {
                match spec_parse_members(s, p2) {
                    Some((ts, p3)) => Some((seq![t] + ts, p3)),
                    None => None,
                }
            },
            None => None,
        }
    }
}

/// Parses a whole signature: a sequence of complete types filling `s` from
/// `pos` to the end.
pub open spec fn spec_parse_all(s: Seq<u8>, pos: int) -> Option<Seq<WireTypeV>>
    decreases s.len() - pos, 2int,
{
    if pos == s.len() {
        Some(Seq::empty())
    } else if pos < 0 || pos > s.len() {
        None
    } else {
        match spec_parse_type(s, pos) {
            Some((t, p2)) => if p2 <= pos || p2 > s.len() {
                None
            } else {
                match spec_parse_all(s, p2) {
                    Some(ts) => Some(seq![t] + ts),
                    None => None,
                }
            },
            None => None,
        }
    }
}

/// The types denoted by a well-formed signature byte string, if any.
pub open spec fn spec_parse_sig(s: Seq<u8>) -> Option<Seq<WireTypeV>> {
    spec_parse_all(s, 0)
}

/// A parsed type ends strictly past its start and within the bytes.
pub proof fn lemma_parse_type_bounds(s: Seq<u8>, pos: int)
    requires
        spec_parse_type(s, pos) is Some,
    ensures
        pos < spec_parse_type(s, pos).unwrap().1 <= s.len(),
    decreases s.len() - pos, 0int,
{
    let code = s[pos];
    if code == 97 {
        lemma_parse_type_bounds(s, pos + 1);
    } else if code == 40 {
        lemma_parse_members_bounds(s, pos + 1);
    } else if code == 123 {
        lemma_parse_type_bounds(s, pos + 1);
        let (k, p2) = spec_parse_type(s, pos + 1).unwrap();
        lemma_parse_type_bounds(s, p2);
    }
}

/// A parsed member list ends strictly past its start and within the bytes.
pub proof fn lemma_parse_members_bounds(s: Seq<u8>, pos: int)
    requires
        spec_parse_members(s, pos) is Some,
    ensures
        pos < spec_parse_members(s, pos).unwrap().1 <= s.len(),
    decreases s.len() - pos, 1int,
{
    if s[pos] == 41 {
    } else {
        let (t, p2) = spec_parse_type(s, pos).unwrap();
        lemma_parse_members_bounds(s, p2);
    }
}

/// A type parsed out of a byte string serializes back to exactly the bytes
/// it was parsed from.
pub proof fn lemma_parse_type_ser(s: Seq<u8>, pos: int)
    requires
        spec_parse_type(s, pos) is Some,
    ensures
        ({
            let (t, p) = spec_parse_type(s, pos).unwrap();
            ser_type(t) == s.subrange(pos, p)
        }),
    decreases s.len() - pos, 0int,
{
    let code = s[pos];
    let (t, p) = spec_parse_type(s, pos).unwrap();
    if code == 97 {
        lemma_parse_type_bounds(s, pos + 1);
        lemma_parse_type_ser(s, pos + 1);
        let (e, p2) = spec_parse_type(s, pos + 1).unwrap();
        assert(ser_type(e) == s.subrange(pos + 1, p2));
        assert(ser_type(t) == seq![97u8] + ser_type(e));
        assert(ser_type(t) =~= s.subrange(pos, p2));
    } else if code == 40 {
        lemma_parse_members_bounds(s, pos + 1);
        lemma_parse_members_ser(s, pos + 1);
        let (ts, p2) = spec_parse_members(s, pos + 1).unwrap();
        assert(ser_type(t) =~= seq![40u8] + (ser_types(ts) + seq![41u8]));
        assert(ser_type(t) =~= s.subrange(pos, p2));
    } else if code == 123 {
        lemma_parse_type_bounds(s, pos + 1);
        lemma_parse_type_ser(s, pos + 1);
        let (k, p2) = spec_parse_type(s, pos + 1).unwrap();
        lemma_parse_type_bounds(s, p2);
        lemma_parse_type_ser(s, p2);
        let (v, p3) = spec_parse_type(s, p2).unwrap();
        assert(ser_type(t) =~= s.subrange(pos, p3 + 1));
    } else {
        assert(ser_type(t) =~= s.subrange(pos, pos + 1));
    }
}

/// Parsed struct members, together with the closing mark, serialize back to
/// exactly the bytes they were parsed from.
pub proof fn lemma_parse_members_ser(s: Seq<u8>, pos: int)
    requires
        spec_parse_members(s, pos) is Some,
    ensures
        ({
            let (ts, p) = spec_parse_members(s, pos).unwrap();
            ser_types(ts) + seq![41u8] == s.subrange(pos, p)
        }),
    decreases s.len() - pos, 1int,
{
    let (ts, p) = spec_parse_members(s, pos).unwrap();
    if s[pos] == 41 {
        assert(ser_types(ts) + seq![41u8] =~= s.subrange(pos, pos + 1));
    } else {
        lemma_parse_type_bounds(s, pos);
        lemma_parse_type_ser(s, pos);
        let (t, p2) = spec_parse_type(s, pos).unwrap();
        lemma_parse_members_bounds(s, p2);
        lemma_parse_members_ser(s, p2);
        let (rest, p3) = spec_parse_members(s, p2).unwrap();
        assert((seq![t] + rest)[0] == t);
        assert((seq![t] + rest).subrange(1, (seq![t] + rest).len() as int) =~= rest);
        assert(ser_types(ts) == ser_type(t) + ser_types(rest));
        assert(ser_types(ts) + seq![41u8] =~= ser_type(t) + (ser_types(rest) + seq![41u8]));
        assert(ser_types(ts) + seq![41u8] =~= s.subrange(pos, p3));
    }
}

/// A sequence of types parsed up to the end of the bytes serializes back to
/// exactly those bytes.
pub proof fn lemma_parse_all_ser(s: Seq<u8>, pos: int)
    requires
        spec_parse_all(s, pos) is Some,
        0 <= pos <= s.len(),
    ensures
        ser_types(spec_parse_all(s, pos).unwrap()) == s.subrange(pos, s.len() as int),
    decreases s.len() - pos, 2int,
{
    let ts = spec_parse_all(s, pos).unwrap();
    if pos == s.len() {
        assert(ser_types(ts) =~= s.subrange(pos, s.len() as int));
    } else {
        lemma_parse_type_bounds(s, pos);
        lemma_parse_type_ser(s, pos);
        let (t, p2) = spec_parse_type(s, pos).unwrap();
        lemma_parse_all_ser(s, p2);
        let rest = spec_parse_all(s, p2).unwrap();
        assert((seq![t] + rest)[0] == t);
        assert((seq![t] + rest).subrange(1, (seq![t] + rest).len() as int) =~= rest);
        assert(ser_types(ts) == ser_type(t) + ser_types(rest));
        assert(ser_types(ts) =~= s.subrange(pos, s.len() as int));
    }
}

/// Round trip: any well-formed signature byte string equals the
/// serialization of what it parses to.
pub proof fn lemma_parse_round_trip(s: Seq<u8>)
    requires
        spec_parse_sig(s) is Some,
    ensures
        ser_types(spec_parse_sig(s).unwrap()) == s,
{
    lemma_parse_all_ser(s, 0);
    assert(s.subrange(0, s.len() as int) =~= s);
}

/// Parses one complete type starting at `pos`.
fn parse_type_at(s: &Vec<u8>, pos: usize) -> (r: Result<(WireType, usize), Error>)
    ensures
        match r {
            Ok((t, p)) => spec_parse_type(s@, pos as int) == Some((t@, p as int)),
            Err(e) => spec_parse_type(s@, pos as int) is None && e == Error::MalformedSignature,
        },
    decreases s@.len() - pos, 0int,
{
    if pos >= s.len() {
        return Err(Error::MalformedSignature);
    }
    let code = s[pos];
    if code == 97 {
        match parse_type_at(s, pos + 1) {
            Ok((e, p2)) => Ok((WireType::Array(Box::new(e)), p2)),
            Err(e) => Err(e),
        }
    } else if code == 40 {
        match parse_members_at(s, pos + 1) {
            Ok((ts, p2)) => Ok((WireType::Struct(ts), p2)),
            Err(e) => Err(e),
        }
    } else if code == 123 {
        let (k, p2) = parse_type_at(s, pos + 1)?;
        if p2 <= pos || p2 > s.len() {
            return Err(Error::MalformedSignature);
        }
        let (v, p3) = parse_type_at(s, p2)?;
        if p3 < s.len() && s[p3] == 125 {
            Ok((WireType::DictEntry(Box::new(k), Box::new(v)), p3 + 1))
        } else {
            Err(Error::MalformedSignature)
        }
    } else {
        let tag = ArgType::from_code(code);
        if tag.is_basic() || code == 118 {
            Ok((type_of_tag(tag), pos + 1))
        } else {
            Err(Error::MalformedSignature)
        }
    }
}

/// The non-container type denoted by a basic or variant tag.
fn type_of_tag(tag: ArgType) -> (r: WireType)
    requires
        tag.spec_is_basic() || tag == ArgType::Variant,
    ensures
        r@ == tag_type(tag),
{
    match tag {
        ArgType::Boolean => WireType::Boolean,
        ArgType::Byte => WireType::Byte,
        ArgType::Int16 => WireType::Int16,
        ArgType::Int32 => WireType::Int32,
        ArgType::Int64 => WireType::Int64,
        ArgType::Uint16 => WireType::Uint16,
        ArgType::Uint32 => WireType::Uint32,
        ArgType::Uint64 => WireType::Uint64,
        ArgType::Double => WireType::Double,
        ArgType::String => WireType::String,
        ArgType::ObjectPath => WireType::ObjectPath,
        ArgType::Signature => WireType::Signature,
        ArgType::UnixFd => WireType::UnixFd,
        _ => WireType::Variant,
    }
}

/// Parses struct members up to and including the closing mark.
fn parse_members_at(s: &Vec<u8>, pos: usize) -> (r: Result<(Vec<WireType>, usize), Error>)
    ensures
        match r {
            Ok((ts, p)) => spec_parse_members(s@, pos as int) == Some((type_views(ts@), p as int)),
            Err(e) => spec_parse_members(s@, pos as int) is None && e == Error::MalformedSignature,
        },
    decreases s@.len() - pos, 1int,
{
    if pos >= s.len() {
        return Err(Error::MalformedSignature);
    }
    if s[pos] == 41 {
        let ts: Vec<WireType> = Vec::new();
        proof {
            assert(type_views(ts@) =~= Seq::<WireTypeV>::empty());
        }
        return Ok((ts, pos + 1));
    }
    let (t, p2) = parse_type_at(s, pos)?;
    if p2 <= pos || p2 > s.len() {
        return Err(Error::MalformedSignature);
    }
    let (mut ts, p3) = parse_members_at(s, p2)?;
    let ghost rest = ts@;
    ts.insert(0, t);
    proof {
        assert(ts@ =~= seq![t] + rest);
        assert((seq![t] + rest)[0] == t);
        assert((seq![t] + rest).subrange(1, (seq![t] + rest).len() as int) =~= rest);
        assert(type_views(ts@) =~= seq![t@] + type_views(rest));
    }
    Ok((ts, p3))
}

/// Parses complete types up to the end of the bytes.
fn parse_all_at(s: &Vec<u8>, pos: usize) -> (r: Result<Vec<WireType>, Error>)
    ensures
        match r {
            Ok(ts) => spec_parse_all(s@, pos as int) == Some(type_views(ts@)),
            Err(e) => spec_parse_all(s@, pos as int) is None && e == Error::MalformedSignature,
        },
    decreases s@.len() - pos, 2int,
{
    if pos == s.len() {
        let ts: Vec<WireType> = Vec::new();
        proof {
            assert(type_views(ts@) =~= Seq::<WireTypeV>::empty());
        }
        return Ok(ts);
    }
    if pos > s.len() {
        return Err(Error::MalformedSignature);
    }
    let (t, p2) = parse_type_at(s, pos)?;
    if p2 <= pos || p2 > s.len() {
        return Err(Error::MalformedSignature);
    }
    let mut ts = parse_all_at(s, p2)?;
    let ghost rest = ts@;
    ts.insert(0, t);
    proof {
        assert(ts@ =~= seq![t] + rest);
        assert((seq![t] + rest)[0] == t);
        assert((seq![t] + rest).subrange(1, (seq![t] + rest).len() as int) =~= rest);
        assert(type_views(ts@) =~= seq![t@] + type_views(rest));
    }
    Ok(ts)
}

/// Every byte of a serialized type is an ASCII code.
pub proof fn lemma_ser_type_ascii(t: WireTypeV)
    ensures
        forall|i: int| 0 <= i < ser_type(t).len() ==> ser_type(t)[i] < 128,
    decreases t,
{
    match t {
        WireTypeV::Array(e) => {
            lemma_ser_type_ascii(*e);
            assert forall|i: int| 0 <= i < ser_type(t).len() implies ser_type(t)[i] < 128 by {
                if i >= 1 {
                    assert(ser_type(t)[i] == ser_type(*e)[i - 1]);
                }
            }
        },
        WireTypeV::Struct(ts) => {
            lemma_ser_types_ascii(ts);
            let mid = ser_types(ts);
            assert forall|i: int| 0 <= i < ser_type(t).len() implies ser_type(t)[i] < 128 by {
                assert(ser_type(t) == seq![40u8] + mid + seq![41u8]);
                if 1 <= i < 1 + mid.len() {
                    assert(ser_type(t)[i] == mid[i - 1]);
                }
            }
        },
        WireTypeV::DictEntry(k, v) => {
            lemma_ser_type_ascii(*k);
            lemma_ser_type_ascii(*v);
            let ks = ser_type(*k);
            let vs = ser_type(*v);
            assert forall|i: int| 0 <= i < ser_type(t).len() implies ser_type(t)[i] < 128 by {
                assert(ser_type(t) == seq![123u8] + ks + vs + seq![125u8]);
                if 1 <= i < 1 + ks.len() {
                    assert(ser_type(t)[i] == ks[i - 1]);
                } else if 1 + ks.len() <= i < 1 + ks.len() + vs.len() {
                    assert(ser_type(t)[i] == vs[i - 1 - ks.len()]);
                }
            }
        },
        _ => {
            assert(ser_type(t).len() == 1 && ser_type(t)[0] == t.tag().spec_code());
        },
    }
}

/// Every byte of a serialized type sequence is an ASCII code.
pub proof fn lemma_ser_types_ascii(ts: Seq<WireTypeV>)
    ensures
        forall|i: int| 0 <= i < ser_types(ts).len() ==> ser_types(ts)[i] < 128,
    decreases ts,
{
    if ts.len() > 0 {
        lemma_ser_type_ascii(ts[0]);
        lemma_ser_types_ascii(ts.subrange(1, ts.len() as int));
        let hd = ser_type(ts[0]);
        let tl = ser_types(ts.subrange(1, ts.len() as int));
        assert forall|i: int| 0 <= i < ser_types(ts).len() implies ser_types(ts)[i] < 128 by {
            assert(ser_types(ts) == hd + tl);
            if i >= hd.len() {
                assert(ser_types(ts)[i] == tl[i - hd.len()]);
            }
        }
    }
}

/// Appends the serialization of each type of a member list in order.
fn write_types(ts: &Vec<WireType>, out: &mut Vec<u8>)
    ensures
        final(out)@ == old(out)@ + ser_types(type_views(ts@)),
    decreases ts,
{
    let mut i: usize = 0;
    proof {
        lemma_type_views_len(ts@);
        assert(type_views(ts@).subrange(0, 0) =~= Seq::<WireTypeV>::empty());
        assert(out@ =~= old(out)@ + ser_types(type_views(ts@).subrange(0, 0)));
    }
    while i < ts.len()
        invariant
            i <= ts@.len(),
            type_views(ts@).len() == ts@.len(),
            out@ == old(out)@ + ser_types(type_views(ts@).subrange(0, i as int)),
        decreases ts@.len() - i,
    {
        write_type(&ts[i], out);
        proof {
            lemma_type_views_index(ts@, i as int);
            lemma_ser_types_push(type_views(ts@).subrange(0, i as int), ts@[i as int]@);
            assert(type_views(ts@).subrange(0, i as int).push(ts@[i as int]@) =~= type_views(
                ts@,
            ).subrange(0, i as int + 1));
            assert(out@ =~= old(out)@ + ser_types(type_views(ts@).subrange(0, i as int + 1)));
        }
        i = i + 1;
    }
    proof {
        assert(type_views(ts@).subrange(0, ts@.len() as int) =~= type_views(ts@));
    }
}

/// Serialization distributes over appending one type.
pub proof fn lemma_ser_types_push(ts: Seq<WireTypeV>, t: WireTypeV)
    ensures
        ser_types(ts.push(t)) == ser_types(ts) + ser_type(t),
    decreases ts.len(),
{
    if ts.len() == 0 {
        assert(ts.push(t)[0] == t);
        assert(ts.push(t).len() == 1);
        assert(ts.push(t).subrange(1, 1) =~= Seq::<WireTypeV>::empty());
        assert(ser_types(ts.push(t).subrange(1, 1)) =~= Seq::<u8>::empty());
        assert(ser_types(ts.push(t)) == ser_type(t) + ser_types(ts.push(t).subrange(1, 1)));
        assert(ser_types(ts) =~= Seq::<u8>::empty());
        assert(ser_types(ts.push(t)) =~= ser_types(ts) + ser_type(t));
    } else {
        assert(ts.push(t)[0] == ts[0]);
        assert(ts.push(t).subrange(1, ts.len() as int + 1) =~= ts.subrange(
            1,
            ts.len() as int,
        ).push(t));
        lemma_ser_types_push(ts.subrange(1, ts.len() as int), t);
        assert(ser_type(ts[0]) + (ser_types(ts.subrange(1, ts.len() as int)) + ser_type(t)) =~= (
        ser_type(ts[0]) + ser_types(ts.subrange(1, ts.len() as int))) + ser_type(t));
        assert(ser_types(ts.push(t)) =~= ser_types(ts) + ser_type(t));
    }
}

/// Appends the serialization of one type.
fn write_type(t: &WireType, out: &mut Vec<u8>)
    ensures
        final(out)@ == old(out)@ + ser_type(t@),
    decreases t,
{
    match t {
        WireType::Array(e) => {
            out.push(97);
            write_type(e, out);
            proof {
                assert(out@ =~= old(out)@ + ser_type(t@));
            }
        },
        WireType::Struct(ts) => {
            out.push(40);
            write_types(ts, out);
            out.push(41);
            proof {
                assert(out@ =~= old(out)@ + ser_type(t@));
            }
        },
        WireType::DictEntry(k, v) => {
            out.push(123);
            write_type(k, out);
            write_type(v, out);
            out.push(125);
            proof {
                assert(out@ =~= old(out)@ + ser_type(t@));
            }
        },
        _ => {
            let tag = t.tag();
            out.push(tag.code());
            proof {
                assert(out@ =~= old(out)@ + ser_type(t@));
            }
        },
    }
}

/// A parsed, well-formed signature: an ordered sequence of complete types.
/// Immutable once constructed.
#[derive(Debug, Eq, PartialEq)]
pub struct Signature {
    types: Vec<WireType>,
}

impl View for Signature {
    type V = Seq<WireTypeV>;

    closed spec fn view(&self) -> Seq<WireTypeV> {
        type_views(self.types@)
    }
}

impl Signature {
    /// A signature holding the given types.
    pub fn from_types(types: Vec<WireType>) -> (r: Signature)
        ensures
            r@ == type_views(types@),
    {
        Signature { types }
    }

    /// A signature of a single complete type.
    pub fn single(t: WireType) -> (r: Signature)
        ensures
            r@ =~= seq![t@],
    {
        let mut types: Vec<WireType> = Vec::new();
        types.push(t);
        proof {
            assert(types@.subrange(1, 1) =~= Seq::<WireType>::empty());
            lemma_type_views_len(types@.subrange(1, 1));
        }
        Signature { types }
    }

    /// How many complete types the signature holds.
    pub fn len(&self) -> (r: usize)
        ensures
            r == self@.len(),
    {
        proof {
            lemma_type_views_len(self.types@);
        }
        self.types.len()
    }

    /// A structurally equal copy.
    pub fn duplicate(&self) -> (r: Signature)
        ensures
            r@ == self@,
    {
        Signature { types: duplicate_types(&self.types) }
    }

    /// The type at the given index.
    pub fn type_at(&self, i: usize) -> (r: &WireType)
        requires
            i < self@.len(),
        ensures
            r@ == self@[i as int],
    {
        proof {
            lemma_type_views_len(self.types@);
            lemma_type_views_index(self.types@, i as int);
        }
        &self.types[i]
    }

    /// The types, as an owned list.
    pub fn to_types(&self) -> (r: Vec<WireType>)
        ensures
            type_views(r@) == self@,
    {
        duplicate_types(&self.types)
    }

    /// Parses a signature byte string.  Parsing succeeds exactly on
    /// well-formed signatures, and the parsed signature serializes back to
    /// the input bytes.
    pub fn parse(bytes: &Vec<u8>) -> (r: Result<Signature, Error>)
        ensures
            match r {
                Ok(sig) => spec_parse_sig(bytes@) == Some(sig@) && ser_types(sig@) == bytes@,
                Err(e) => spec_parse_sig(bytes@) is None && e == Error::MalformedSignature,
            },
    {
        match parse_all_at(bytes, 0) {
            Ok(ts) => {
                proof {
                    lemma_parse_round_trip(bytes@);
                }
                Ok(Signature { types: ts })
            },
            Err(e) => Err(e),
        }
    }

    /// The signature's byte string.
    pub fn to_bytes(&self) -> (r: Vec<u8>)
        ensures
            r@ == ser_types(self@),
    {
        let mut out: Vec<u8> = Vec::new();
        let mut i: usize = 0;
        proof {
            lemma_type_views_len(self.types@);
            assert(type_views(self.types@).subrange(0, 0) =~= Seq::<WireTypeV>::empty());
            assert(out@ =~= ser_types(type_views(self.types@).subrange(0, 0)));
        }
        while i < self.types.len()
            invariant
                i <= self.types@.len(),
                type_views(self.types@).len() == self.types@.len(),
                out@ == ser_types(type_views(self.types@).subrange(0, i as int)),
            decreases self.types@.len() - i,
        {
            write_type(&self.types[i], &mut out);
            proof {
                lemma_type_views_index(self.types@, i as int);
                lemma_ser_types_push(
                    type_views(self.types@).subrange(0, i as int),
                    self.types@[i as int]@,
                );
                assert(type_views(self.types@).subrange(0, i as int).push(self.types@[i as int]@)
                    =~= type_views(self.types@).subrange(0, i as int + 1));
            }
            i = i + 1;
        }
        proof {
            assert(type_views(self.types@).subrange(0, self.types@.len() as int) =~= type_views(
                self.types@,
            ));
        }
        out
    }

    /// The signature's type string, one ASCII character per serialized byte.
    pub fn to_string(&self) -> (r: String)
        ensures
            r@ == crate::text::ascii_chars_of(ser_types(self@)),
    {
        let bytes = self.to_bytes();
        proof {
            lemma_ser_types_ascii(self@);
            crate::text::lemma_ascii_utf8(bytes@);
        }
        match crate::text::utf8_to_string(bytes) {
            Some(s) => s,
            None => {
                proof {
                    assert(false);
                }
                String::new()
            },
        }
    }
}

impl Clone for Signature {
    fn clone(&self) -> (r: Self)
        ensures
            r@ == self@,
    {
        self.duplicate()
    }
}

} // verus!
