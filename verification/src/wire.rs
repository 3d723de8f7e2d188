//! The wire model: what a byte buffer denotes under a given type.
//!
//! Values are encoded in declaration order: fixed-size scalars little-endian
//! at their natural width (a boolean is a 32-bit word), strings and object
//! paths as a 32-bit length, the bytes, and a NUL, signatures as a one-byte
//! length, the bytes, and a NUL, arrays as a 32-bit byte length followed by
//! the element data, structures and dict entries as their members in order,
//! and variants as an embedded signature of exactly one complete type
//! followed by a value of that type.
//!
//! [`read_of`] is the full decode of one value: it validates framing,
//! text encoding, and (for arrays) that the elements exactly fill the
//! declared extent.  [`skip_of`] is the weaker structural traversal used to
//! advance past a value; whenever a value reads successfully, skipping it
//! lands at the same position ([`lemma_read_skip`]).

use vstd::prelude::*;

use vstd::bytes::spec_u16_from_le_bytes;
use vstd::bytes::spec_u32_from_le_bytes;
use vstd::bytes::spec_u64_from_le_bytes;
use vstd::utf8::decode_utf8;
use vstd::utf8::valid_utf8;

use crate::signature::spec_parse_sig;
use crate::signature::WireTypeV;

verus! {

/// A decoded argument as a mathematical value: the model of a dynamic value.
pub enum AnyVal {
    Boolean(bool),
    Byte(u8),
    Int16(i16),
    Int32(i32),
    Int64(i64),
    Uint16(u16),
    Uint32(u32),
    Uint64(u64),
    /// The raw IEEE 754 bits of a double-precision number.
    Double(u64),
    String(Seq<char>),
    ObjectPath(Seq<char>),
    Signature(Seq<WireTypeV>),
    UnixFd(u32),
    /// The elements in order, and the declared element type.
    Array(Seq<AnyVal>, WireTypeV),
    Struct(Seq<AnyVal>),
    Variant(Box<AnyVal>),
    DictEntry(Box<AnyVal>, Box<AnyVal>),
}

impl AnyVal {
    /// The wire type that this value inhabits.
    pub open spec fn typ(self) -> WireTypeV
        decreases self,
    {
        match self {
            AnyVal::Boolean(_) => WireTypeV::Boolean,
            AnyVal::Byte(_) => WireTypeV::Byte,
            AnyVal::Int16(_) => WireTypeV::Int16,
            AnyVal::Int32(_) => WireTypeV::Int32,
            AnyVal::Int64(_) => WireTypeV::Int64,
            AnyVal::Uint16(_) => WireTypeV::Uint16,
            AnyVal::Uint32(_) => WireTypeV::Uint32,
            AnyVal::Uint64(_) => WireTypeV::Uint64,
            AnyVal::Double(_) => WireTypeV::Double,
            AnyVal::String(_) => WireTypeV::String,
            AnyVal::ObjectPath(_) => WireTypeV::ObjectPath,
            AnyVal::Signature(_) => WireTypeV::Signature,
            AnyVal::UnixFd(_) => WireTypeV::UnixFd,
            AnyVal::Array(_, et) => WireTypeV::Array(Box::new(et)),
            AnyVal::Struct(vs) => WireTypeV::Struct(AnyVal::typ_list(vs)),
            AnyVal::Variant(_) => WireTypeV::Variant,
            AnyVal::DictEntry(k, v) => WireTypeV::DictEntry(
                Box::new(k.typ()),
                Box::new(v.typ()),
            ),
        }
    }

    /// The wire types of a sequence of values, in order.
    pub open spec fn typ_list(vs: Seq<AnyVal>) -> Seq<WireTypeV>
        decreases vs,
    {
        if vs.len() == 0 {
            Seq::empty()
        } else {
            seq![vs[0].typ()] + AnyVal::typ_list(vs.subrange(1, vs.len() as int))
        }
    }
}

pub broadcast proof fn lemma_typ_list_index(vs: Seq<AnyVal>, i: int)
    requires
        0 <= i < vs.len(),
    ensures
        #[trigger] AnyVal::typ_list(vs)[i] == vs[i].typ(),
        AnyVal::typ_list(vs).len() == vs.len(),
    decreases vs.len(),
{
    if vs.len() > 0 {
        lemma_typ_list_len(vs);
        if i > 0 {
            lemma_typ_list_index(vs.subrange(1, vs.len() as int), i - 1);
        }
    }
}

pub broadcast proof fn lemma_typ_list_len(vs: Seq<AnyVal>)
    ensures
        #[trigger] AnyVal::typ_list(vs).len() == vs.len(),
    decreases vs.len(),
{
    if vs.len() > 0 {
        lemma_typ_list_len(vs.subrange(1, vs.len() as int));
    }
}

/// The signed 16-bit value whose two's-complement bits are `w`.
pub open spec fn i16_of_bits(w: u16) -> i16 {
    if w < 0x8000 {
        w as i16
    } else {
        (w - 0x10000) as i16
    }
}

/// The signed 32-bit value whose two's-complement bits are `w`.
pub open spec fn i32_of_bits(w: u32) -> i32 {
    if w < 0x80000000 {
        w as i32
    } else {
        (w - 0x100000000) as i32
    }
}

/// The signed 64-bit value whose two's-complement bits are `w`.
pub open spec fn i64_of_bits(w: u64) -> i64 {
    if w < 0x8000000000000000 {
        w as i64
    } else {
        (w - 0x10000000000000000) as i64
    }
}

/// The little-endian 16-bit word at `pos`.
pub open spec fn le16_at(s: Seq<u8>, pos: int) -> u16 {
    spec_u16_from_le_bytes(s.subrange(pos, pos + 2))
}

/// The little-endian 32-bit word at `pos`.
pub open spec fn le32_at(s: Seq<u8>, pos: int) -> u32 {
    spec_u32_from_le_bytes(s.subrange(pos, pos + 4))
}

/// The little-endian 64-bit word at `pos`.
pub open spec fn le64_at(s: Seq<u8>, pos: int) -> u64 {
    spec_u64_from_le_bytes(s.subrange(pos, pos + 8))
}

/// The string payload at `pos` within `end`: a 32-bit length, the content
/// bytes (which must be valid UTF-8), and a NUL terminator.
pub open spec fn read_str(s: Seq<u8>, pos: int, end: int) -> Option<(Seq<char>, int)> {
    if pos < 0 || pos + 4 > end || end > s.len() {
        None
    } else {
        let n = le32_at(s, pos) as int;
        let e2 = pos + 4 + n + 1;
        if e2 <= end && s[e2 - 1] == 0 {
            let content = s.subrange(pos + 4, pos + 4 + n);
            if valid_utf8(content) {
                Some((decode_utf8(content), e2))
            } else {
                None
            }
        } else {
            None
        }
    }
}

/// The string frame at `pos`: as [`read_str`], but without decoding or
/// validating the content bytes.
pub open spec fn skip_str(s: Seq<u8>, pos: int, end: int) -> Option<int> {
    if pos < 0 || pos + 4 > end || end > s.len() {
        None
    } else {
        let n = le32_at(s, pos) as int;
        let e2 = pos + 4 + n + 1;
        if e2 <= end && s[e2 - 1] == 0 {
            Some(e2)
        } else {
            None
        }
    }
}

/// The signature payload at `pos` within `end`: a one-byte length, the
/// signature bytes (which must be well-formed), and a NUL terminator.
pub open spec fn read_sig(s: Seq<u8>, pos: int, end: int) -> Option<(Seq<WireTypeV>, int)> {
    if pos < 0 || pos + 1 > end || end > s.len() {
        None
    } else {
        let n = s[pos] as int;
        let e2 = pos + 1 + n + 1;
        if e2 <= end && s[e2 - 1] == 0 {
            match spec_parse_sig(s.subrange(pos + 1, pos + 1 + n)) {
                Some(ts) => Some((ts, e2)),
                None => None,
            }
        } else {
            None
        }
    }
}

/// The signature frame at `pos`: as [`read_sig`], but without parsing the
/// signature bytes.
pub open spec fn skip_sig(s: Seq<u8>, pos: int, end: int) -> Option<int> {
    if pos < 0 || pos + 1 > end || end > s.len() {
        None
    } else {
        let n = s[pos] as int;
        let e2 = pos + 1 + n + 1;
        if e2 <= end && s[e2 - 1] == 0 {
            Some(e2)
        } else {
            None
        }
    }
}

/// Decodes the value of type `t` at `pos`, bounded by `end`; yields the value
/// and the position one past it.
pub open spec fn read_of(s: Seq<u8>, pos: int, end: int, t: WireTypeV) -> Option<(AnyVal, int)>
    decreases end - pos, t.size(),
{
    if pos < 0 || pos > end || end > s.len() {
        None
    } else {
        match t {
            WireTypeV::Byte => if pos + 1 <= end {
                Some((AnyVal::Byte(s[pos]), pos + 1))
            } else {
                None
            },
            WireTypeV::Boolean => if pos + 4 <= end {
                Some((AnyVal::Boolean(le32_at(s, pos) != 0), pos + 4))
            } else {
                None
            },
            WireTypeV::Int16 => if pos + 2 <= end {
                Some((AnyVal::Int16(i16_of_bits(le16_at(s, pos))), pos + 2))
            } else {
                None
            },
            WireTypeV::Uint16 => if pos + 2 <= end {
                Some((AnyVal::Uint16(le16_at(s, pos)), pos + 2))
            } else {
                None
            },
            WireTypeV::Int32 => if pos + 4 <= end {
                Some((AnyVal::Int32(i32_of_bits(le32_at(s, pos))), pos + 4))
            } else {
                None
            },
            WireTypeV::Uint32 => if pos + 4 <= end {
                Some((AnyVal::Uint32(le32_at(s, pos)), pos + 4))
            } else {
                None
            },
            WireTypeV::Int64 => if pos + 8 <= end {
                Some((AnyVal::Int64(i64_of_bits(le64_at(s, pos))), pos + 8))
            } else {
                None
            },
            WireTypeV::Uint64 => if pos + 8 <= end {
                Some((AnyVal::Uint64(le64_at(s, pos)), pos + 8))
            } else {
                None
            },
            WireTypeV::Double => if pos + 8 <= end {
                Some((AnyVal::Double(le64_at(s, pos)), pos + 8))
            } else {
                None
            },
            WireTypeV::UnixFd => if pos + 4 <= end {
                Some((AnyVal::UnixFd(le32_at(s, pos)), pos + 4))
            } else {
                None
            },
            WireTypeV::String => match read_str(s, pos, end) {
                Some((cs, p2)) => Some((AnyVal::String(cs), p2)),
                None => None,
            },
            WireTypeV::ObjectPath => match read_str(s, pos, end) {
                Some((cs, p2)) => Some((AnyVal::ObjectPath(cs), p2)),
                None => None,
            },
            WireTypeV::Signature => match read_sig(s, pos, end) {
                Some((ts, p2)) => Some((AnyVal::Signature(ts), p2)),
                None => None,
            },
            WireTypeV::Variant => match read_sig(s, pos, end) {
                Some((ts, p2)) => if ts.len() == 1 && pos < p2 <= end {
                    match read_of(s, p2, end, ts[0]) {
                        Some((v, p3)) => Some((AnyVal::Variant(Box::new(v)), p3)),
                        None => None,
                    }
                } else {
                    None
                },
                None => None,
            },
            WireTypeV::Array(et) => if pos + 4 <= end {
                let n = le32_at(s, pos) as int;
                let e2 = pos + 4 + n;
                if e2 <= end {
                    match read_elems(s, pos + 4, e2, *et) {
                        Some(vs) => Some((AnyVal::Array(vs, *et), e2)),
                        None => None,
                    }
                } else {
                    None
                }
            } else {
                None
            },
            WireTypeV::Struct(ts) => match read_list(s, pos, end, ts) {
                Some((vs, p2)) => Some((AnyVal::Struct(vs), p2)),
                None => None,
            },
            WireTypeV::DictEntry(k, v) => match read_of(s, pos, end, *k) {
                Some((kv, p2)) => if pos <= p2 <= end {
                    match read_of(s, p2, end, *v) {
                        Some((vv, p3)) => Some((
                            AnyVal::DictEntry(Box::new(kv), Box::new(vv)),
                            p3,
                        )),
                        None => None,
                    }
                } else {
                    None
                },
                None => None,
            },
        }
    }
}

/// Decodes one value per member type, in order.
pub open spec fn read_list(s: Seq<u8>, pos: int, end: int, ts: Seq<WireTypeV>) -> Option<
    (Seq<AnyVal>, int),
>
    decreases end - pos, WireTypeV::size_list(ts),
{
    if pos < 0 || pos > end || end > s.len() {
        None
    } else if ts.len() == 0 {
        Some((Seq::empty(), pos))
    } else {
        match read_of(s, pos, end, ts[0]) {
            Some((v, p2)) => if pos <= p2 <= end {
                match read_list(s, p2, end, ts.subrange(1, ts.len() as int)) {
                    Some((vs, p3)) => Some((seq![v] + vs, p3)),
                    None => None,
                }
            } else {
                None
            },
            None => None,
        }
    }
}

/// Decodes elements of type `et` until the extent `end` is exactly filled.
/// Each element must occupy at least one byte.
pub open spec fn read_elems(s: Seq<u8>, pos: int, end: int, et: WireTypeV) -> Option<Seq<AnyVal>>
    decreases end - pos, et.size() + 1,
{
    if pos == end {
        Some(Seq::empty())
    } else if pos < 0 || pos > end || end > s.len() {
        None
    } else {
        match read_of(s, pos, end, et) {
            Some((v, p2)) => if pos < p2 <= end {
                match read_elems(s, p2, end, et) {
                    Some(vs) => Some(seq![v] + vs),
                    None => None,
                }
            } else {
                None
            },
            None => None,
        }
    }
}

/// Advances past the value of type `t` at `pos`, validating only framing.
pub open spec fn skip_of(s: Seq<u8>, pos: int, end: int, t: WireTypeV) -> Option<int>
    decreases end - pos, t.size(),
{
    if pos < 0 || pos > end || end > s.len() {
        None
    } else {
        match t {
            WireTypeV::Byte => if pos + 1 <= end {
                Some(pos + 1)
            } else {
                None
            },
            WireTypeV::Int16 | WireTypeV::Uint16 => if pos + 2 <= end {
                Some(pos + 2)
            } else {
                None
            },
            WireTypeV::Boolean | WireTypeV::Int32 | WireTypeV::Uint32 | WireTypeV::UnixFd => if pos
                + 4 <= end {
                Some(pos + 4)
            } else {
                None
            },
            WireTypeV::Int64 | WireTypeV::Uint64 | WireTypeV::Double => if pos + 8 <= end {
                Some(pos + 8)
            } else {
                None
            },
            WireTypeV::String | WireTypeV::ObjectPath => skip_str(s, pos, end),
            WireTypeV::Signature => skip_sig(s, pos, end),
            WireTypeV::Variant => match read_sig(s, pos, end) {
                Some((ts, p2)) => if ts.len() == 1 && pos < p2 <= end {
                    skip_of(s, p2, end, ts[0])
                } else {
                    None
                },
                None => None,
            },
            WireTypeV::Array(_) => if pos + 4 <= end {
                let n = le32_at(s, pos) as int;
                let e2 = pos + 4 + n;
                if e2 <= end {
                    Some(e2)
                } else {
                    None
                }
            } else {
                None
            },
            WireTypeV::Struct(ts) => skip_list(s, pos, end, ts),
            WireTypeV::DictEntry(k, v) => match skip_of(s, pos, end, *k) {
                Some(p2) => if pos <= p2 <= end {
                    skip_of(s, p2, end, *v)
                } else {
                    None
                },
                None => None,
            },
        }
    }
}

/// Advances past one value per member type, in order.
pub open spec fn skip_list(s: Seq<u8>, pos: int, end: int, ts: Seq<WireTypeV>) -> Option<int>
    decreases end - pos, WireTypeV::size_list(ts),
{
    if pos < 0 || pos > end || end > s.len() {
        None
    } else if ts.len() == 0 {
        Some(pos)
    } else {
        match skip_of(s, pos, end, ts[0]) {
            Some(p2) => if pos <= p2 <= end {
                skip_list(s, p2, end, ts.subrange(1, ts.len() as int))
            } else {
                None
            },
            None => None,
        }
    }
}

/// Unfolds a member-list decode by one element: how the list decode at
/// `pos` relates to the decode of its first member and of the rest.
pub proof fn lemma_read_list_step(s: Seq<u8>, pos: int, end: int, ts: Seq<WireTypeV>)
    requires
        0 <= pos <= end <= s.len(),
        ts.len() > 0,
    ensures
        match read_of(s, pos, end, ts[0]) {
            Some((v0, p1)) => {
                &&& pos <= p1 <= end
                &&& v0.typ() == ts[0]
                &&& skip_of(s, pos, end, ts[0]) == Some(p1)
                &&& match read_list(s, p1, end, ts.subrange(1, ts.len() as int)) {
                    Some(pr) => read_list(s, pos, end, ts) == Some((seq![v0] + pr.0, pr.1)),
                    None => read_list(s, pos, end, ts) is None,
                }
            },
            None => read_list(s, pos, end, ts) is None,
        },
{
    match read_of(s, pos, end, ts[0]) {
        Some((v0, p1)) => {
            lemma_read_skip(s, pos, end, ts[0]);
        },
        None => {
        },
    }
}

/// A successful read stays within its bounds, yields a value of the declared
/// type, and skipping lands at the same end position.
pub proof fn lemma_read_skip(s: Seq<u8>, pos: int, end: int, t: WireTypeV)
    requires
        read_of(s, pos, end, t) is Some,
    ensures
        ({
            let (v, p2) = read_of(s, pos, end, t).unwrap();
            &&& pos <= p2 <= end
            &&& v.typ() == t
            &&& skip_of(s, pos, end, t) == Some(p2)
        }),
    decreases end - pos, t.size(),
{
    let (v, p2) = read_of(s, pos, end, t).unwrap();
    match t {
        WireTypeV::Variant => {
            let (ts, pm) = read_sig(s, pos, end).unwrap();
            lemma_read_skip(s, pm, end, ts[0]);
        },
        WireTypeV::Array(et) => {
            let n = le32_at(s, pos) as int;
            lemma_read_elems_types(s, pos + 4, pos + 4 + n, *et);
        },
        WireTypeV::Struct(ts) => {
            lemma_read_skip_list(s, pos, end, ts);
            let (vs, p3) = read_list(s, pos, end, ts).unwrap();
            assert(v.typ() == WireTypeV::Struct(AnyVal::typ_list(vs)));
        },
        WireTypeV::DictEntry(k, vt) => {
            lemma_read_skip(s, pos, end, *k);
            let (kv, pm) = read_of(s, pos, end, *k).unwrap();
            lemma_read_skip(s, pm, end, *vt);
        },
        _ => {
        },
    }
}

/// As [`lemma_read_skip`], for member lists.
pub proof fn lemma_read_skip_list(s: Seq<u8>, pos: int, end: int, ts: Seq<WireTypeV>)
    requires
        read_list(s, pos, end, ts) is Some,
    ensures
        ({
            let (vs, p2) = read_list(s, pos, end, ts).unwrap();
            &&& pos <= p2 <= end
            &&& AnyVal::typ_list(vs) == ts
            &&& skip_list(s, pos, end, ts) == Some(p2)
        }),
    decreases end - pos, WireTypeV::size_list(ts),
{
    let (vs, p2) = read_list(s, pos, end, ts).unwrap();
    if ts.len() == 0 {
        assert(AnyVal::typ_list(vs) =~= ts);
    } else {
        lemma_read_skip(s, pos, end, ts[0]);
        let (v, pm) = read_of(s, pos, end, ts[0]).unwrap();
        lemma_read_skip_list(s, pm, end, ts.subrange(1, ts.len() as int));
        let (rest, p3) = read_list(s, pm, end, ts.subrange(1, ts.len() as int)).unwrap();
        assert((seq![v] + rest)[0] == v);
        assert((seq![v] + rest).subrange(1, (seq![v] + rest).len() as int) =~= rest);
        assert(AnyVal::typ_list(vs) =~= ts);
    }
}

/// Every element read from an array extent has the declared element type,
/// and the extent is exactly filled.
pub proof fn lemma_read_elems_types(s: Seq<u8>, pos: int, end: int, et: WireTypeV)
    requires
        read_elems(s, pos, end, et) is Some,
    ensures
        ({
            let vs = read_elems(s, pos, end, et).unwrap();
            forall|i: int| 0 <= i < vs.len() ==> (#[trigger] vs[i]).typ() == et
        }),
    decreases end - pos, et.size() + 1,
{
    if pos == end {
    } else {
        lemma_read_skip(s, pos, end, et);
        let (v, p2) = read_of(s, pos, end, et).unwrap();
        lemma_read_elems_types(s, p2, end, et);
        let rest = read_elems(s, p2, end, et).unwrap();
        let vs = read_elems(s, pos, end, et).unwrap();
        assert(vs == seq![v] + rest);
        assert forall|i: int| 0 <= i < vs.len() implies (#[trigger] vs[i]).typ() == et by {
            if i > 0 {
                assert(vs[i] == rest[i - 1]);
            } else {
                assert(vs[0] == v);
            }
        }
    }
}

} // verus!
