//! The traversal cursor over a message's encoded arguments.
//!
//! A [`Reader`] is a forward-only cursor over one container level: the
//! top-level argument list of a [`Message`], or, via [`Reader::recurse`],
//! the members of a container.  Its mathematical state is a [`ReaderModel`]:
//! the underlying bytes, the current position, the bound of this level, and
//! the level itself (a member list with an index, or the element type of an
//! array).  Typed extraction goes through the [`Readable`] contract.

use vstd::prelude::*;

use vstd::bytes::u16_from_le_bytes;
use vstd::bytes::u32_from_le_bytes;
use vstd::bytes::u64_from_le_bytes;
use vstd::slice::slice_subrange;

use crate::arg_type::ArgType;
use crate::message::Message;
use crate::values::Any;
use crate::signature::lemma_type_views_index;
use crate::signature::lemma_type_views_len;
use crate::signature::type_views;
use crate::signature::Signature;
use crate::signature::WireType;
use crate::signature::WireTypeV;
use crate::wire::le16_at;
use crate::wire::le32_at;
use crate::wire::le64_at;
use crate::wire::read_of;
use crate::wire::read_sig;
use crate::wire::skip_list;
use crate::wire::skip_of;
use crate::wire::AnyVal;

verus! {

/// A failure of signature parsing or of typed decoding.
///
/// Every decode failure is reported through this type; end of sequence is
/// signalled by `Reader::has_next`, never by an error.
#[derive(Clone, Debug, Eq, PartialEq)]
pub enum Error {
    /// A structurally invalid type string.
    MalformedSignature,
    /// The end-of-sequence sentinel stood where the dynamic decode expected
    /// a real value.
    InvalidType,
    /// A string-typed payload was not valid UTF-8.
    Utf8Error,
    /// The container was exhausted, or the wire framing ran past the
    /// available bytes, before a value of the expected signature could be
    /// read.
    UnexpectedEnd { expected: Signature },
    /// A container held more members than the target arity expects.
    TrailingType { actual: Option<Signature> },
    /// The wire type is incompatible with the requested target shape.
    UnexpectedType { expected: Signature, actual: Option<Signature> },
}

/// One container level, as the cursor sees it.
enum Level {
    /// A fixed member list (the top level, a struct, a dict entry, or the
    /// one value of a variant), with the index of the current member.
    Fields { types: Vec<WireType>, idx: usize },
    /// The elements of an array, all of one type, up to this level's bound.
    Elements { elem: WireType },
    /// A level whose framing could not be read; it has nothing to yield.
    Broken,
}

/// True when `e` is an `UnexpectedType` error carrying the given expected
/// signature and the given actual signature.
pub open spec fn is_unexpected_type_err(
    e: Error,
    expected: Seq<WireTypeV>,
    actual_sig: Seq<WireTypeV>,
) -> bool {
    match e {
        Error::UnexpectedType { expected: ex, actual } => {
            &&& ex@ == expected
            &&& actual is Some
            &&& actual.unwrap()@ == actual_sig
        },
        _ => false,
    }
}

/// True when `e` is an `UnexpectedEnd` error carrying the given expected
/// signature.
pub open spec fn is_unexpected_end_err(e: Error, expected: Seq<WireTypeV>) -> bool {
    match e {
        Error::UnexpectedEnd { expected: ex } => ex@ == expected,
        _ => false,
    }
}

/// True when `e` is a `TrailingType` error carrying the given remaining
/// signature.
pub open spec fn is_trailing_err(e: Error, remaining: Seq<WireTypeV>) -> bool {
    match e {
        Error::TrailingType { actual } => actual is Some && actual.unwrap()@ == remaining,
        _ => false,
    }
}

/// The error that extraction of `T` yields once the level is exhausted: the
/// sentinel where a real value was expected for a target that takes any
/// tag, and the exhausted-container error, carrying the expected signature,
/// for every other target.
pub open spec fn end_of_input_err<T: Readable>(e: Error) -> bool {
    if T::compat(ArgType::Invalid) {
        e == Error::InvalidType
    } else {
        is_unexpected_end_err(e, seq![T::expected_type()])
    }
}

/// The model of one container level.
pub enum LevelModel {
    Fields(Seq<WireTypeV>, int),
    Elements(WireTypeV),
    Broken,
}

/// The mathematical state of a cursor.
pub struct ReaderModel {
    /// The whole message body.
    pub data: Seq<u8>,
    /// The current read position.
    pub pos: int,
    /// The bound of this level: no value of this level reaches past it.
    pub limit: int,
    /// The level itself.
    pub level: LevelModel,
}

impl ReaderModel {
    pub open spec fn wf(self) -> bool {
        &&& 0 <= self.pos <= self.limit <= self.data.len()
        &&& match self.level {
            LevelModel::Fields(ts, idx) => 0 <= idx <= ts.len(),
            _ => true,
        }
    }

    /// The type of the current argument, if any remains.
    pub open spec fn head_type(self) -> Option<WireTypeV> {
        match self.level {
            LevelModel::Fields(ts, idx) => if idx < ts.len() {
                Some(ts[idx])
            } else {
                None
            },
            LevelModel::Elements(et) => if self.pos < self.limit {
                Some(et)
            } else {
                None
            },
            LevelModel::Broken => None,
        }
    }

    pub open spec fn has_next(self) -> bool {
        self.head_type() is Some
    }

    /// The tag at the current position; `Invalid` at end of sequence.
    pub open spec fn head_tag(self) -> ArgType {
        match self.head_type() {
            Some(t) => t.tag(),
            None => ArgType::Invalid,
        }
    }

    /// The signature of the remaining arguments at this level.  Inside an
    /// array the element count is not part of the signature, so the
    /// remainder is the one element type.
    pub open spec fn remaining(self) -> Seq<WireTypeV> {
        match self.level {
            LevelModel::Fields(ts, idx) => ts.subrange(idx, ts.len() as int),
            LevelModel::Elements(et) => if self.pos < self.limit {
                seq![et]
            } else {
                Seq::empty()
            },
            LevelModel::Broken => Seq::empty(),
        }
    }

    /// The decode of the current argument: its value and end position.
    pub open spec fn head_read(self) -> Option<(AnyVal, int)> {
        match self.head_type() {
            Some(t) => read_of(self.data, self.pos, self.limit, t),
            None => None,
        }
    }

    /// The state after advancing past the current argument.  Advancing uses
    /// the structural skip; if even the framing cannot be read, the level is
    /// exhausted, so that iteration always moves forward.
    pub open spec fn stepped(self) -> ReaderModel {
        match self.head_type() {
            None => self,
            Some(t) => match self.level {
                LevelModel::Fields(ts, idx) => match skip_of(self.data, self.pos, self.limit, t) {
                    Some(p2) => ReaderModel {
                        pos: p2,
                        level: LevelModel::Fields(ts, idx + 1),
                        ..self
                    },
                    None => ReaderModel { level: LevelModel::Fields(ts, ts.len() as int), ..self },
                },
                LevelModel::Elements(_) => match skip_of(self.data, self.pos, self.limit, t) {
                    Some(p2) => ReaderModel { pos: p2, ..self },
                    None => ReaderModel { pos: self.limit, ..self },
                },
                LevelModel::Broken => self,
            },
        }
    }

    /// The state of the child cursor created at the current (container)
    /// position.  A container whose framing cannot be read yields a broken
    /// child, which has nothing to yield.
    pub open spec fn recursed(self) -> ReaderModel {
        let broken = ReaderModel { pos: self.pos, limit: self.pos, level: LevelModel::Broken, ..self };
        match self.head_type() {
            Some(WireTypeV::Struct(ts)) => ReaderModel {
                level: LevelModel::Fields(ts, 0),
                ..self
            },
            Some(WireTypeV::DictEntry(k, v)) => ReaderModel {
                level: LevelModel::Fields(seq![*k, *v], 0),
                ..self
            },
            Some(WireTypeV::Array(et)) => if self.pos + 4 <= self.limit && self.pos + 4 + le32_at(
                self.data,
                self.pos,
            ) <= self.limit {
                ReaderModel {
                    pos: self.pos + 4,
                    limit: self.pos + 4 + le32_at(self.data, self.pos) as int,
                    level: LevelModel::Elements(*et),
                    ..self
                }
            } else {
                broken
            },
            Some(WireTypeV::Variant) => match read_sig(self.data, self.pos, self.limit) {
                Some((ts, p2)) => if ts.len() == 1 && self.pos < p2 <= self.limit {
                    ReaderModel { pos: p2, level: LevelModel::Fields(ts, 0), ..self }
                } else {
                    broken
                },
                None => broken,
            },
            _ => broken,
        }
    }
}

/// A forward-only cursor over one container level of a message's arguments.
pub struct Reader<'a> {
    message: &'a Message,
    pos: usize,
    limit: usize,
    level: Level,
}

impl<'a> View for Reader<'a> {
    type V = ReaderModel;

    closed spec fn view(&self) -> ReaderModel {
        ReaderModel {
            data: self.message.spec_body(),
            pos: self.pos as int,
            limit: self.limit as int,
            level: match self.level {
                Level::Fields { types, idx } => LevelModel::Fields(type_views(types@), idx as int),
                Level::Elements { elem } => LevelModel::Elements(elem@),
                Level::Broken => LevelModel::Broken,
            },
        }
    }
}

impl<'a> Reader<'a> {
    /// A cursor positioned at the start of the message's top-level
    /// argument list.
    pub fn from_message(message: &'a Message) -> (r: Reader<'a>)
        ensures
            r@.wf(),
            r@.data == message.spec_body(),
            r@.pos == 0,
            r@.limit == message.spec_body().len(),
            r@.level == LevelModel::Fields(message.spec_types(), 0),
    {
        let limit = message.body().len();
        let types = message.signature().to_types();
        Reader { message, pos: 0, limit, level: Level::Fields { types, idx: 0 } }
    }

    /// True while an argument remains at this level.
    pub fn has_next(&self) -> (r: bool)
        ensures
            r == self@.has_next(),
    {
        match &self.level {
            Level::Fields { types, idx } => {
                proof {
                    lemma_type_views_len(types@);
                }
                *idx < types.len()
            },
            Level::Elements { .. } => self.pos < self.limit,
            Level::Broken => false,
        }
    }

    /// The wire type at the current position, `Invalid` at end of sequence.
    pub fn arg_type(&self) -> (r: ArgType)
        ensures
            r == self@.head_tag(),
    {
        match &self.level {
            Level::Fields { types, idx } => {
                proof {
                    lemma_type_views_len(types@);
                }
                if *idx < types.len() {
                    proof {
                        lemma_type_views_index(types@, *idx as int);
                    }
                    types[*idx].tag()
                } else {
                    ArgType::Invalid
                }
            },
            Level::Elements { elem } => {
                if self.pos < self.limit {
                    elem.tag()
                } else {
                    ArgType::Invalid
                }
            },
            Level::Broken => ArgType::Invalid,
        }
    }

    /// The element type of the array at the current position; `Invalid`
    /// when the current position is not an array.
    pub fn element_type(&self) -> (r: ArgType)
        ensures
            r == match self@.head_type() {
                Some(WireTypeV::Array(et)) => et.tag(),
                _ => ArgType::Invalid,
            },
    {
        match &self.level {
            Level::Fields { types, idx } => {
                proof {
                    lemma_type_views_len(types@);
                }
                if *idx < types.len() {
                    proof {
                        lemma_type_views_index(types@, *idx as int);
                    }
                    match &types[*idx] {
                        WireType::Array(e) => e.tag(),
                        _ => ArgType::Invalid,
                    }
                } else {
                    ArgType::Invalid
                }
            },
            Level::Elements { elem } => {
                if self.pos < self.limit {
                    match elem {
                        WireType::Array(e) => e.tag(),
                        _ => ArgType::Invalid,
                    }
                } else {
                    ArgType::Invalid
                }
            },
            Level::Broken => ArgType::Invalid,
        }
    }

    /// The signature of the remaining unconsumed arguments at this level;
    /// `None` at end of sequence.
    pub fn signature(&self) -> (r: Option<Signature>)
        ensures
            match r {
                Some(sig) => self@.has_next() && sig@ == self@.remaining(),
                None => !self@.has_next(),
            },
    {
        match &self.level {
            Level::Fields { types, idx } => {
                proof {
                    lemma_type_views_len(types@);
                }
                if *idx < types.len() {
                    let idx0 = *idx;
                    let mut rest: Vec<WireType> = Vec::new();
                    let mut i: usize = idx0;
                    while i < types.len()
                        invariant
                            idx0 <= i <= types@.len(),
                            rest@.len() == i - idx0,
                            forall|j: int|
                                0 <= j < rest@.len() ==> (#[trigger] rest@[j])@ == types@[j
                                    + idx0]@,
                        decreases types@.len() - i,
                    {
                        let t = types[i].duplicate();
                        rest.push(t);
                        i = i + 1;
                    }
                    proof {
                        let ts = type_views(types@);
                        lemma_type_views_len(types@);
                        lemma_type_views_len(rest@);
                        assert forall|j: int| 0 <= j < rest@.len() implies #[trigger] type_views(
                            rest@,
                        )[j] == ts.subrange(idx0 as int, ts.len() as int)[j] by {
                            lemma_type_views_index(rest@, j);
                            lemma_type_views_index(types@, j + idx0);
                        }
                        assert(type_views(rest@) =~= ts.subrange(idx0 as int, ts.len() as int));
                    }
                    Some(Signature::from_types(rest))
                } else {
                    None
                }
            },
            Level::Elements { elem } => {
                if self.pos < self.limit {
                    let t = elem.duplicate();
                    Some(Signature::single(t))
                } else {
                    None
                }
            },
            Level::Broken => None,
        }
    }

    /// Asserts that no arguments remain at this level; reports the
    /// remaining signature otherwise.
    pub fn terminated(&self) -> (r: Result<(), Error>)
        ensures
            match r {
                Ok(()) => !self@.has_next(),
                Err(e) => self@.has_next() && match e {
                    Error::TrailingType { actual } => {
                        &&& actual is Some
                        &&& actual.unwrap()@ == self@.remaining()
                    },
                    _ => false,
                },
            },
    {
        match self.signature() {
            None => Ok(()),
            Some(sig) => Err(Error::TrailingType { actual: Some(sig) }),
        }
    }

    /// Advances past the current argument, if any: by its encoded extent
    /// when the framing can be read, else to the end of this level.
    fn advance(&mut self)
        requires
            old(self)@.wf(),
        ensures
            final(self)@ == old(self)@.stepped(),
            final(self)@.wf(),
    {
        if !self.has_next() {
            return;
        }
        let t = self.head_wire_type();
        let skipped = skip_value(self.message.body(), self.pos, self.limit, &t);
        match skipped {
            Some(p2) => {
                self.pos = p2;
            },
            None => {
            },
        }
        let mut lvl = Level::Broken;
        core::mem::swap(&mut lvl, &mut self.level);
        match lvl {
            Level::Fields { types, idx } => {
                proof {
                    lemma_type_views_len(types@);
                }
                let n = types.len();
                let new_idx: usize = match skipped {
                    Some(_) => idx + 1,
                    None => n,
                };
                self.level = Level::Fields { types, idx: new_idx };
            },
            Level::Elements { elem } => {
                match skipped {
                    Some(_) => {
                    },
                    None => {
                        self.pos = self.limit;
                    },
                }
                self.level = Level::Elements { elem };
            },
            Level::Broken => {
                proof {
                    assert(false);
                }
            },
        }
    }

    /// A child cursor over the members of the container at the current
    /// position, positioned before its first member.  Creating the child
    /// leaves this cursor exactly where it was.
    pub fn recurse(&self) -> (r: Reader<'a>)
        requires
            self@.wf(),
            self@.head_tag().spec_is_container(),
        ensures
            r@ == self@.recursed(),
            r@.wf(),
    {
        match self.head_wire_type() {
            WireType::Struct(ts) => Reader {
                message: self.message,
                pos: self.pos,
                limit: self.limit,
                level: Level::Fields { types: ts, idx: 0 },
            },
            WireType::DictEntry(k, v) => {
                let mut types: Vec<WireType> = Vec::new();
                types.push(*k);
                types.push(*v);
                proof {
                    assert(types@ =~= seq![*k, *v]);
                    assert(type_views(types@) =~= seq![k@, v@]) by {
                        lemma_type_views_len(types@);
                        lemma_type_views_index(types@, 0);
                        lemma_type_views_index(types@, 1);
                    }
                }
                Reader {
                    message: self.message,
                    pos: self.pos,
                    limit: self.limit,
                    level: Level::Fields { types, idx: 0 },
                }
            },
            WireType::Array(e) => {
                if self.limit - self.pos >= 4 {
                    let n = u32_at(self.message.body(), self.pos) as usize;
                    if n <= self.limit - (self.pos + 4) {
                        Reader {
                            message: self.message,
                            pos: self.pos + 4,
                            limit: self.pos + 4 + n,
                            level: Level::Elements { elem: *e },
                        }
                    } else {
                        Reader {
                            message: self.message,
                            pos: self.pos,
                            limit: self.pos,
                            level: Level::Broken,
                        }
                    }
                } else {
                    Reader {
                        message: self.message,
                        pos: self.pos,
                        limit: self.pos,
                        level: Level::Broken,
                    }
                }
            },
            WireType::Variant => {
                match read_sig_at(self.message.body(), self.pos, self.limit) {
                    Some((sig, p2)) => {
                        if sig.len() == 1 {
                            let types = sig.to_types();
                            Reader {
                                message: self.message,
                                pos: p2,
                                limit: self.limit,
                                level: Level::Fields { types, idx: 0 },
                            }
                        } else {
                            Reader {
                                message: self.message,
                                pos: self.pos,
                                limit: self.pos,
                                level: Level::Broken,
                            }
                        }
                    },
                    None => Reader {
                        message: self.message,
                        pos: self.pos,
                        limit: self.pos,
                        level: Level::Broken,
                    },
                }
            },
            _ => {
                proof {
                    assert(false);
                }
                Reader { message: self.message, pos: self.pos, limit: self.pos, level: Level::Broken }
            },
        }
    }

    /// Views the current argument as `T` without advancing.  Succeeds
    /// exactly when an argument remains, its tag is acceptable to `T`, the
    /// argument decodes, and the decoded value has the shape `T` extracts.
    /// An unacceptable tag reports the expected and actual signatures; an
    /// exhausted level reports the end-of-input error of the target; any
    /// other failure carries the target's own error guarantee
    /// ([`Readable::err_shape`]).
    pub fn peek<T: Readable>(&self) -> (r: Result<T, Error>)
        requires
            self@.wf(),
        ensures
            match r {
                Ok(v) => {
                    &&& self@.has_next()
                    &&& T::compat(self@.head_tag())
                    &&& self@.head_read() is Some
                    &&& T::accepts(self@.head_read().unwrap().0)
                    &&& v.models(self@.head_read().unwrap().0)
                },
                Err(e) => {
                    &&& !(self@.has_next() && T::compat(self@.head_tag()) && self@.head_read()
                        is Some && T::accepts(self@.head_read().unwrap().0))
                    &&& (!self@.has_next() ==> end_of_input_err::<T>(e))
                    &&& (self@.has_next() && !T::compat(self@.head_tag())
                        ==> is_unexpected_type_err(
                        e,
                        seq![T::expected_type()],
                        self@.remaining(),
                    ))
                    &&& (self@.has_next() && T::compat(self@.head_tag()) ==> T::err_shape(
                        self@,
                        e,
                    ))
                },
            },
    {
        if self.has_next() {
            if T::compatible(self.arg_type()) {
                T::peek(self)
            } else {
                match self.signature() {
                    Some(sig) => Err(
                        Error::UnexpectedType { expected: T::expected(), actual: Some(sig) },
                    ),
                    None => {
                        proof {
                            assert(false);
                        }
                        Err(Error::InvalidType)
                    },
                }
            }
        } else {
            if T::compatible(ArgType::Invalid) {
                Err(Error::InvalidType)
            } else {
                Err(Error::UnexpectedEnd { expected: T::expected() })
            }
        }
    }

    /// As [`Reader::peek`], then advances past the current argument whether
    /// or not extraction succeeded, so that iteration always moves forward;
    /// a caller that must stop on an error checks the result first.
    pub fn consume<T: Readable>(&mut self) -> (r: Result<T, Error>)
        requires
            old(self)@.wf(),
        ensures
            final(self)@ == old(self)@.stepped(),
            final(self)@.wf(),
            match r {
                Ok(v) => {
                    &&& old(self)@.has_next()
                    &&& T::compat(old(self)@.head_tag())
                    &&& old(self)@.head_read() is Some
                    &&& T::accepts(old(self)@.head_read().unwrap().0)
                    &&& v.models(old(self)@.head_read().unwrap().0)
                },
                Err(e) => {
                    &&& !(old(self)@.has_next() && T::compat(old(self)@.head_tag()) && old(
                        self,
                    )@.head_read() is Some && T::accepts(old(self)@.head_read().unwrap().0))
                    &&& (!old(self)@.has_next() ==> end_of_input_err::<T>(e))
                    &&& (old(self)@.has_next() && !T::compat(old(self)@.head_tag())
                        ==> is_unexpected_type_err(
                        e,
                        seq![T::expected_type()],
                        old(self)@.remaining(),
                    ))
                    &&& (old(self)@.has_next() && T::compat(old(self)@.head_tag())
                        ==> T::err_shape(old(self)@, e))
                },
            },
    {
        let r = self.peek::<T>();
        self.advance();
        r
    }

    /// The basic value at the current position, without advancing.  The
    /// caller must have checked that the position holds a decodable basic
    /// value of the right kind; anything else is a programming error, not a
    /// property of the input.
    pub fn get_basic<T: Readable>(&self) -> (r: T)
        requires
            self@.wf(),
            self@.has_next(),
            self@.head_tag().spec_is_basic(),
            T::compat(self@.head_tag()),
            self@.head_read() is Some,
            T::accepts(self@.head_read().unwrap().0),
        ensures
            r.models(self@.head_read().unwrap().0),
    {
        let r = self.peek::<T>();
        match r {
            Ok(v) => v,
            Err(_) => vstd::pervasive::unreached(),
        }
    }

    /// Yields the next argument as a dynamic value and advances past it, or
    /// `None` once the level is exhausted (or if the argument cannot be
    /// decoded; the cursor still advances, so iteration always terminates).
    pub fn next_any(&mut self) -> (r: Option<Any>)
        requires
            old(self)@.wf(),
        ensures
            final(self)@ == old(self)@.stepped(),
            final(self)@.wf(),
            match r {
                Some(a) => old(self)@.head_read() is Some && a@ == old(
                    self,
                )@.head_read().unwrap().0,
                None => !old(self)@.has_next() || old(self)@.head_read() is None,
            },
    {
        if self.has_next() {
            proof {
                assert(self@.head_tag() != ArgType::Invalid);
            }
            match self.consume::<Any>() {
                Ok(a) => Some(a),
                Err(_) => None,
            }
        } else {
            None
        }
    }

    /// The current read position.
    fn position(&self) -> (r: usize)
        ensures
            r == self@.pos,
    {
        self.pos
    }

    /// True for the child of a container whose framing could not be read.
    fn is_broken(&self) -> (r: bool)
        ensures
            r == (self@.level is Broken),
    {
        match &self.level {
            Level::Broken => true,
            _ => false,
        }
    }

    /// An owned copy of the type at the current position.
    fn head_wire_type(&self) -> (r: WireType)
        requires
            self@.has_next(),
        ensures
            r@ == self@.head_type().unwrap(),
    {
        match &self.level {
            Level::Fields { types, idx } => {
                proof {
                    lemma_type_views_len(types@);
                    lemma_type_views_index(types@, *idx as int);
                }
                types[*idx].duplicate()
            },
            Level::Elements { elem } => elem.duplicate(),
            Level::Broken => {
                proof {
                    assert(false);
                }
                WireType::Boolean
            },
        }
    }
}

/// The typed-extraction capability.  A target shape declares the signature
/// it accepts and how one decoded argument is viewed as a value of the
/// shape; [`Reader::peek`] and [`Reader::consume`] compose these.  New
/// target shapes are added by implementing this trait, without touching the
/// cursor itself.
pub trait Readable: Sized {
    /// The single complete type this target expects, for diagnostics.
    spec fn expected_type() -> WireTypeV;

    /// The tags this target accepts at the current position.
    spec fn compat(tag: ArgType) -> bool;

    /// Whether a decoded value has the shape this target extracts.
    spec fn accepts(v: AnyVal) -> bool;

    /// How an extracted value relates to the decoded value it came from.
    spec fn models(self, v: AnyVal) -> bool;

    /// What holds of the error a failed extraction yields, given the
    /// cursor's state.  This is how a target's own error guarantee (which
    /// kind comes back, and with which payload) survives the generic
    /// [`Reader::peek`] and [`Reader::consume`].
    spec fn err_shape(m: ReaderModel, e: Error) -> bool;

    /// An acceptable value always carries an acceptable tag.
    proof fn accepts_compat(v: AnyVal)
        requires
            Self::accepts(v),
        ensures
            Self::compat(v.typ().tag()),
    ;

    /// The signature this target expects.
    fn expected() -> (r: Signature)
        ensures
            r@ == seq![Self::expected_type()],
    ;

    /// Whether a tag is acceptable to this target.
    fn compatible(tag: ArgType) -> (r: bool)
        ensures
            r == Self::compat(tag),
    ;

    /// Extracts the argument at the cursor's position, without advancing.
    /// Succeeds exactly when the argument decodes and the decoded value has
    /// the shape this target extracts; a failure satisfies the target's
    /// error guarantee.
    fn peek(reader: &Reader<'_>) -> (r: Result<Self, Error>)
        requires
            reader@.wf(),
            reader@.has_next(),
            Self::compat(reader@.head_tag()),
        ensures
            match r {
                Ok(v) => {
                    &&& reader@.head_read() is Some
                    &&& Self::accepts(reader@.head_read().unwrap().0)
                    &&& v.models(reader@.head_read().unwrap().0)
                },
                Err(e) => {
                    &&& !(reader@.head_read() is Some && Self::accepts(
                        reader@.head_read().unwrap().0,
                    ))
                    &&& Self::err_shape(reader@, e)
                },
            },
    ;
}

impl Readable for bool {
    open spec fn expected_type() -> WireTypeV {
        WireTypeV::Boolean
    }

    open spec fn compat(tag: ArgType) -> bool {
        tag == ArgType::Boolean
    }

    open spec fn accepts(v: AnyVal) -> bool {
        v is Boolean
    }

    open spec fn models(self, v: AnyVal) -> bool {
        v == AnyVal::Boolean(self)
    }

    open spec fn err_shape(m: ReaderModel, e: Error) -> bool {
        is_unexpected_end_err(e, seq![WireTypeV::Boolean])
    }

    proof fn accepts_compat(v: AnyVal) {
    }

    fn expected() -> (r: Signature) {
        Signature::single(WireType::Boolean)
    }

    fn compatible(tag: ArgType) -> (r: bool) {
        tag == ArgType::Boolean
    }

    fn peek(reader: &Reader<'_>) -> (r: Result<Self, Error>) {
        proof {
            assert(reader@.head_type().unwrap() == WireTypeV::Boolean);
        }
        if reader.limit - reader.pos >= 4 {
            let w = u32_at(reader.message.body(), reader.pos);
            Ok(w != 0)
        } else {
            Err(Error::UnexpectedEnd { expected: Signature::single(WireType::Boolean) })
        }
    }
}

impl Readable for u8 {
    open spec fn expected_type() -> WireTypeV {
        WireTypeV::Byte
    }

    open spec fn compat(tag: ArgType) -> bool {
        tag == ArgType::Byte
    }

    open spec fn accepts(v: AnyVal) -> bool {
        v is Byte
    }

    open spec fn models(self, v: AnyVal) -> bool {
        v == AnyVal::Byte(self)
    }

    open spec fn err_shape(m: ReaderModel, e: Error) -> bool {
        is_unexpected_end_err(e, seq![WireTypeV::Byte])
    }

    proof fn accepts_compat(v: AnyVal) {
    }

    fn expected() -> (r: Signature) {
        Signature::single(WireType::Byte)
    }

    fn compatible(tag: ArgType) -> (r: bool) {
        tag == ArgType::Byte
    }

    fn peek(reader: &Reader<'_>) -> (r: Result<Self, Error>) {
        proof {
            assert(reader@.head_type().unwrap() == WireTypeV::Byte);
        }
        if reader.limit - reader.pos >= 1 {
            Ok(reader.message.body()[reader.pos])
        } else {
            Err(Error::UnexpectedEnd { expected: Signature::single(WireType::Byte) })
        }
    }
}

impl Readable for u16 {
    open spec fn expected_type() -> WireTypeV {
        WireTypeV::Uint16
    }

    open spec fn compat(tag: ArgType) -> bool {
        tag == ArgType::Uint16
    }

    open spec fn accepts(v: AnyVal) -> bool {
        v is Uint16
    }

    open spec fn models(self, v: AnyVal) -> bool {
        v == AnyVal::Uint16(self)
    }

    open spec fn err_shape(m: ReaderModel, e: Error) -> bool {
        is_unexpected_end_err(e, seq![WireTypeV::Uint16])
    }

    proof fn accepts_compat(v: AnyVal) {
    }

    fn expected() -> (r: Signature) {
        Signature::single(WireType::Uint16)
    }

    fn compatible(tag: ArgType) -> (r: bool) {
        tag == ArgType::Uint16
    }

    fn peek(reader: &Reader<'_>) -> (r: Result<Self, Error>) {
        proof {
            assert(reader@.head_type().unwrap() == WireTypeV::Uint16);
        }
        if reader.limit - reader.pos >= 2 {
            Ok(u16_at(reader.message.body(), reader.pos))
        } else {
            Err(Error::UnexpectedEnd { expected: Signature::single(WireType::Uint16) })
        }
    }
}

impl Readable for i16 {
    open spec fn expected_type() -> WireTypeV {
        WireTypeV::Int16
    }

    open spec fn compat(tag: ArgType) -> bool {
        tag == ArgType::Int16
    }

    open spec fn accepts(v: AnyVal) -> bool {
        v is Int16
    }

    open spec fn models(self, v: AnyVal) -> bool {
        v == AnyVal::Int16(self)
    }

    open spec fn err_shape(m: ReaderModel, e: Error) -> bool {
        is_unexpected_end_err(e, seq![WireTypeV::Int16])
    }

    proof fn accepts_compat(v: AnyVal) {
    }

    fn expected() -> (r: Signature) {
        Signature::single(WireType::Int16)
    }

    fn compatible(tag: ArgType) -> (r: bool) {
        tag == ArgType::Int16
    }

    fn peek(reader: &Reader<'_>) -> (r: Result<Self, Error>) {
        proof {
            assert(reader@.head_type().unwrap() == WireTypeV::Int16);
        }
        if reader.limit - reader.pos >= 2 {
            let w = u16_at(reader.message.body(), reader.pos);
            let v: i16 = if w < 0x8000 {
                w as i16
            } else {
                ((w as i32) - 0x10000) as i16
            };
            Ok(v)
        } else {
            Err(Error::UnexpectedEnd { expected: Signature::single(WireType::Int16) })
        }
    }
}

impl Readable for u32 {
    open spec fn expected_type() -> WireTypeV {
        WireTypeV::Uint32
    }

    open spec fn compat(tag: ArgType) -> bool {
        tag == ArgType::Uint32
    }

    open spec fn accepts(v: AnyVal) -> bool {
        v is Uint32
    }

    open spec fn models(self, v: AnyVal) -> bool {
        v == AnyVal::Uint32(self)
    }

    open spec fn err_shape(m: ReaderModel, e: Error) -> bool {
        is_unexpected_end_err(e, seq![WireTypeV::Uint32])
    }

    proof fn accepts_compat(v: AnyVal) {
    }

    fn expected() -> (r: Signature) {
        Signature::single(WireType::Uint32)
    }

    fn compatible(tag: ArgType) -> (r: bool) {
        tag == ArgType::Uint32
    }

    fn peek(reader: &Reader<'_>) -> (r: Result<Self, Error>) {
        proof {
            assert(reader@.head_type().unwrap() == WireTypeV::Uint32);
        }
        if reader.limit - reader.pos >= 4 {
            Ok(u32_at(reader.message.body(), reader.pos))
        } else {
            Err(Error::UnexpectedEnd { expected: Signature::single(WireType::Uint32) })
        }
    }
}

impl Readable for i32 {
    open spec fn expected_type() -> WireTypeV {
        WireTypeV::Int32
    }

    open spec fn compat(tag: ArgType) -> bool {
        tag == ArgType::Int32
    }

    open spec fn accepts(v: AnyVal) -> bool {
        v is Int32
    }

    open spec fn models(self, v: AnyVal) -> bool {
        v == AnyVal::Int32(self)
    }

    open spec fn err_shape(m: ReaderModel, e: Error) -> bool {
        is_unexpected_end_err(e, seq![WireTypeV::Int32])
    }

    proof fn accepts_compat(v: AnyVal) {
    }

    fn expected() -> (r: Signature) {
        Signature::single(WireType::Int32)
    }

    fn compatible(tag: ArgType) -> (r: bool) {
        tag == ArgType::Int32
    }

    fn peek(reader: &Reader<'_>) -> (r: Result<Self, Error>) {
        proof {
            assert(reader@.head_type().unwrap() == WireTypeV::Int32);
        }
        if reader.limit - reader.pos >= 4 {
            let w = u32_at(reader.message.body(), reader.pos);
            let v: i32 = if w < 0x80000000 {
                w as i32
            } else {
                ((w as i64) - 0x100000000) as i32
            };
            Ok(v)
        } else {
            Err(Error::UnexpectedEnd { expected: Signature::single(WireType::Int32) })
        }
    }
}

impl Readable for u64 {
    open spec fn expected_type() -> WireTypeV {
        WireTypeV::Uint64
    }

    open spec fn compat(tag: ArgType) -> bool {
        tag == ArgType::Uint64
    }

    open spec fn accepts(v: AnyVal) -> bool {
        v is Uint64
    }

    open spec fn models(self, v: AnyVal) -> bool {
        v == AnyVal::Uint64(self)
    }

    open spec fn err_shape(m: ReaderModel, e: Error) -> bool {
        is_unexpected_end_err(e, seq![WireTypeV::Uint64])
    }

    proof fn accepts_compat(v: AnyVal) {
    }

    fn expected() -> (r: Signature) {
        Signature::single(WireType::Uint64)
    }

    fn compatible(tag: ArgType) -> (r: bool) {
        tag == ArgType::Uint64
    }

    fn peek(reader: &Reader<'_>) -> (r: Result<Self, Error>) {
        proof {
            assert(reader@.head_type().unwrap() == WireTypeV::Uint64);
        }
        if reader.limit - reader.pos >= 8 {
            Ok(u64_at(reader.message.body(), reader.pos))
        } else {
            Err(Error::UnexpectedEnd { expected: Signature::single(WireType::Uint64) })
        }
    }
}

impl Readable for i64 {
    open spec fn expected_type() -> WireTypeV {
        WireTypeV::Int64
    }

    open spec fn compat(tag: ArgType) -> bool {
        tag == ArgType::Int64
    }

    open spec fn accepts(v: AnyVal) -> bool {
        v is Int64
    }

    open spec fn models(self, v: AnyVal) -> bool {
        v == AnyVal::Int64(self)
    }

    open spec fn err_shape(m: ReaderModel, e: Error) -> bool {
        is_unexpected_end_err(e, seq![WireTypeV::Int64])
    }

    proof fn accepts_compat(v: AnyVal) {
    }

    fn expected() -> (r: Signature) {
        Signature::single(WireType::Int64)
    }

    fn compatible(tag: ArgType) -> (r: bool) {
        tag == ArgType::Int64
    }

    fn peek(reader: &Reader<'_>) -> (r: Result<Self, Error>) {
        proof {
            assert(reader@.head_type().unwrap() == WireTypeV::Int64);
        }
        if reader.limit - reader.pos >= 8 {
            let w = u64_at(reader.message.body(), reader.pos);
            let v: i64 = if w < 0x8000000000000000 {
                w as i64
            } else {
                ((w as i128) - 0x10000000000000000) as i64
            };
            Ok(v)
        } else {
            Err(Error::UnexpectedEnd { expected: Signature::single(WireType::Int64) })
        }
    }
}

impl Readable for crate::values::DoubleBits {
    open spec fn expected_type() -> WireTypeV {
        WireTypeV::Double
    }

    open spec fn compat(tag: ArgType) -> bool {
        tag == ArgType::Double
    }

    open spec fn accepts(v: AnyVal) -> bool {
        v is Double
    }

    open spec fn models(self, v: AnyVal) -> bool {
        v == AnyVal::Double(self.0)
    }

    open spec fn err_shape(m: ReaderModel, e: Error) -> bool {
        is_unexpected_end_err(e, seq![WireTypeV::Double])
    }

    proof fn accepts_compat(v: AnyVal) {
    }

    fn expected() -> (r: Signature) {
        Signature::single(WireType::Double)
    }

    fn compatible(tag: ArgType) -> (r: bool) {
        tag == ArgType::Double
    }

    fn peek(reader: &Reader<'_>) -> (r: Result<Self, Error>) {
        proof {
            assert(reader@.head_type().unwrap() == WireTypeV::Double);
        }
        if reader.limit - reader.pos >= 8 {
            Ok(crate::values::DoubleBits(u64_at(reader.message.body(), reader.pos)))
        } else {
            Err(Error::UnexpectedEnd { expected: Signature::single(WireType::Double) })
        }
    }
}

impl Readable for crate::values::UnixFd {
    open spec fn expected_type() -> WireTypeV {
        WireTypeV::UnixFd
    }

    open spec fn compat(tag: ArgType) -> bool {
        tag == ArgType::UnixFd
    }

    open spec fn accepts(v: AnyVal) -> bool {
        v is UnixFd
    }

    open spec fn models(self, v: AnyVal) -> bool {
        v == AnyVal::UnixFd(self.0)
    }

    open spec fn err_shape(m: ReaderModel, e: Error) -> bool {
        is_unexpected_end_err(e, seq![WireTypeV::UnixFd])
    }

    proof fn accepts_compat(v: AnyVal) {
    }

    fn expected() -> (r: Signature) {
        Signature::single(WireType::UnixFd)
    }

    fn compatible(tag: ArgType) -> (r: bool) {
        tag == ArgType::UnixFd
    }

    fn peek(reader: &Reader<'_>) -> (r: Result<Self, Error>) {
        proof {
            assert(reader@.head_type().unwrap() == WireTypeV::UnixFd);
        }
        if reader.limit - reader.pos >= 4 {
            Ok(crate::values::UnixFd(u32_at(reader.message.body(), reader.pos)))
        } else {
            Err(Error::UnexpectedEnd { expected: Signature::single(WireType::UnixFd) })
        }
    }
}

impl Readable for ArgType {
    open spec fn expected_type() -> WireTypeV {
        WireTypeV::Byte
    }

    open spec fn compat(tag: ArgType) -> bool {
        tag == ArgType::Byte
    }

    open spec fn accepts(v: AnyVal) -> bool {
        v is Byte
    }

    open spec fn models(self, v: AnyVal) -> bool {
        v is Byte && self == ArgType::spec_from_code(v->Byte_0)
    }

    open spec fn err_shape(m: ReaderModel, e: Error) -> bool {
        is_unexpected_end_err(e, seq![WireTypeV::Byte])
    }

    proof fn accepts_compat(v: AnyVal) {
    }

    fn expected() -> (r: Signature) {
        Signature::single(WireType::Byte)
    }

    fn compatible(tag: ArgType) -> (r: bool) {
        tag == ArgType::Byte
    }

    fn peek(reader: &Reader<'_>) -> (r: Result<Self, Error>) {
        proof {
            assert(reader@.head_type().unwrap() == WireTypeV::Byte);
        }
        if reader.limit - reader.pos >= 1 {
            Ok(ArgType::from_code(reader.message.body()[reader.pos]))
        } else {
            Err(Error::UnexpectedEnd { expected: Signature::single(WireType::Byte) })
        }
    }
}

/// Reads the string frame at the cursor's position and decodes its content
/// as UTF-8 text.
fn read_text(reader: &Reader<'_>, expected: WireType) -> (r: Result<String, Error>)
    requires
        reader@.wf(),
    ensures
        match r {
            Ok(s) => crate::wire::read_str(reader@.data, reader@.pos, reader@.limit) is Some
                && s@ == crate::wire::read_str(
                reader@.data,
                reader@.pos,
                reader@.limit,
            ).unwrap().0,
            Err(e) => {
                &&& crate::wire::read_str(reader@.data, reader@.pos, reader@.limit) is None
                &&& (crate::wire::skip_str(reader@.data, reader@.pos, reader@.limit) is Some
                    ==> e is Utf8Error)
                &&& (crate::wire::skip_str(reader@.data, reader@.pos, reader@.limit) is None
                    ==> is_unexpected_end_err(e, seq![expected@]))
            },
        },
{
    let bytes = reader.message.body();
    let pos = reader.pos;
    let limit = reader.limit;
    if limit - pos < 4 {
        return Err(Error::UnexpectedEnd { expected: Signature::single(expected) });
    }
    let n = u32_at(bytes, pos) as usize;
    let avail = limit - (pos + 4);
    if avail < 1 || n > avail - 1 {
        return Err(Error::UnexpectedEnd { expected: Signature::single(expected) });
    }
    let e2 = pos + 4 + n + 1;
    if bytes[e2 - 1] != 0 {
        return Err(Error::UnexpectedEnd { expected: Signature::single(expected) });
    }
    let content = copy_range(bytes, pos + 4, pos + 4 + n);
    match crate::text::utf8_to_string(content) {
        Some(s) => Ok(s),
        None => Err(Error::Utf8Error),
    }
}

impl Readable for String {
    open spec fn expected_type() -> WireTypeV {
        WireTypeV::String
    }

    open spec fn compat(tag: ArgType) -> bool {
        tag == ArgType::String
    }

    open spec fn accepts(v: AnyVal) -> bool {
        v is String
    }

    open spec fn models(self, v: AnyVal) -> bool {
        v == AnyVal::String(self@)
    }

    open spec fn err_shape(m: ReaderModel, e: Error) -> bool {
        if crate::wire::skip_str(m.data, m.pos, m.limit) is Some {
            e is Utf8Error
        } else {
            is_unexpected_end_err(e, seq![WireTypeV::String])
        }
    }

    proof fn accepts_compat(v: AnyVal) {
    }

    fn expected() -> (r: Signature) {
        Signature::single(WireType::String)
    }

    fn compatible(tag: ArgType) -> (r: bool) {
        tag == ArgType::String
    }

    fn peek(reader: &Reader<'_>) -> (r: Result<Self, Error>) {
        proof {
            assert(reader@.head_type().unwrap() == WireTypeV::String);
        }
        read_text(reader, WireType::String)
    }
}

impl Readable for crate::values::ObjectPath {
    open spec fn expected_type() -> WireTypeV {
        WireTypeV::ObjectPath
    }

    open spec fn compat(tag: ArgType) -> bool {
        tag == ArgType::ObjectPath
    }

    open spec fn accepts(v: AnyVal) -> bool {
        v is ObjectPath
    }

    open spec fn models(self, v: AnyVal) -> bool {
        v == AnyVal::ObjectPath(self.0@)
    }

    open spec fn err_shape(m: ReaderModel, e: Error) -> bool {
        if crate::wire::skip_str(m.data, m.pos, m.limit) is Some {
            e is Utf8Error
        } else {
            is_unexpected_end_err(e, seq![WireTypeV::ObjectPath])
        }
    }

    proof fn accepts_compat(v: AnyVal) {
    }

    fn expected() -> (r: Signature) {
        Signature::single(WireType::ObjectPath)
    }

    fn compatible(tag: ArgType) -> (r: bool) {
        tag == ArgType::ObjectPath
    }

    fn peek(reader: &Reader<'_>) -> (r: Result<Self, Error>) {
        proof {
            assert(reader@.head_type().unwrap() == WireTypeV::ObjectPath);
        }
        match read_text(reader, WireType::ObjectPath) {
            Ok(s) => Ok(crate::values::ObjectPath(s)),
            Err(e) => Err(e),
        }
    }
}

impl Readable for Signature {
    open spec fn expected_type() -> WireTypeV {
        WireTypeV::Signature
    }

    open spec fn compat(tag: ArgType) -> bool {
        tag == ArgType::Signature
    }

    open spec fn accepts(v: AnyVal) -> bool {
        v is Signature
    }

    open spec fn models(self, v: AnyVal) -> bool {
        v is Signature && self@ == v->Signature_0
    }

    open spec fn err_shape(m: ReaderModel, e: Error) -> bool {
        if crate::wire::skip_sig(m.data, m.pos, m.limit) is Some {
            e is MalformedSignature
        } else {
            is_unexpected_end_err(e, seq![WireTypeV::Signature])
        }
    }

    proof fn accepts_compat(v: AnyVal) {
    }

    fn expected() -> (r: Signature) {
        Signature::single(WireType::Signature)
    }

    fn compatible(tag: ArgType) -> (r: bool) {
        tag == ArgType::Signature
    }

    fn peek(reader: &Reader<'_>) -> (r: Result<Self, Error>) {
        proof {
            assert(reader@.head_type().unwrap() == WireTypeV::Signature);
        }
        match read_sig_at(reader.message.body(), reader.pos, reader.limit) {
            Some((sig, _)) => Ok(sig),
            None => {
                match skip_sig_frame(reader.message.body(), reader.pos, reader.limit) {
                    Some(_) => Err(Error::MalformedSignature),
                    None => Err(
                        Error::UnexpectedEnd { expected: Signature::single(WireType::Signature) },
                    ),
                }
            },
        }
    }
}

impl Readable for () {
    open spec fn expected_type() -> WireTypeV {
        WireTypeV::Struct(Seq::empty())
    }

    open spec fn compat(tag: ArgType) -> bool {
        tag == ArgType::Struct
    }

    open spec fn accepts(v: AnyVal) -> bool {
        v == AnyVal::Struct(Seq::<AnyVal>::empty())
    }

    open spec fn models(self, v: AnyVal) -> bool {
        v == AnyVal::Struct(Seq::<AnyVal>::empty())
    }

    open spec fn err_shape(m: ReaderModel, e: Error) -> bool {
        match m.head_type() {
            Some(WireTypeV::Struct(ts)) => is_trailing_err(e, ts),
            _ => true,
        }
    }

    proof fn accepts_compat(v: AnyVal) {
        assert(AnyVal::typ_list(Seq::<AnyVal>::empty()) =~= Seq::<WireTypeV>::empty());
    }

    fn expected() -> (r: Signature) {
        let members: Vec<WireType> = Vec::new();
        proof {
            assert(type_views(members@) =~= Seq::<WireTypeV>::empty());
        }
        Signature::single(WireType::Struct(members))
    }

    fn compatible(tag: ArgType) -> (r: bool) {
        tag == ArgType::Struct
    }

    /// Accepts exactly the empty structure; a non-empty structure is
    /// reported as a trailing type carrying its member signature.
    fn peek(reader: &Reader<'_>) -> (r: Result<Self, Error>) {
        let ghost ts = reader@.head_type().unwrap()->Struct_0;
        let sub = reader.recurse();
        proof {
            if reader@.head_read() is Some {
                crate::wire::lemma_read_skip(
                    reader@.data,
                    reader@.pos,
                    reader@.limit,
                    reader@.head_type().unwrap(),
                );
                crate::wire::lemma_typ_list_len(reader@.head_read().unwrap().0->Struct_0);
            }
            if ts.len() == 0 {
                assert(crate::wire::read_list(reader@.data, reader@.pos, reader@.limit, ts)
                    == Some((Seq::<AnyVal>::empty(), reader@.pos)));
                assert(AnyVal::typ_list(Seq::<AnyVal>::empty()) =~= Seq::<WireTypeV>::empty());
            }
        }
        match sub.terminated() {
            Ok(()) => Ok(()),
            Err(e) => {
                proof {
                    assert(ts.subrange(0, ts.len() as int) =~= ts);
                }
                Err(e)
            },
        }
    }
}

impl<T: Readable> Readable for crate::values::Variant<T> {
    open spec fn expected_type() -> WireTypeV {
        WireTypeV::Variant
    }

    open spec fn compat(tag: ArgType) -> bool {
        tag == ArgType::Variant
    }

    open spec fn accepts(v: AnyVal) -> bool {
        v is Variant && T::accepts(*v->Variant_0)
    }

    open spec fn models(self, v: AnyVal) -> bool {
        v is Variant && self.0.models(*v->Variant_0)
    }

    open spec fn err_shape(m: ReaderModel, e: Error) -> bool {
        match read_sig(m.data, m.pos, m.limit) {
            Some((ts, p2)) => if ts.len() == 1 {
                if !T::compat(ts[0].tag()) {
                    is_unexpected_type_err(e, seq![T::expected_type()], seq![ts[0]])
                } else {
                    true
                }
            } else {
                e is MalformedSignature
            },
            None => e is MalformedSignature,
        }
    }

    proof fn accepts_compat(v: AnyVal) {
    }

    fn expected() -> (r: Signature) {
        Signature::single(WireType::Variant)
    }

    fn compatible(tag: ArgType) -> (r: bool) {
        tag == ArgType::Variant
    }

    /// Delegates to the type embedded in the wire data; an embedded type
    /// whose tag `T` refuses is reported as an unexpected type carrying the
    /// expected and embedded signatures.
    fn peek(reader: &Reader<'_>) -> (r: Result<Self, Error>) {
        proof {
            assert(reader@.head_type().unwrap() == WireTypeV::Variant);
        }
        let sub = reader.recurse();
        if sub.is_broken() {
            return Err(Error::MalformedSignature);
        }
        let r = sub.peek::<T>();
        proof {
            let (ts, p2) = read_sig(reader@.data, reader@.pos, reader@.limit).unwrap();
            if read_of(reader@.data, p2, reader@.limit, ts[0]) is Some {
                let (v, p3) = read_of(reader@.data, p2, reader@.limit, ts[0]).unwrap();
                crate::wire::lemma_read_skip(reader@.data, p2, reader@.limit, ts[0]);
                if T::accepts(v) {
                    T::accepts_compat(v);
                }
            }
        }
        match r {
            Ok(x) => Ok(crate::values::Variant(x)),
            Err(e) => {
                proof {
                    let (ts, p2) = read_sig(reader@.data, reader@.pos, reader@.limit).unwrap();
                    assert(ts.subrange(0, ts.len() as int) =~= seq![ts[0]]);
                }
                Err(e)
            },
        }
    }
}

impl<K: Readable, V: Readable> Readable for crate::values::DictEntry<K, V> {
    open spec fn expected_type() -> WireTypeV {
        WireTypeV::DictEntry(Box::new(K::expected_type()), Box::new(V::expected_type()))
    }

    open spec fn compat(tag: ArgType) -> bool {
        tag == ArgType::DictEntry
    }

    open spec fn accepts(v: AnyVal) -> bool {
        v is DictEntry && K::accepts(*v->DictEntry_0) && V::accepts(*v->DictEntry_1)
    }

    open spec fn models(self, v: AnyVal) -> bool {
        v is DictEntry && self.0.models(*v->DictEntry_0) && self.1.models(*v->DictEntry_1)
    }

    open spec fn err_shape(m: ReaderModel, e: Error) -> bool {
        {
            let m2 = m.recursed();
            let m3 = m2.stepped();
            ||| (!K::compat(m2.head_tag()) && is_unexpected_type_err(
                e,
                seq![K::expected_type()],
                m2.remaining(),
            ))
            ||| K::err_shape(m2, e)
            ||| (!V::compat(m3.head_tag()) && is_unexpected_type_err(
                e,
                seq![V::expected_type()],
                m3.remaining(),
            ))
            ||| V::err_shape(m3, e)
        }
    }

    proof fn accepts_compat(v: AnyVal) {
    }

    fn expected() -> (r: Signature) {
        let k = K::expected();
        let v = V::expected();
        let kt = k.type_at(0).duplicate();
        let vt = v.type_at(0).duplicate();
        Signature::single(WireType::DictEntry(Box::new(kt), Box::new(vt)))
    }

    fn compatible(tag: ArgType) -> (r: bool) {
        tag == ArgType::DictEntry
    }

    fn peek(reader: &Reader<'_>) -> (r: Result<Self, Error>) {
        let ghost data = reader@.data;
        let ghost p0 = reader@.pos;
        let ghost lim = reader@.limit;
        let ghost kt = *reader@.head_type().unwrap()->DictEntry_0;
        let ghost vt = *reader@.head_type().unwrap()->DictEntry_1;
        let mut sub = reader.recurse();
        proof {
            assert(sub@.level->Fields_0 =~= seq![kt, vt]);
            if read_of(data, p0, lim, kt) is Some {
                crate::wire::lemma_read_skip(data, p0, lim, kt);
                let (kv, p1) = read_of(data, p0, lim, kt).unwrap();
                if K::accepts(kv) {
                    K::accepts_compat(kv);
                }
                if read_of(data, p1, lim, vt) is Some {
                    crate::wire::lemma_read_skip(data, p1, lim, vt);
                    let (vv, p2) = read_of(data, p1, lim, vt).unwrap();
                    if V::accepts(vv) {
                        V::accepts_compat(vv);
                    }
                }
            }
        }
        let kx = match sub.consume::<K>() {
            Ok(kx) => kx,
            Err(e) => {
                return Err(e);
            },
        };
        let vx = match sub.consume::<V>() {
            Ok(vx) => vx,
            Err(e) => {
                return Err(e);
            },
        };
        match sub.terminated() {
            Ok(()) => Ok(crate::values::DictEntry(kx, vx)),
            Err(e) => {
                proof {
                    assert(false);
                }
                Err(e)
            },
        }
    }
}

impl<A: Readable, B: Readable> Readable for (A, B) {
    open spec fn expected_type() -> WireTypeV {
        WireTypeV::Struct(seq![A::expected_type(), B::expected_type()])
    }

    open spec fn compat(tag: ArgType) -> bool {
        tag == ArgType::Struct
    }

    open spec fn accepts(v: AnyVal) -> bool {
        &&& v is Struct
        &&& v->Struct_0.len() == 2
        &&& A::accepts(v->Struct_0[0])
        &&& B::accepts(v->Struct_0[1])
    }

    open spec fn models(self, v: AnyVal) -> bool {
        &&& v is Struct
        &&& v->Struct_0.len() == 2
        &&& self.0.models(v->Struct_0[0])
        &&& self.1.models(v->Struct_0[1])
    }

    open spec fn err_shape(m: ReaderModel, e: Error) -> bool {
        match m.head_type() {
            Some(WireTypeV::Struct(ts)) => match m.head_read() {
                Some((v, _)) => {
                    let elems = v->Struct_0;
                    &&& (elems.len() > 2 && A::accepts(elems[0]) && B::accepts(elems[1])
                        ==> is_trailing_err(e, ts.subrange(2, ts.len() as int)))
                    &&& (elems.len() == 0 ==> end_of_input_err::<A>(e))
                    &&& (elems.len() == 1 && A::accepts(elems[0]) ==> end_of_input_err::<B>(e))
                },
                None => true,
            },
            _ => true,
        }
    }

    proof fn accepts_compat(v: AnyVal) {
    }

    fn expected() -> (r: Signature) {
        let a = A::expected();
        let b = B::expected();
        let mut members: Vec<WireType> = Vec::new();
        members.push(a.type_at(0).duplicate());
        members.push(b.type_at(0).duplicate());
        proof {
            lemma_type_views_len(members@);
            lemma_type_views_index(members@, 0);
            lemma_type_views_index(members@, 1);
            assert(type_views(members@) =~= seq![A::expected_type(), B::expected_type()]);
        }
        Signature::single(WireType::Struct(members))
    }

    fn compatible(tag: ArgType) -> (r: bool) {
        tag == ArgType::Struct
    }

    /// Consumes exactly two members in declared order.  A structure with
    /// more members than the tuple's arity is reported as a trailing type
    /// carrying the unread members' signature; one with fewer members ends
    /// the level early and is reported so.
    fn peek(reader: &Reader<'_>) -> (r: Result<Self, Error>) {
        let ghost data = reader@.data;
        let ghost p0 = reader@.pos;
        let ghost lim = reader@.limit;
        let ghost h = reader@.head_type().unwrap();
        let ghost ts = h->Struct_0;
        let mut sub = reader.recurse();
        proof {
            assert(h is Struct);
            assert(h == WireTypeV::Struct(ts));
            assert(reader@.head_read() == read_of(data, p0, lim, h));
            assert(read_of(data, p0, lim, h) == (match crate::wire::read_list(
                data,
                p0,
                lim,
                ts,
            ) {
                Some((vs, p)) => Some((AnyVal::Struct(vs), p)),
                None => None::<(AnyVal, int)>,
            }));
            assert(sub@ == ReaderModel {
                data: data,
                pos: p0,
                limit: lim,
                level: LevelModel::Fields(ts, 0),
            });
            lemma_struct_prefix::<A, B>(data, p0, lim, ts);
        }
        let ghost whole = crate::wire::read_list(data, p0, lim, ts);
        let a = match sub.consume::<A>() {
            Ok(a) => a,
            Err(e) => {
                proof {
                    if whole is Some {
                        crate::wire::lemma_typ_list_len(whole.unwrap().0);
                        crate::wire::lemma_read_skip_list(data, p0, lim, ts);
                    }
                }
                return Err(e);
            },
        };
        let b = match sub.consume::<B>() {
            Ok(b) => b,
            Err(e) => {
                proof {
                    if whole is Some {
                        crate::wire::lemma_typ_list_len(whole.unwrap().0);
                        crate::wire::lemma_read_skip_list(data, p0, lim, ts);
                    }
                }
                return Err(e);
            },
        };
        proof {
            if whole is Some {
                crate::wire::lemma_typ_list_len(whole.unwrap().0);
                crate::wire::lemma_read_skip_list(data, p0, lim, ts);
            }
        }
        match sub.terminated() {
            Ok(()) => Ok((a, b)),
            Err(e) => Err(e),
        }
    }
}

/// The cursor state at position `p` within the element extent of the array
/// at `m`'s position.
pub open spec fn element_state(m: ReaderModel, p: int) -> ReaderModel {
    ReaderModel { pos: p, ..m.recursed() }
}

impl<T: Readable> Readable for Vec<T> {
    open spec fn expected_type() -> WireTypeV {
        WireTypeV::Array(Box::new(T::expected_type()))
    }

    open spec fn compat(tag: ArgType) -> bool {
        tag == ArgType::Array
    }

    open spec fn accepts(v: AnyVal) -> bool {
        &&& v is Array
        &&& forall|i: int| 0 <= i < v->Array_0.len() ==> T::accepts(#[trigger] v->Array_0[i])
    }

    open spec fn models(self, v: AnyVal) -> bool {
        &&& v is Array
        &&& self@.len() == v->Array_0.len()
        &&& forall|i: int| 0 <= i < self@.len() ==> (#[trigger] self@[i]).models(v->Array_0[i])
    }

    open spec fn err_shape(m: ReaderModel, e: Error) -> bool {
        ||| is_unexpected_end_err(e, seq![Self::expected_type()])
        ||| (match m.head_type() {
            Some(WireTypeV::Array(et)) => {
                ||| (!T::compat(et.tag()) && is_unexpected_type_err(
                    e,
                    seq![T::expected_type()],
                    seq![*et],
                ))
                ||| (exists|p: int| #[trigger] T::err_shape(element_state(m, p), e))
            },
            _ => false,
        })
    }

    proof fn accepts_compat(v: AnyVal) {
    }

    fn expected() -> (r: Signature) {
        let t = T::expected();
        let et = t.type_at(0).duplicate();
        Signature::single(WireType::Array(Box::new(et)))
    }

    fn compatible(tag: ArgType) -> (r: bool) {
        tag == ArgType::Array
    }

    /// Collects the array's elements in order, one `consume::<T>` per
    /// element, until the element extent is exhausted.
    #[verifier::loop_isolation(false)]
    fn peek(reader: &Reader<'_>) -> (r: Result<Self, Error>) {
        let ghost data = reader@.data;
        let ghost p0 = reader@.pos;
        let ghost lim = reader@.limit;
        let ghost h = reader@.head_type().unwrap();
        let ghost et = *h->Array_0;
        proof {
            assert(h is Array);
            assert(h == WireTypeV::Array(Box::new(et)));
            assert(reader@.head_read() == read_of(data, p0, lim, h));
        }
        let mut sub = reader.recurse();
        if sub.is_broken() {
            proof {
                assert(read_of(data, p0, lim, h) is None);
            }
            return Err(Error::UnexpectedEnd { expected: <Vec<T> as Readable>::expected() });
        }
        let ghost start = sub@.pos;
        let ghost end2 = sub@.limit;
        let mut out: Vec<T> = Vec::new();
        let ghost mut vals: Seq<AnyVal> = Seq::empty();
        proof {
            assert(sub@ == reader@.recursed());
            assert(start == p0 + 4 && end2 == p0 + 4 + le32_at(data, p0) && end2 <= lim);
            if crate::wire::read_elems(data, start, end2, et) is Some {
                assert(vals + crate::wire::read_elems(data, start, end2, et).unwrap()
                    =~= crate::wire::read_elems(data, start, end2, et).unwrap());
            }
        }
        while sub.has_next()
            invariant
                sub@.wf(),
                sub@.data == data,
                sub@.limit == end2,
                sub@.level == LevelModel::Elements(et),
                start <= sub@.pos <= end2 <= data.len(),
                match crate::wire::read_elems(data, sub@.pos, end2, et) {
                    Some(rest) => crate::wire::read_elems(data, start, end2, et) == Some(
                        vals + rest,
                    ),
                    None => crate::wire::read_elems(data, start, end2, et) is None,
                },
                out@.len() == vals.len(),
                forall|i: int| 0 <= i < vals.len() ==> T::accepts(#[trigger] vals[i]),
                forall|i: int| 0 <= i < out@.len() ==> (#[trigger] out@[i]).models(vals[i]),
            decreases end2 - sub@.pos,
        {
            let prev = sub.position();
            let ghost pb = sub@.pos;
            let cr = sub.consume::<T>();
            proof {
                if read_of(data, pb, end2, et) is Some {
                    crate::wire::lemma_read_skip(data, pb, end2, et);
                    let (v0, p1) = read_of(data, pb, end2, et).unwrap();
                    if T::accepts(v0) {
                        T::accepts_compat(v0);
                    }
                }
            }
            let x = match cr {
                Ok(x) => x,
                Err(e) => {
                    proof {
                        assert(0 <= start && start <= pb && pb < end2 && end2 <= data.len());
                        lemma_bad_element::<T>(data, start, pb, end2, et, vals);
                        lemma_array_frame(data, p0, lim, et, start, end2);
                        let whole2 = crate::wire::read_elems(data, start, end2, et);
                        if whole2 is Some {
                            let vs = whole2.unwrap();
                            let av = AnyVal::Array(vs, et);
                            assert(av->Array_0 == vs);
                            assert(!(forall|i: int|
                                0 <= i < vs.len() ==> T::accepts(#[trigger] vs[i])));
                            assert(!<Vec<T> as Readable>::accepts(av));
                        }
                        let m2 = element_state(reader@, pb as int);
                        assert(m2 == ReaderModel {
                            data: data,
                            pos: pb as int,
                            limit: end2,
                            level: LevelModel::Elements(et),
                        });
                        if T::compat(et.tag()) {
                            assert(T::err_shape(element_state(reader@, pb as int), e));
                        } else {
                            assert(m2.remaining() =~= seq![et]);
                        }
                    }
                    return Err(e);
                },
            };
            if sub.position() <= prev {
                proof {
                    assert(crate::wire::read_elems(data, pb, end2, et) is None);
                    lemma_array_frame(data, p0, lim, et, start, end2);
                }
                return Err(Error::UnexpectedEnd { expected: <Vec<T> as Readable>::expected() });
            }
            proof {
                let (v0, p1) = read_of(data, pb, end2, et).unwrap();
                let tail = crate::wire::read_elems(data, p1, end2, et);
                if tail is Some {
                    assert(crate::wire::read_elems(data, pb, end2, et) == Some(
                        seq![v0] + tail.unwrap(),
                    ));
                    assert(vals + (seq![v0] + tail.unwrap()) =~= (vals.push(v0)) + tail.unwrap());
                } else {
                    assert(crate::wire::read_elems(data, pb, end2, et) is None);
                }
                vals = vals.push(v0);
            }
            out.push(x);
        }
        proof {
            assert(sub@.pos == end2);
            assert(crate::wire::read_elems(data, end2, end2, et) == Some(Seq::<AnyVal>::empty()));
            assert(vals + Seq::<AnyVal>::empty() =~= vals);
            lemma_array_frame(data, p0, lim, et, start, end2);
            assert(read_of(data, p0, lim, h) == Some((AnyVal::Array(vals, et), end2)));
        }
        Ok(out)
    }
}

/// Decodes the argument at the cursor's position into a dynamic value,
/// without prior schema knowledge: the wire type at the position selects the
/// variant, and containers decode their children recursively.
fn read_any(reader: &Reader<'_>) -> (r: Result<Any, Error>)
    requires
        reader@.wf(),
        reader@.has_next(),
    ensures
        match r {
            Ok(a) => reader@.head_read() is Some && a@ == reader@.head_read().unwrap().0,
            Err(_) => reader@.head_read() is None,
        },
    decreases reader@.limit - reader@.pos, reader@.head_type().unwrap().size(), 1int,
{
    let ghost data = reader@.data;
    let ghost p0 = reader@.pos;
    let ghost lim = reader@.limit;
    let ghost h = reader@.head_type().unwrap();
    proof {
        if reader@.head_read() is Some {
            crate::wire::lemma_read_skip(data, p0, lim, h);
        }
    }
    let tag = reader.arg_type();
    match tag {
        ArgType::Boolean => match <bool as Readable>::peek(reader) {
            Ok(b) => Ok(Any::Boolean(b)),
            Err(e) => Err(e),
        },
        ArgType::Byte => match <u8 as Readable>::peek(reader) {
            Ok(x) => Ok(Any::Byte(x)),
            Err(e) => Err(e),
        },
        ArgType::Int16 => match <i16 as Readable>::peek(reader) {
            Ok(x) => Ok(Any::Int16(x)),
            Err(e) => Err(e),
        },
        ArgType::Int32 => match <i32 as Readable>::peek(reader) {
            Ok(x) => Ok(Any::Int32(x)),
            Err(e) => Err(e),
        },
        ArgType::Int64 => match <i64 as Readable>::peek(reader) {
            Ok(x) => Ok(Any::Int64(x)),
            Err(e) => Err(e),
        },
        ArgType::Uint16 => match <u16 as Readable>::peek(reader) {
            Ok(x) => Ok(Any::Uint16(x)),
            Err(e) => Err(e),
        },
        ArgType::Uint32 => match <u32 as Readable>::peek(reader) {
            Ok(x) => Ok(Any::Uint32(x)),
            Err(e) => Err(e),
        },
        ArgType::Uint64 => match <u64 as Readable>::peek(reader) {
            Ok(x) => Ok(Any::Uint64(x)),
            Err(e) => Err(e),
        },
        ArgType::Double => match <crate::values::DoubleBits as Readable>::peek(reader) {
            Ok(x) => Ok(Any::Double(x.0)),
            Err(e) => Err(e),
        },
        ArgType::String => match <String as Readable>::peek(reader) {
            Ok(s) => Ok(Any::String(s)),
            Err(e) => Err(e),
        },
        ArgType::ObjectPath => match <crate::values::ObjectPath as Readable>::peek(reader) {
            Ok(p) => Ok(Any::ObjectPath(p.0)),
            Err(e) => Err(e),
        },
        ArgType::Signature => match <Signature as Readable>::peek(reader) {
            Ok(sig) => Ok(Any::Signature(sig)),
            Err(e) => Err(e),
        },
        ArgType::UnixFd => match <crate::values::UnixFd as Readable>::peek(reader) {
            Ok(x) => Ok(Any::UnixFd(x.0)),
            Err(e) => Err(e),
        },
        ArgType::Array => read_any_array(reader),
        ArgType::Struct => read_any_struct(reader),
        ArgType::Variant => read_any_variant(reader),
        ArgType::DictEntry => read_any_dict(reader),
        ArgType::Invalid => {
            proof {
                assert(false);
            }
            Err(Error::InvalidType)
        },
    }
}

/// Decodes a structure into a dynamic value, one member per declared type.
#[verifier::loop_isolation(false)]
fn read_any_struct(reader: &Reader<'_>) -> (r: Result<Any, Error>)
    requires
        reader@.wf(),
        reader@.has_next(),
        reader@.head_tag() == ArgType::Struct,
    ensures
        match r {
            Ok(a) => reader@.head_read() is Some && a@ == reader@.head_read().unwrap().0,
            Err(_) => reader@.head_read() is None,
        },
    decreases reader@.limit - reader@.pos, reader@.head_type().unwrap().size(), 0int,
{
    let ghost data = reader@.data;
    let ghost p0 = reader@.pos;
    let ghost lim = reader@.limit;
    let ghost h = reader@.head_type().unwrap();
    let ghost ts = h->Struct_0;
    proof {
        assert(h is Struct);
        assert(reader@.head_read() == read_of(data, p0, lim, h));
    }
    let mut sub = reader.recurse();
    let mut vals: Vec<Any> = Vec::new();
    let ghost mut gvals: Seq<AnyVal> = Seq::empty();
    proof {
        assert(ts.subrange(0, ts.len() as int) =~= ts);
        if crate::wire::read_list(data, p0, lim, ts) is Some {
            assert(gvals + crate::wire::read_list(data, p0, lim, ts).unwrap().0
                =~= crate::wire::read_list(data, p0, lim, ts).unwrap().0);
        }
    }
    while sub.has_next()
        invariant
            sub@.wf(),
            sub@.data == data,
            sub@.limit == lim,
            sub@.level is Fields,
            sub@.level->Fields_0 == ts,
            sub@.level->Fields_1 == vals@.len(),
            p0 <= sub@.pos <= lim,
            vals@.len() == gvals.len(),
            vals@.len() <= ts.len(),
            forall|j: int| 0 <= j < vals@.len() ==> (#[trigger] vals@[j])@ == gvals[j],
            match crate::wire::read_list(
                data,
                sub@.pos,
                lim,
                ts.subrange(vals@.len() as int, ts.len() as int),
            ) {
                Some(pr) => crate::wire::read_list(data, p0, lim, ts) == Some((gvals + pr.0, pr.1)),
                None => crate::wire::read_list(data, p0, lim, ts) is None,
            },
        decreases ts.len() - vals@.len(),
    {
        let ghost idx = vals@.len() as int;
        let ghost pb = sub@.pos;
        let ghost suffix = ts.subrange(idx, ts.len() as int);
        proof {
            assert(suffix[0] == ts[idx]);
            assert(sub@.head_type() == Some(ts[idx]));
            crate::signature::lemma_size_list_ge(ts, idx);
        }
        let x = match read_any(&sub) {
            Ok(x) => x,
            Err(e) => {
                proof {
                    assert(read_of(data, pb, lim, ts[idx]) is None);
                    assert(crate::wire::read_list(data, pb, lim, suffix) is None);
                }
                return Err(e);
            },
        };
        sub.advance();
        proof {
            let (v0, p1) = read_of(data, pb, lim, ts[idx]).unwrap();
            crate::wire::lemma_read_skip(data, pb, lim, ts[idx]);
            let tail = crate::wire::read_list(data, p1, lim, ts.subrange(idx + 1, ts.len() as int));
            assert(suffix.subrange(1, suffix.len() as int) =~= ts.subrange(
                idx + 1,
                ts.len() as int,
            ));
            match tail {
                Some(pr) => {
                    assert(crate::wire::read_list(data, pb, lim, suffix) == Some((
                        seq![v0] + pr.0,
                        pr.1,
                    )));
                    assert(gvals + (seq![v0] + pr.0) =~= (gvals.push(v0)) + pr.0);
                },
                None => {
                    assert(crate::wire::read_list(data, pb, lim, suffix) is None);
                },
            }
            gvals = gvals.push(v0);
        }
        vals.push(x);
    }
    proof {
        assert(vals@.len() == ts.len());
        assert(ts.subrange(ts.len() as int, ts.len() as int) =~= Seq::<WireTypeV>::empty());
        assert(crate::wire::read_list(data, sub@.pos, lim, Seq::<WireTypeV>::empty()) == Some((
            Seq::<AnyVal>::empty(),
            sub@.pos,
        )));
        assert(gvals + Seq::<AnyVal>::empty() =~= gvals);
        crate::values::lemma_any_views_len(vals@);
        assert forall|j: int| 0 <= j < vals@.len() implies #[trigger] crate::values::any_views(
            vals@,
        )[j] == gvals[j] by {
            crate::values::lemma_any_views_index(vals@, j);
        }
        assert(crate::values::any_views(vals@) =~= gvals);
    }
    Ok(Any::Struct(vals))
}

/// Decodes an array into a dynamic value, re-validating along the way that
/// every element carries the declared element type.
#[verifier::loop_isolation(false)]
fn read_any_array(reader: &Reader<'_>) -> (r: Result<Any, Error>)
    requires
        reader@.wf(),
        reader@.has_next(),
        reader@.head_tag() == ArgType::Array,
    ensures
        match r {
            Ok(a) => reader@.head_read() is Some && a@ == reader@.head_read().unwrap().0,
            Err(_) => reader@.head_read() is None,
        },
    decreases reader@.limit - reader@.pos, reader@.head_type().unwrap().size(), 0int,
{
    let ghost data = reader@.data;
    let ghost p0 = reader@.pos;
    let ghost lim = reader@.limit;
    let ghost h = reader@.head_type().unwrap();
    let ghost et = *h->Array_0;
    proof {
        assert(h is Array);
        assert(h == WireTypeV::Array(Box::new(et)));
        assert(reader@.head_read() == read_of(data, p0, lim, h));
    }
    let head = reader.head_wire_type();
    let elem_t = match head {
        WireType::Array(e) => *e,
        _ => {
            proof {
                assert(false);
            }
            WireType::Boolean
        },
    };
    let mut sub = reader.recurse();
    if sub.is_broken() {
        proof {
            assert(read_of(data, p0, lim, h) is None);
        }
        return Err(
            Error::UnexpectedEnd { expected: Signature::single(WireType::Array(Box::new(elem_t))) },
        );
    }
    let ghost start = sub@.pos;
    let ghost end2 = sub@.limit;
    let mut vals: Vec<Any> = Vec::new();
    let ghost mut gvals: Seq<AnyVal> = Seq::empty();
    proof {
        assert(sub@ == reader@.recursed());
        assert(start == p0 + 4 && end2 == p0 + 4 + le32_at(data, p0) && end2 <= lim);
        lemma_array_frame(data, p0, lim, et, start, end2);
        if crate::wire::read_elems(data, start, end2, et) is Some {
            assert(gvals + crate::wire::read_elems(data, start, end2, et).unwrap()
                =~= crate::wire::read_elems(data, start, end2, et).unwrap());
        }
    }
    while sub.has_next()
        invariant
            sub@.wf(),
            sub@.data == data,
            sub@.limit == end2,
            sub@.level == LevelModel::Elements(et),
            start <= sub@.pos <= end2,
            vals@.len() == gvals.len(),
            forall|j: int| 0 <= j < vals@.len() ==> (#[trigger] vals@[j])@ == gvals[j],
            forall|j: int| 0 <= j < gvals.len() ==> (#[trigger] gvals[j]).typ() == et,
            match crate::wire::read_elems(data, sub@.pos, end2, et) {
                Some(rest) => crate::wire::read_elems(data, start, end2, et) == Some(gvals + rest),
                None => crate::wire::read_elems(data, start, end2, et) is None,
            },
        decreases end2 - sub@.pos,
    {
        let prev = sub.position();
        let ghost pb = sub@.pos;
        let x = match read_any(&sub) {
            Ok(x) => x,
            Err(e) => {
                proof {
                    assert(read_of(data, pb, end2, et) is None);
                    assert(crate::wire::read_elems(data, pb, end2, et) is None);
                }
                return Err(e);
            },
        };
        sub.advance();
        proof {
            crate::wire::lemma_read_skip(data, pb, end2, et);
        }
        if sub.position() <= prev {
            proof {
                assert(crate::wire::read_elems(data, pb, end2, et) is None);
            }
            return Err(
                Error::UnexpectedEnd {
                    expected: Signature::single(WireType::Array(Box::new(elem_t))),
                },
            );
        }
        proof {
            let (v0, p1) = read_of(data, pb, end2, et).unwrap();
            let tail = crate::wire::read_elems(data, p1, end2, et);
            if tail is Some {
                assert(crate::wire::read_elems(data, pb, end2, et) == Some(
                    seq![v0] + tail.unwrap(),
                ));
                assert(gvals + (seq![v0] + tail.unwrap()) =~= (gvals.push(v0)) + tail.unwrap());
            } else {
                assert(crate::wire::read_elems(data, pb, end2, et) is None);
            }
            gvals = gvals.push(v0);
        }
        vals.push(x);
    }
    proof {
        assert(sub@.pos == end2);
        assert(crate::wire::read_elems(data, end2, end2, et) == Some(Seq::<AnyVal>::empty()));
        assert(gvals + Seq::<AnyVal>::empty() =~= gvals);
        crate::values::lemma_any_views_len(vals@);
        assert forall|j: int| 0 <= j < vals@.len() implies #[trigger] crate::values::any_views(
            vals@,
        )[j] == gvals[j] by {
            crate::values::lemma_any_views_index(vals@, j);
        }
        assert(crate::values::any_views(vals@) =~= gvals);
    }
    match Any::array(vals, elem_t) {
        Ok(a) => Ok(a),
        Err(_) => {
            proof {
                assert(false);
            }
            Err(Error::InvalidType)
        },
    }
}

/// Decodes a variant into a dynamic value by delegating to the one type
/// embedded in the wire data.
fn read_any_variant(reader: &Reader<'_>) -> (r: Result<Any, Error>)
    requires
        reader@.wf(),
        reader@.has_next(),
        reader@.head_tag() == ArgType::Variant,
    ensures
        match r {
            Ok(a) => reader@.head_read() is Some && a@ == reader@.head_read().unwrap().0,
            Err(_) => reader@.head_read() is None,
        },
    decreases reader@.limit - reader@.pos, reader@.head_type().unwrap().size(), 0int,
{
    let ghost data = reader@.data;
    let ghost p0 = reader@.pos;
    let ghost lim = reader@.limit;
    let ghost h = reader@.head_type().unwrap();
    proof {
        assert(h == WireTypeV::Variant);
        assert(reader@.head_read() == read_of(data, p0, lim, h));
    }
    let sub = reader.recurse();
    if sub.is_broken() {
        proof {
            assert(read_of(data, p0, lim, h) is None);
        }
        return Err(Error::MalformedSignature);
    }
    proof {
        let (ts, p2) = read_sig(data, p0, lim).unwrap();
        assert(sub@.head_type() == Some(ts[0]));
    }
    match read_any(&sub) {
        Ok(x) => Ok(Any::Variant(Box::new(x))),
        Err(e) => Err(e),
    }
}

/// Decodes a dict entry into a dynamic value: its key, then its value.
fn read_any_dict(reader: &Reader<'_>) -> (r: Result<Any, Error>)
    requires
        reader@.wf(),
        reader@.has_next(),
        reader@.head_tag() == ArgType::DictEntry,
    ensures
        match r {
            Ok(a) => reader@.head_read() is Some && a@ == reader@.head_read().unwrap().0,
            Err(_) => reader@.head_read() is None,
        },
    decreases reader@.limit - reader@.pos, reader@.head_type().unwrap().size(), 0int,
{
    let ghost data = reader@.data;
    let ghost p0 = reader@.pos;
    let ghost lim = reader@.limit;
    let ghost h = reader@.head_type().unwrap();
    let ghost kt = *h->DictEntry_0;
    let ghost vt = *h->DictEntry_1;
    proof {
        assert(h is DictEntry);
        assert(h == WireTypeV::DictEntry(Box::new(kt), Box::new(vt)));
        assert(reader@.head_read() == read_of(data, p0, lim, h));
    }
    let mut sub = reader.recurse();
    proof {
        assert(sub@.level->Fields_0 =~= seq![kt, vt]);
        assert(sub@.head_type() == Some(kt));
    }
    let kx = match read_any(&sub) {
        Ok(kx) => kx,
        Err(e) => {
            proof {
                assert(read_of(data, p0, lim, kt) is None);
            }
            return Err(e);
        },
    };
    sub.advance();
    proof {
        crate::wire::lemma_read_skip(data, p0, lim, kt);
        let (kv, p1) = read_of(data, p0, lim, kt).unwrap();
        assert(sub@.head_type() == Some(vt));
        assert(sub@.pos == p1);
    }
    let vx = match read_any(&sub) {
        Ok(vx) => vx,
        Err(e) => {
            return Err(e);
        },
    };
    Ok(Any::DictEntry(Box::new(kx), Box::new(vx)))
}

impl Readable for Any {
    /// Reported for diagnostics only: a dynamic value accepts every real
    /// wire type, and a variant is the one type that can embed any value.
    open spec fn expected_type() -> WireTypeV {
        WireTypeV::Variant
    }

    open spec fn compat(tag: ArgType) -> bool {
        true
    }

    open spec fn accepts(v: AnyVal) -> bool {
        true
    }

    open spec fn models(self, v: AnyVal) -> bool {
        self@ == v
    }

    open spec fn err_shape(m: ReaderModel, e: Error) -> bool {
        true
    }

    proof fn accepts_compat(v: AnyVal) {
    }

    fn expected() -> (r: Signature) {
        Signature::single(WireType::Variant)
    }

    fn compatible(tag: ArgType) -> (r: bool) {
        true
    }

    fn peek(reader: &Reader<'_>) -> (r: Result<Self, Error>) {
        read_any(reader)
    }
}

/// Unfolds the decode of an array value over a well-formed element extent
/// into the decode of its elements.
proof fn lemma_array_frame(data: Seq<u8>, p0: int, lim: int, et: WireTypeV, start: int, end2: int)
    requires
        0 <= p0 <= lim <= data.len(),
        start == p0 + 4,
        end2 == p0 + 4 + le32_at(data, p0),
        end2 <= lim,
    ensures
        read_of(data, p0, lim, WireTypeV::Array(Box::new(et))) == (match crate::wire::read_elems(
            data,
            start,
            end2,
            et,
        ) {
            Some(vs) => Some((AnyVal::Array(vs, et), end2)),
            None => None::<(AnyVal, int)>,
        }),
{
}

/// When typed extraction of the element at `pb` fails, the whole array
/// extent either fails to decode or contains an element `T` does not accept.
proof fn lemma_bad_element<T: Readable>(
    data: Seq<u8>,
    start: int,
    pb: int,
    end2: int,
    et: WireTypeV,
    vals: Seq<AnyVal>,
)
    requires
        0 <= start <= pb < end2 <= data.len(),
        match crate::wire::read_elems(data, pb, end2, et) {
            Some(rest) => crate::wire::read_elems(data, start, end2, et) == Some(vals + rest),
            None => crate::wire::read_elems(data, start, end2, et) is None,
        },
        !(read_of(data, pb, end2, et) is Some && T::accepts(
            read_of(data, pb, end2, et).unwrap().0,
        )),
    ensures
        !(crate::wire::read_elems(data, start, end2, et) is Some && forall|i: int|
            0 <= i < crate::wire::read_elems(data, start, end2, et).unwrap().len()
                ==> T::accepts(
                #[trigger] crate::wire::read_elems(data, start, end2, et).unwrap()[i],
            )),
{
    match read_of(data, pb, end2, et) {
        Some((v0, p1)) => {
            assert(!T::accepts(v0));
            match crate::wire::read_elems(data, pb, end2, et) {
                Some(rest) => {
                    assert(rest == seq![v0] + crate::wire::read_elems(
                        data,
                        p1,
                        end2,
                        et,
                    ).unwrap());
                    assert(rest[0] == v0);
                    assert((vals + rest)[vals.len() as int] == v0);
                    assert(!T::accepts(
                        crate::wire::read_elems(data, start, end2, et).unwrap()[vals.len() as int],
                    ));
                },
                None => {
                },
            }
        },
        None => {
            assert(crate::wire::read_elems(data, pb, end2, et) is None);
        },
    }
}

/// Relates the first two members of a struct decode to the whole decode:
/// how `read_list` over the member types unfolds through its first two
/// elements, and the acceptability facts the pair extraction needs.
proof fn lemma_struct_prefix<A: Readable, B: Readable>(
    data: Seq<u8>,
    p0: int,
    lim: int,
    ts: Seq<WireTypeV>,
)
    requires
        0 <= p0 <= lim <= data.len(),
    ensures
        ({
            let whole = crate::wire::read_list(data, p0, lim, ts);
            &&& (whole is Some ==> whole.unwrap().0.len() == ts.len())
            &&& (ts.len() >= 1 ==> match read_of(data, p0, lim, ts[0]) {
                Some((v0, p1)) => {
                    &&& (whole is Some ==> whole.unwrap().0[0] == v0)
                    &&& p0 <= p1 <= lim
                    &&& v0.typ() == ts[0]
                    &&& skip_of(data, p0, lim, ts[0]) == Some(p1)
                    &&& (A::accepts(v0) ==> A::compat(ts[0].tag()))
                    &&& (ts.len() >= 2 ==> match read_of(data, p1, lim, ts[1]) {
                        Some((v1, p2)) => {
                            &&& (whole is Some ==> whole.unwrap().0[1] == v1)
                            &&& p1 <= p2 <= lim
                            &&& v1.typ() == ts[1]
                            &&& skip_of(data, p1, lim, ts[1]) == Some(p2)
                            &&& (B::accepts(v1) ==> B::compat(ts[1].tag()))
                            &&& (ts.len() == 2 ==> whole == Some((seq![v0, v1], p2)))
                        },
                        None => whole is None,
                    })
                    &&& (ts.len() == 1 && whole is Some ==> whole == Some((seq![v0], p1)))
                },
                None => whole is None,
            })
        }),
{
    let whole = crate::wire::read_list(data, p0, lim, ts);
    if whole is Some {
        crate::wire::lemma_read_skip_list(data, p0, lim, ts);
        crate::wire::lemma_typ_list_len(whole.unwrap().0);
    }
    if ts.len() >= 1 {
        let tail = ts.subrange(1, ts.len() as int);
        match read_of(data, p0, lim, ts[0]) {
            Some((v0, p1)) => {
                crate::wire::lemma_read_skip(data, p0, lim, ts[0]);
                if A::accepts(v0) {
                    A::accepts_compat(v0);
                }
                let rest = crate::wire::read_list(data, p1, lim, tail);
                if rest is Some {
                    crate::wire::lemma_read_skip_list(data, p1, lim, tail);
                    let (rvs, p_end) = rest.unwrap();
                    assert(whole == Some((seq![v0] + rvs, p_end)));
                    assert((seq![v0] + rvs)[0] == v0);
                    crate::wire::lemma_typ_list_len(rvs);
                }
                if ts.len() >= 2 {
                    assert(tail[0] == ts[1]);
                    let tail2 = tail.subrange(1, tail.len() as int);
                    assert(tail2 =~= ts.subrange(2, ts.len() as int));
                    match read_of(data, p1, lim, ts[1]) {
                        Some((v1, p2)) => {
                            crate::wire::lemma_read_skip(data, p1, lim, ts[1]);
                            if B::accepts(v1) {
                                B::accepts_compat(v1);
                            }
                            let rest2 = crate::wire::read_list(data, p2, lim, tail2);
                            if rest2 is Some {
                                let (r2vs, q_end) = rest2.unwrap();
                                assert(crate::wire::read_list(data, p1, lim, tail) == Some((
                                    seq![v1] + r2vs,
                                    q_end,
                                )));
                                assert(whole == Some((seq![v0] + (seq![v1] + r2vs), q_end)));
                                assert((seq![v0] + (seq![v1] + r2vs))[1] == v1);
                                if ts.len() == 2 {
                                    assert(tail2.len() == 0);
                                    assert(r2vs =~= Seq::<AnyVal>::empty());
                                    assert(seq![v0] + (seq![v1] + r2vs) =~= seq![v0, v1]);
                                }
                            }
                        },
                        None => {
                        },
                    }
                } else {
                    if whole is Some {
                        assert(tail.len() == 0);
                        assert(rest.unwrap().0 =~= Seq::<AnyVal>::empty());
                        assert(seq![v0] + rest.unwrap().0 =~= seq![v0]);
                    }
                }
            },
            None => {
            },
        }
    }
}

/// Copies the byte range `[start, end)`.
fn copy_range(bytes: &Vec<u8>, start: usize, end: usize) -> (r: Vec<u8>)
    requires
        start <= end <= bytes@.len(),
    ensures
        r@ == bytes@.subrange(start as int, end as int),
{
    let mut r: Vec<u8> = Vec::new();
    let mut i: usize = start;
    while i < end
        invariant
            start <= i <= end <= bytes@.len(),
            r@.len() == i - start,
            forall|j: int| 0 <= j < r@.len() ==> r@[j] == bytes@[j + start],
        decreases end - i,
    {
        r.push(bytes[i]);
        i = i + 1;
    }
    proof {
        assert(r@ =~= bytes@.subrange(start as int, end as int));
    }
    r
}

/// The little-endian 16-bit word at `pos`.
fn u16_at(bytes: &Vec<u8>, pos: usize) -> (r: u16)
    requires
        pos + 2 <= bytes@.len(),
    ensures
        r == le16_at(bytes@, pos as int),
{
    let _total: usize = bytes.len();
    let sl = slice_subrange(bytes.as_slice(), pos, pos + 2);
    u16_from_le_bytes(sl)
}

/// The little-endian 32-bit word at `pos`.
fn u32_at(bytes: &Vec<u8>, pos: usize) -> (r: u32)
    requires
        pos + 4 <= bytes@.len(),
    ensures
        r == le32_at(bytes@, pos as int),
{
    let _total: usize = bytes.len();
    let sl = slice_subrange(bytes.as_slice(), pos, pos + 4);
    u32_from_le_bytes(sl)
}

/// The little-endian 64-bit word at `pos`.
fn u64_at(bytes: &Vec<u8>, pos: usize) -> (r: u64)
    requires
        pos + 8 <= bytes@.len(),
    ensures
        r == le64_at(bytes@, pos as int),
{
    let _total: usize = bytes.len();
    let sl = slice_subrange(bytes.as_slice(), pos, pos + 8);
    u64_from_le_bytes(sl)
}

/// Reads the signature frame at `pos`: length byte, signature bytes, NUL.
fn read_sig_at(bytes: &Vec<u8>, pos: usize, limit: usize) -> (r: Option<(Signature, usize)>)
    requires
        pos <= limit <= bytes@.len(),
    ensures
        match r {
            Some((sig, p2)) => read_sig(bytes@, pos as int, limit as int) == Some((
                sig@,
                p2 as int,
            )) && pos < p2 <= limit,
            None => read_sig(bytes@, pos as int, limit as int) is None,
        },
{
    if limit - pos < 1 {
        return None;
    }
    let n = bytes[pos] as usize;
    let avail = limit - (pos + 1);
    if avail < 1 || n > avail - 1 {
        return None;
    }
    let e2 = pos + 1 + n + 1;
    if bytes[e2 - 1] != 0 {
        return None;
    }
    let content = copy_range(bytes, pos + 1, pos + 1 + n);
    match Signature::parse(&content) {
        Ok(sig) => Some((sig, e2)),
        Err(_) => None,
    }
}

/// Advances past one value of type `t`, validating only framing.
fn skip_value(bytes: &Vec<u8>, pos: usize, limit: usize, t: &WireType) -> (r: Option<usize>)
    requires
        pos <= limit <= bytes@.len(),
    ensures
        match r {
            Some(p) => skip_of(bytes@, pos as int, limit as int, t@) == Some(p as int) && pos <= p
                <= limit,
            None => skip_of(bytes@, pos as int, limit as int, t@) is None,
        },
    decreases limit - pos, t@.size(),
{
    match t {
        WireType::Byte => if limit - pos >= 1 {
            Some(pos + 1)
        } else {
            None
        },
        WireType::Int16 | WireType::Uint16 => if limit - pos >= 2 {
            Some(pos + 2)
        } else {
            None
        },
        WireType::Boolean | WireType::Int32 | WireType::Uint32 | WireType::UnixFd => if limit - pos
            >= 4 {
            Some(pos + 4)
        } else {
            None
        },
        WireType::Int64 | WireType::Uint64 | WireType::Double => if limit - pos >= 8 {
            Some(pos + 8)
        } else {
            None
        },
        WireType::String | WireType::ObjectPath => skip_str_frame(bytes, pos, limit),
        WireType::Signature => skip_sig_frame(bytes, pos, limit),
        WireType::Variant => match read_sig_at(bytes, pos, limit) {
            Some((sig, p2)) => {
                if sig.len() == 1 {
                    skip_value(bytes, p2, limit, sig.type_at(0))
                } else {
                    None
                }
            },
            None => None,
        },
        WireType::Array(_) => {
            if limit - pos >= 4 {
                let n = u32_at(bytes, pos) as usize;
                if n <= limit - (pos + 4) {
                    Some(pos + 4 + n)
                } else {
                    None
                }
            } else {
                None
            }
        },
        WireType::Struct(ts) => skip_members(bytes, pos, limit, ts),
        WireType::DictEntry(k, v) => match skip_value(bytes, pos, limit, k) {
            Some(p2) => skip_value(bytes, p2, limit, v),
            None => None,
        },
    }
}

/// Advances past the string frame at `pos`: 32-bit length, content, NUL.
fn skip_str_frame(bytes: &Vec<u8>, pos: usize, limit: usize) -> (r: Option<usize>)
    requires
        pos <= limit <= bytes@.len(),
    ensures
        match r {
            Some(p) => crate::wire::skip_str(bytes@, pos as int, limit as int) == Some(p as int)
                && pos <= p <= limit,
            None => crate::wire::skip_str(bytes@, pos as int, limit as int) is None,
        },
{
    if limit - pos < 4 {
        return None;
    }
    let n = u32_at(bytes, pos) as usize;
    let avail = limit - (pos + 4);
    if avail < 1 || n > avail - 1 {
        return None;
    }
    let e2 = pos + 4 + n + 1;
    if bytes[e2 - 1] == 0 {
        Some(e2)
    } else {
        None
    }
}

/// Advances past the signature frame at `pos`: length byte, content, NUL.
fn skip_sig_frame(bytes: &Vec<u8>, pos: usize, limit: usize) -> (r: Option<usize>)
    requires
        pos <= limit <= bytes@.len(),
    ensures
        match r {
            Some(p) => crate::wire::skip_sig(bytes@, pos as int, limit as int) == Some(p as int)
                && pos <= p <= limit,
            None => crate::wire::skip_sig(bytes@, pos as int, limit as int) is None,
        },
{
    if limit - pos < 1 {
        return None;
    }
    let n = bytes[pos] as usize;
    let avail = limit - (pos + 1);
    if avail < 1 || n > avail - 1 {
        return None;
    }
    let e2 = pos + 1 + n + 1;
    if bytes[e2 - 1] == 0 {
        Some(e2)
    } else {
        None
    }
}

/// Advances past one value per member type, in order.
fn skip_members(bytes: &Vec<u8>, pos: usize, limit: usize, ts: &Vec<WireType>) -> (r: Option<
    usize,
>)
    requires
        pos <= limit <= bytes@.len(),
    ensures
        match r {
            Some(p) => skip_list(bytes@, pos as int, limit as int, type_views(ts@)) == Some(
                p as int,
            ) && pos <= p <= limit,
            None => skip_list(bytes@, pos as int, limit as int, type_views(ts@)) is None,
        },
    decreases limit - pos, WireTypeV::size_list(type_views(ts@)),
{
    let ghost full = type_views(ts@);
    let mut cur = pos;
    let mut i: usize = 0;
    proof {
        lemma_type_views_len(ts@);
        assert(full.subrange(0, full.len() as int) =~= full);
    }
    while i < ts.len()
        invariant
            pos <= cur <= limit <= bytes@.len(),
            i <= ts@.len(),
            full == type_views(ts@),
            full.len() == ts@.len(),
            skip_list(bytes@, pos as int, limit as int, full) == skip_list(
                bytes@,
                cur as int,
                limit as int,
                full.subrange(i as int, full.len() as int),
            ),
        decreases ts@.len() - i,
    {
        proof {
            lemma_type_views_index(ts@, i as int);
            crate::signature::lemma_size_list_ge(full, i as int);
        }
        let step = skip_value(bytes, cur, limit, &ts[i]);
        proof {
            let suffix = full.subrange(i as int, full.len() as int);
            assert(suffix[0] == full[i as int]);
            assert(suffix.subrange(1, suffix.len() as int) =~= full.subrange(
                i as int + 1,
                full.len() as int,
            ));
        }
        match step {
            Some(p2) => {
                cur = p2;
                i = i + 1;
            },
            None => {
                return None;
            },
        }
    }
    proof {
        assert(full.subrange(ts@.len() as int, full.len() as int) =~= Seq::<WireTypeV>::empty());
    }
    Some(cur)
}

} // verus!
