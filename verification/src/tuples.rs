//! Typed extraction for fixed-arity tuples beyond pairs: each arity decodes
//! a structure of exactly that many members, in declared order.

use vstd::prelude::*;

use crate::arg_type::ArgType;
use crate::reader::end_of_input_err;
use crate::reader::is_trailing_err;
use crate::reader::Error;
use crate::reader::LevelModel;
use crate::reader::Readable;
use crate::reader::Reader;
use crate::reader::ReaderModel;
use crate::signature::lemma_type_views_index;
use crate::signature::lemma_type_views_len;
use crate::signature::type_views;
use crate::signature::Signature;
use crate::signature::WireType;
use crate::signature::WireTypeV;
use crate::wire::read_of;
use crate::wire::AnyVal;

verus! {

impl<A: Readable, B: Readable, C: Readable> Readable for (A, B, C) {
    open spec fn expected_type() -> WireTypeV {
        WireTypeV::Struct(seq![A::expected_type(), B::expected_type(), C::expected_type()])
    }

    open spec fn compat(tag: ArgType) -> bool {
        tag == ArgType::Struct
    }

    open spec fn accepts(v: AnyVal) -> bool {
        &&& v is Struct
        &&& v->Struct_0.len() == 3
        &&& A::accepts(v->Struct_0[0])
        &&& B::accepts(v->Struct_0[1])
        &&& C::accepts(v->Struct_0[2])
    }

    open spec fn models(self, v: AnyVal) -> bool {
        &&& v is Struct
        &&& v->Struct_0.len() == 3
        &&& self.0.models(v->Struct_0[0])
        &&& self.1.models(v->Struct_0[1])
        &&& self.2.models(v->Struct_0[2])
    }

    open spec fn err_shape(m: ReaderModel, e: Error) -> bool {
        match m.head_type() {
            Some(WireTypeV::Struct(ts)) => match m.head_read() {
                Some((v, _)) => {
                    let elems = v->Struct_0;
                    &&& (elems.len() > 3 && A::accepts(elems[0]) && B::accepts(elems[1]) && C::accepts(elems[2]) ==> is_trailing_err(
                        e,
                        ts.subrange(3, ts.len() as int),
                    ))
                    &&& (elems.len() == 0 ==> end_of_input_err::<A>(e))
                    &&& (elems.len() == 1 && A::accepts(elems[0]) ==> end_of_input_err::<B>(e))
                    &&& (elems.len() == 2 && A::accepts(elems[0]) && B::accepts(elems[1]) ==> end_of_input_err::<C>(e))
                },
                None => true,
            },
            _ => true,
        }
    }

    proof fn accepts_compat(v: AnyVal) {
    }

    fn expected() -> (r: Signature) {
        let mut members: Vec<WireType> = Vec::new();
        let e0 = A::expected();
        members.push(e0.type_at(0).duplicate());
        let e1 = B::expected();
        members.push(e1.type_at(0).duplicate());
        let e2 = C::expected();
        members.push(e2.type_at(0).duplicate());
        proof {
            lemma_type_views_len(members@);
            lemma_type_views_index(members@, 0);
            lemma_type_views_index(members@, 1);
            lemma_type_views_index(members@, 2);
            assert(type_views(members@) =~= seq![A::expected_type(), B::expected_type(), C::expected_type()]);
        }
        Signature::single(WireType::Struct(members))
    }

    fn compatible(tag: ArgType) -> (r: bool) {
        tag == ArgType::Struct
    }

    /// Consumes exactly 3 members in declared order.  A structure with
    /// more members than the tuple's arity is reported as a trailing type
    /// carrying the unread members' signature; one with fewer members ends
    /// the level early and is reported so.
    fn peek(reader: &Reader<'_>) -> (r: Result<Self, Error>) {
        let ghost data = reader@.data;
        let ghost p0 = reader@.pos;
        let ghost lim = reader@.limit;
        let ghost h = reader@.head_type().unwrap();
        let ghost ts = h->Struct_0;
        let mut sub = reader.recurse();
        proof {
            assert(h is Struct);
            assert(h == WireTypeV::Struct(ts));
            assert(reader@.head_read() == read_of(data, p0, lim, h));
            assert(read_of(data, p0, lim, h) == (match crate::wire::read_list(data, p0, lim, ts) {
                Some((vs, p)) => Some((AnyVal::Struct(vs), p)),
                None => None::<(AnyVal, int)>,
            }));
            assert(sub@ == ReaderModel {
                data: data,
                pos: p0,
                limit: lim,
                level: LevelModel::Fields(ts, 0),
            });
        }
        let ghost whole = crate::wire::read_list(data, p0, lim, ts);
        let ghost pos0 = p0;
        let ghost sfx0 = ts;
        let ghost sfx1 = ts.subrange(1, ts.len() as int);
        proof {
            if ts.len() > 0 {
                assert(sfx0[0] == ts[0]);
                assert(sfx0.subrange(1, sfx0.len() as int) =~= sfx1);
                crate::wire::lemma_read_list_step(data, pos0, lim, sfx0);
                if read_of(data, pos0, lim, ts[0]) is Some {
                    let (v, p) = read_of(data, pos0, lim, ts[0]).unwrap();
                    if A::accepts(v) {
                        A::accepts_compat(v);
                    }
                }
            }
        }
        let x0 = match sub.consume::<A>() {
            Ok(x) => x,
            Err(e) => {
                proof {
                    if whole is Some {
                        crate::wire::lemma_typ_list_len(whole.unwrap().0);
                        crate::wire::lemma_read_skip_list(data, p0, lim, ts);
                        if ts.len() > 0 {
                            assert(crate::wire::read_list(data, pos0, lim, sfx0) is Some);
                            assert(crate::wire::read_list(data, pos0, lim, sfx0).unwrap().0 == seq![read_of(data, pos0, lim, ts[0]).unwrap().0] + crate::wire::read_list(data, read_of(data, pos0, lim, ts[0]).unwrap().1, lim, sfx1).unwrap().0);
                            assert(crate::wire::read_list(data, pos0, lim, sfx0).unwrap().0[0] == read_of(data, pos0, lim, ts[0]).unwrap().0);
                        }
                    }
                }
                return Err(e);
            },
        };
        let ghost gv0 = read_of(data, pos0, lim, ts[0]).unwrap().0;
        let ghost pos1 = sub@.pos;
        let ghost sfx2 = ts.subrange(2, ts.len() as int);
        proof {
            if ts.len() > 1 {
                assert(sfx1[0] == ts[1]);
                assert(sfx1.subrange(1, sfx1.len() as int) =~= sfx2);
                crate::wire::lemma_read_list_step(data, pos1, lim, sfx1);
                if read_of(data, pos1, lim, ts[1]) is Some {
                    let (v, p) = read_of(data, pos1, lim, ts[1]).unwrap();
                    if B::accepts(v) {
                        B::accepts_compat(v);
                    }
                }
            }
        }
        let x1 = match sub.consume::<B>() {
            Ok(x) => x,
            Err(e) => {
                proof {
                    if whole is Some {
                        crate::wire::lemma_typ_list_len(whole.unwrap().0);
                        crate::wire::lemma_read_skip_list(data, p0, lim, ts);
                        if ts.len() > 1 {
                            assert(crate::wire::read_list(data, pos0, lim, sfx0) is Some);
                            assert(crate::wire::read_list(data, pos1, lim, sfx1) is Some);
                            assert(crate::wire::read_list(data, pos0, lim, sfx0).unwrap().0 == seq![read_of(data, pos0, lim, ts[0]).unwrap().0] + crate::wire::read_list(data, pos1, lim, sfx1).unwrap().0);
                            assert(crate::wire::read_list(data, pos1, lim, sfx1).unwrap().0 == seq![read_of(data, pos1, lim, ts[1]).unwrap().0] + crate::wire::read_list(data, read_of(data, pos1, lim, ts[1]).unwrap().1, lim, sfx2).unwrap().0);
                            assert(crate::wire::read_list(data, pos0, lim, sfx0).unwrap().0[1] == crate::wire::read_list(data, pos1, lim, sfx1).unwrap().0[0]);
                            assert(crate::wire::read_list(data, pos1, lim, sfx1).unwrap().0[0] == read_of(data, pos1, lim, ts[1]).unwrap().0);
                        }
                    }
                }
                return Err(e);
            },
        };
        let ghost gv1 = read_of(data, pos1, lim, ts[1]).unwrap().0;
        let ghost pos2 = sub@.pos;
        let ghost sfx3 = ts.subrange(3, ts.len() as int);
        proof {
            if ts.len() > 2 {
                assert(sfx2[0] == ts[2]);
                assert(sfx2.subrange(1, sfx2.len() as int) =~= sfx3);
                crate::wire::lemma_read_list_step(data, pos2, lim, sfx2);
                if read_of(data, pos2, lim, ts[2]) is Some {
                    let (v, p) = read_of(data, pos2, lim, ts[2]).unwrap();
                    if C::accepts(v) {
                        C::accepts_compat(v);
                    }
                }
            }
        }
        let x2 = match sub.consume::<C>() {
            Ok(x) => x,
            Err(e) => {
                proof {
                    if whole is Some {
                        crate::wire::lemma_typ_list_len(whole.unwrap().0);
                        crate::wire::lemma_read_skip_list(data, p0, lim, ts);
                        if ts.len() > 2 {
                            assert(crate::wire::read_list(data, pos0, lim, sfx0) is Some);
                            assert(crate::wire::read_list(data, pos1, lim, sfx1) is Some);
                            assert(crate::wire::read_list(data, pos2, lim, sfx2) is Some);
                            assert(crate::wire::read_list(data, pos0, lim, sfx0).unwrap().0 == seq![read_of(data, pos0, lim, ts[0]).unwrap().0] + crate::wire::read_list(data, pos1, lim, sfx1).unwrap().0);
                            assert(crate::wire::read_list(data, pos1, lim, sfx1).unwrap().0 == seq![read_of(data, pos1, lim, ts[1]).unwrap().0] + crate::wire::read_list(data, pos2, lim, sfx2).unwrap().0);
                            assert(crate::wire::read_list(data, pos2, lim, sfx2).unwrap().0 == seq![read_of(data, pos2, lim, ts[2]).unwrap().0] + crate::wire::read_list(data, read_of(data, pos2, lim, ts[2]).unwrap().1, lim, sfx3).unwrap().0);
                            assert(crate::wire::read_list(data, pos0, lim, sfx0).unwrap().0[2] == crate::wire::read_list(data, pos1, lim, sfx1).unwrap().0[1]);
                            assert(crate::wire::read_list(data, pos1, lim, sfx1).unwrap().0[1] == crate::wire::read_list(data, pos2, lim, sfx2).unwrap().0[0]);
                            assert(crate::wire::read_list(data, pos2, lim, sfx2).unwrap().0[0] == read_of(data, pos2, lim, ts[2]).unwrap().0);
                        }
                    }
                }
                return Err(e);
            },
        };
        let ghost gv2 = read_of(data, pos2, lim, ts[2]).unwrap().0;
        let ghost pos3 = sub@.pos;
        proof {
            if whole is Some {
                crate::wire::lemma_typ_list_len(whole.unwrap().0);
                crate::wire::lemma_read_skip_list(data, p0, lim, ts);
            }
            if ts.len() == 3 {
                assert(sfx3.len() == 0);
                assert(crate::wire::read_list(data, pos3, lim, sfx3) == Some((
                    Seq::<AnyVal>::empty(),
                    pos3,
                )));
                assert(seq![gv2] + Seq::<AnyVal>::empty() =~= seq![gv2]);
                assert(crate::wire::read_list(data, pos2, lim, sfx2) == Some((seq![gv2], pos3)));
                assert(seq![gv1] + seq![gv2] =~= seq![gv1, gv2]);
                assert(crate::wire::read_list(data, pos1, lim, sfx1) == Some((seq![gv1, gv2], pos3)));
                assert(seq![gv0] + seq![gv1, gv2] =~= seq![gv0, gv1, gv2]);
                assert(crate::wire::read_list(data, pos0, lim, sfx0) == Some((seq![gv0, gv1, gv2], pos3)));
            }
        }
        match sub.terminated() {
            Ok(()) => Ok((x0, x1, x2)),
            Err(e) => Err(e),
        }
    }
}

impl<A: Readable, B: Readable, C: Readable, D: Readable> Readable for (A, B, C, D) {
    open spec fn expected_type() -> WireTypeV {
        WireTypeV::Struct(seq![A::expected_type(), B::expected_type(), C::expected_type(), D::expected_type()])
    }

    open spec fn compat(tag: ArgType) -> bool {
        tag == ArgType::Struct
    }

    open spec fn accepts(v: AnyVal) -> bool {
        &&& v is Struct
        &&& v->Struct_0.len() == 4
        &&& A::accepts(v->Struct_0[0])
        &&& B::accepts(v->Struct_0[1])
        &&& C::accepts(v->Struct_0[2])
        &&& D::accepts(v->Struct_0[3])
    }

    open spec fn models(self, v: AnyVal) -> bool {
        &&& v is Struct
        &&& v->Struct_0.len() == 4
        &&& self.0.models(v->Struct_0[0])
        &&& self.1.models(v->Struct_0[1])
        &&& self.2.models(v->Struct_0[2])
        &&& self.3.models(v->Struct_0[3])
    }

    open spec fn err_shape(m: ReaderModel, e: Error) -> bool {
        match m.head_type() {
            Some(WireTypeV::Struct(ts)) => match m.head_read() {
                Some((v, _)) => {
                    let elems = v->Struct_0;
                    &&& (elems.len() > 4 && A::accepts(elems[0]) && B::accepts(elems[1]) && C::accepts(elems[2]) && D::accepts(elems[3]) ==> is_trailing_err(
                        e,
                        ts.subrange(4, ts.len() as int),
                    ))
                    &&& (elems.len() == 0 ==> end_of_input_err::<A>(e))
                    &&& (elems.len() == 1 && A::accepts(elems[0]) ==> end_of_input_err::<B>(e))
                    &&& (elems.len() == 2 && A::accepts(elems[0]) && B::accepts(elems[1]) ==> end_of_input_err::<C>(e))
                    &&& (elems.len() == 3 && A::accepts(elems[0]) && B::accepts(elems[1]) && C::accepts(elems[2]) ==> end_of_input_err::<D>(e))
                },
                None => true,
            },
            _ => true,
        }
    }

    proof fn accepts_compat(v: AnyVal) {
    }

    fn expected() -> (r: Signature) {
        let mut members: Vec<WireType> = Vec::new();
        let e0 = A::expected();
        members.push(e0.type_at(0).duplicate());
        let e1 = B::expected();
        members.push(e1.type_at(0).duplicate());
        let e2 = C::expected();
        members.push(e2.type_at(0).duplicate());
        let e3 = D::expected();
        members.push(e3.type_at(0).duplicate());
        proof {
            lemma_type_views_len(members@);
            lemma_type_views_index(members@, 0);
            lemma_type_views_index(members@, 1);
            lemma_type_views_index(members@, 2);
            lemma_type_views_index(members@, 3);
            assert(type_views(members@) =~= seq![A::expected_type(), B::expected_type(), C::expected_type(), D::expected_type()]);
        }
        Signature::single(WireType::Struct(members))
    }

    fn compatible(tag: ArgType) -> (r: bool) {
        tag == ArgType::Struct
    }

    /// Consumes exactly 4 members in declared order.  A structure with
    /// more members than the tuple's arity is reported as a trailing type
    /// carrying the unread members' signature; one with fewer members ends
    /// the level early and is reported so.
    fn peek(reader: &Reader<'_>) -> (r: Result<Self, Error>) {
        let ghost data = reader@.data;
        let ghost p0 = reader@.pos;
        let ghost lim = reader@.limit;
        let ghost h = reader@.head_type().unwrap();
        let ghost ts = h->Struct_0;
        let mut sub = reader.recurse();
        proof {
            assert(h is Struct);
            assert(h == WireTypeV::Struct(ts));
            assert(reader@.head_read() == read_of(data, p0, lim, h));
            assert(read_of(data, p0, lim, h) == (match crate::wire::read_list(data, p0, lim, ts) {
                Some((vs, p)) => Some((AnyVal::Struct(vs), p)),
                None => None::<(AnyVal, int)>,
            }));
            assert(sub@ == ReaderModel {
                data: data,
                pos: p0,
                limit: lim,
                level: LevelModel::Fields(ts, 0),
            });
        }
        let ghost whole = crate::wire::read_list(data, p0, lim, ts);
        let ghost pos0 = p0;
        let ghost sfx0 = ts;
        let ghost sfx1 = ts.subrange(1, ts.len() as int);
        proof {
            if ts.len() > 0 {
                assert(sfx0[0] == ts[0]);
                assert(sfx0.subrange(1, sfx0.len() as int) =~= sfx1);
                crate::wire::lemma_read_list_step(data, pos0, lim, sfx0);
                if read_of(data, pos0, lim, ts[0]) is Some {
                    let (v, p) = read_of(data, pos0, lim, ts[0]).unwrap();
                    if A::accepts(v) {
                        A::accepts_compat(v);
                    }
                }
            }
        }
        let x0 = match sub.consume::<A>() {
            Ok(x) => x,
            Err(e) => {
                proof {
                    if whole is Some {
                        crate::wire::lemma_typ_list_len(whole.unwrap().0);
                        crate::wire::lemma_read_skip_list(data, p0, lim, ts);
                        if ts.len() > 0 {
                            assert(crate::wire::read_list(data, pos0, lim, sfx0) is Some);
                            assert(crate::wire::read_list(data, pos0, lim, sfx0).unwrap().0 == seq![read_of(data, pos0, lim, ts[0]).unwrap().0] + crate::wire::read_list(data, read_of(data, pos0, lim, ts[0]).unwrap().1, lim, sfx1).unwrap().0);
                            assert(crate::wire::read_list(data, pos0, lim, sfx0).unwrap().0[0] == read_of(data, pos0, lim, ts[0]).unwrap().0);
                        }
                    }
                }
                return Err(e);
            },
        };
        let ghost gv0 = read_of(data, pos0, lim, ts[0]).unwrap().0;
        let ghost pos1 = sub@.pos;
        let ghost sfx2 = ts.subrange(2, ts.len() as int);
        proof {
            if ts.len() > 1 {
                assert(sfx1[0] == ts[1]);
                assert(sfx1.subrange(1, sfx1.len() as int) =~= sfx2);
                crate::wire::lemma_read_list_step(data, pos1, lim, sfx1);
                if read_of(data, pos1, lim, ts[1]) is Some {
                    let (v, p) = read_of(data, pos1, lim, ts[1]).unwrap();
                    if B::accepts(v) {
                        B::accepts_compat(v);
                    }
                }
            }
        }
        let x1 = match sub.consume::<B>() {
            Ok(x) => x,
            Err(e) => {
                proof {
                    if whole is Some {
                        crate::wire::lemma_typ_list_len(whole.unwrap().0);
                        crate::wire::lemma_read_skip_list(data, p0, lim, ts);
                        if ts.len() > 1 {
                            assert(crate::wire::read_list(data, pos0, lim, sfx0) is Some);
                            assert(crate::wire::read_list(data, pos1, lim, sfx1) is Some);
                            assert(crate::wire::read_list(data, pos0, lim, sfx0).unwrap().0 == seq![read_of(data, pos0, lim, ts[0]).unwrap().0] + crate::wire::read_list(data, pos1, lim, sfx1).unwrap().0);
                            assert(crate::wire::read_list(data, pos1, lim, sfx1).unwrap().0 == seq![read_of(data, pos1, lim, ts[1]).unwrap().0] + crate::wire::read_list(data, read_of(data, pos1, lim, ts[1]).unwrap().1, lim, sfx2).unwrap().0);
                            assert(crate::wire::read_list(data, pos0, lim, sfx0).unwrap().0[1] == crate::wire::read_list(data, pos1, lim, sfx1).unwrap().0[0]);
                            assert(crate::wire::read_list(data, pos1, lim, sfx1).unwrap().0[0] == read_of(data, pos1, lim, ts[1]).unwrap().0);
                        }
                    }
                }
                return Err(e);
            },
        };
        let ghost gv1 = read_of(data, pos1, lim, ts[1]).unwrap().0;
        let ghost pos2 = sub@.pos;
        let ghost sfx3 = ts.subrange(3, ts.len() as int);
        proof {
            if ts.len() > 2 {
                assert(sfx2[0] == ts[2]);
                assert(sfx2.subrange(1, sfx2.len() as int) =~= sfx3);
                crate::wire::lemma_read_list_step(data, pos2, lim, sfx2);
                if read_of(data, pos2, lim, ts[2]) is Some {
                    let (v, p) = read_of(data, pos2, lim, ts[2]).unwrap();
                    if C::accepts(v) {
                        C::accepts_compat(v);
                    }
                }
            }
        }
        let x2 = match sub.consume::<C>() {
            Ok(x) => x,
            Err(e) => {
                proof {
                    if whole is Some {
                        crate::wire::lemma_typ_list_len(whole.unwrap().0);
                        crate::wire::lemma_read_skip_list(data, p0, lim, ts);
                        if ts.len() > 2 {
                            assert(crate::wire::read_list(data, pos0, lim, sfx0) is Some);
                            assert(crate::wire::read_list(data, pos1, lim, sfx1) is Some);
                            assert(crate::wire::read_list(data, pos2, lim, sfx2) is Some);
                            assert(crate::wire::read_list(data, pos0, lim, sfx0).unwrap().0 == seq![read_of(data, pos0, lim, ts[0]).unwrap().0] + crate::wire::read_list(data, pos1, lim, sfx1).unwrap().0);
                            assert(crate::wire::read_list(data, pos1, lim, sfx1).unwrap().0 == seq![read_of(data, pos1, lim, ts[1]).unwrap().0] + crate::wire::read_list(data, pos2, lim, sfx2).unwrap().0);
                            assert(crate::wire::read_list(data, pos2, lim, sfx2).unwrap().0 == seq![read_of(data, pos2, lim, ts[2]).unwrap().0] + crate::wire::read_list(data, read_of(data, pos2, lim, ts[2]).unwrap().1, lim, sfx3).unwrap().0);
                            assert(crate::wire::read_list(data, pos0, lim, sfx0).unwrap().0[2] == crate::wire::read_list(data, pos1, lim, sfx1).unwrap().0[1]);
                            assert(crate::wire::read_list(data, pos1, lim, sfx1).unwrap().0[1] == crate::wire::read_list(data, pos2, lim, sfx2).unwrap().0[0]);
                            assert(crate::wire::read_list(data, pos2, lim, sfx2).unwrap().0[0] == read_of(data, pos2, lim, ts[2]).unwrap().0);
                        }
                    }
                }
                return Err(e);
            },
        };
        let ghost gv2 = read_of(data, pos2, lim, ts[2]).unwrap().0;
        let ghost pos3 = sub@.pos;
        let ghost sfx4 = ts.subrange(4, ts.len() as int);
        proof {
            if ts.len() > 3 {
                assert(sfx3[0] == ts[3]);
                assert(sfx3.subrange(1, sfx3.len() as int) =~= sfx4);
                crate::wire::lemma_read_list_step(data, pos3, lim, sfx3);
                if read_of(data, pos3, lim, ts[3]) is Some {
                    let (v, p) = read_of(data, pos3, lim, ts[3]).unwrap();
                    if D::accepts(v) {
                        D::accepts_compat(v);
                    }
                }
            }
        }
        let x3 = match sub.consume::<D>() {
            Ok(x) => x,
            Err(e) => {
                proof {
                    if whole is Some {
                        crate::wire::lemma_typ_list_len(whole.unwrap().0);
                        crate::wire::lemma_read_skip_list(data, p0, lim, ts);
                        if ts.len() > 3 {
                            assert(crate::wire::read_list(data, pos0, lim, sfx0) is Some);
                            assert(crate::wire::read_list(data, pos1, lim, sfx1) is Some);
                            assert(crate::wire::read_list(data, pos2, lim, sfx2) is Some);
                            assert(crate::wire::read_list(data, pos3, lim, sfx3) is Some);
                            assert(crate::wire::read_list(data, pos0, lim, sfx0).unwrap().0 == seq![read_of(data, pos0, lim, ts[0]).unwrap().0] + crate::wire::read_list(data, pos1, lim, sfx1).unwrap().0);
                            assert(crate::wire::read_list(data, pos1, lim, sfx1).unwrap().0 == seq![read_of(data, pos1, lim, ts[1]).unwrap().0] + crate::wire::read_list(data, pos2, lim, sfx2).unwrap().0);
                            assert(crate::wire::read_list(data, pos2, lim, sfx2).unwrap().0 == seq![read_of(data, pos2, lim, ts[2]).unwrap().0] + crate::wire::read_list(data, pos3, lim, sfx3).unwrap().0);
                            assert(crate::wire::read_list(data, pos3, lim, sfx3).unwrap().0 == seq![read_of(data, pos3, lim, ts[3]).unwrap().0] + crate::wire::read_list(data, read_of(data, pos3, lim, ts[3]).unwrap().1, lim, sfx4).unwrap().0);
                            assert(crate::wire::read_list(data, pos0, lim, sfx0).unwrap().0[3] == crate::wire::read_list(data, pos1, lim, sfx1).unwrap().0[2]);
                            assert(crate::wire::read_list(data, pos1, lim, sfx1).unwrap().0[2] == crate::wire::read_list(data, pos2, lim, sfx2).unwrap().0[1]);
                            assert(crate::wire::read_list(data, pos2, lim, sfx2).unwrap().0[1] == crate::wire::read_list(data, pos3, lim, sfx3).unwrap().0[0]);
                            assert(crate::wire::read_list(data, pos3, lim, sfx3).unwrap().0[0] == read_of(data, pos3, lim, ts[3]).unwrap().0);
                        }
                    }
                }
                return Err(e);
            },
        };
        let ghost gv3 = read_of(data, pos3, lim, ts[3]).unwrap().0;
        let ghost pos4 = sub@.pos;
        proof {
            if whole is Some {
                crate::wire::lemma_typ_list_len(whole.unwrap().0);
                crate::wire::lemma_read_skip_list(data, p0, lim, ts);
            }
            if ts.len() == 4 {
                assert(sfx4.len() == 0);
                assert(crate::wire::read_list(data, pos4, lim, sfx4) == Some((
                    Seq::<AnyVal>::empty(),
                    pos4,
                )));
                assert(seq![gv3] + Seq::<AnyVal>::empty() =~= seq![gv3]);
                assert(crate::wire::read_list(data, pos3, lim, sfx3) == Some((seq![gv3], pos4)));
                assert(seq![gv2] + seq![gv3] =~= seq![gv2, gv3]);
                assert(crate::wire::read_list(data, pos2, lim, sfx2) == Some((seq![gv2, gv3], pos4)));
                assert(seq![gv1] + seq![gv2, gv3] =~= seq![gv1, gv2, gv3]);
                assert(crate::wire::read_list(data, pos1, lim, sfx1) == Some((seq![gv1, gv2, gv3], pos4)));
                assert(seq![gv0] + seq![gv1, gv2, gv3] =~= seq![gv0, gv1, gv2, gv3]);
                assert(crate::wire::read_list(data, pos0, lim, sfx0) == Some((seq![gv0, gv1, gv2, gv3], pos4)));
            }
        }
        match sub.terminated() {
            Ok(()) => Ok((x0, x1, x2, x3)),
            Err(e) => Err(e),
        }
    }
}

impl<A: Readable, B: Readable, C: Readable, D: Readable, E: Readable> Readable for (A, B, C, D, E) {
    open spec fn expected_type() -> WireTypeV {
        WireTypeV::Struct(seq![A::expected_type(), B::expected_type(), C::expected_type(), D::expected_type(), E::expected_type()])
    }

    open spec fn compat(tag: ArgType) -> bool {
        tag == ArgType::Struct
    }

    open spec fn accepts(v: AnyVal) -> bool {
        &&& v is Struct
        &&& v->Struct_0.len() == 5
        &&& A::accepts(v->Struct_0[0])
        &&& B::accepts(v->Struct_0[1])
        &&& C::accepts(v->Struct_0[2])
        &&& D::accepts(v->Struct_0[3])
        &&& E::accepts(v->Struct_0[4])
    }

    open spec fn models(self, v: AnyVal) -> bool {
        &&& v is Struct
        &&& v->Struct_0.len() == 5
        &&& self.0.models(v->Struct_0[0])
        &&& self.1.models(v->Struct_0[1])
        &&& self.2.models(v->Struct_0[2])
        &&& self.3.models(v->Struct_0[3])
        &&& self.4.models(v->Struct_0[4])
    }

    open spec fn err_shape(m: ReaderModel, e: Error) -> bool {
        match m.head_type() {
            Some(WireTypeV::Struct(ts)) => match m.head_read() {
                Some((v, _)) => {
                    let elems = v->Struct_0;
                    &&& (elems.len() > 5 && A::accepts(elems[0]) && B::accepts(elems[1]) && C::accepts(elems[2]) && D::accepts(elems[3]) && E::accepts(elems[4]) ==> is_trailing_err(
                        e,
                        ts.subrange(5, ts.len() as int),
                    ))
                    &&& (elems.len() == 0 ==> end_of_input_err::<A>(e))
                    &&& (elems.len() == 1 && A::accepts(elems[0]) ==> end_of_input_err::<B>(e))
                    &&& (elems.len() == 2 && A::accepts(elems[0]) && B::accepts(elems[1]) ==> end_of_input_err::<C>(e))
                    &&& (elems.len() == 3 && A::accepts(elems[0]) && B::accepts(elems[1]) && C::accepts(elems[2]) ==> end_of_input_err::<D>(e))
                    &&& (elems.len() == 4 && A::accepts(elems[0]) && B::accepts(elems[1]) && C::accepts(elems[2]) && D::accepts(elems[3]) ==> end_of_input_err::<E>(e))
                },
                None => true,
            },
            _ => true,
        }
    }

    proof fn accepts_compat(v: AnyVal) {
    }

    fn expected() -> (r: Signature) {
        let mut members: Vec<WireType> = Vec::new();
        let e0 = A::expected();
        members.push(e0.type_at(0).duplicate());
        let e1 = B::expected();
        members.push(e1.type_at(0).duplicate());
        let e2 = C::expected();
        members.push(e2.type_at(0).duplicate());
        let e3 = D::expected();
        members.push(e3.type_at(0).duplicate());
        let e4 = E::expected();
        members.push(e4.type_at(0).duplicate());
        proof {
            lemma_type_views_len(members@);
            lemma_type_views_index(members@, 0);
            lemma_type_views_index(members@, 1);
            lemma_type_views_index(members@, 2);
            lemma_type_views_index(members@, 3);
            lemma_type_views_index(members@, 4);
            assert(type_views(members@) =~= seq![A::expected_type(), B::expected_type(), C::expected_type(), D::expected_type(), E::expected_type()]);
        }
        Signature::single(WireType::Struct(members))
    }

    fn compatible(tag: ArgType) -> (r: bool) {
        tag == ArgType::Struct
    }

    /// Consumes exactly 5 members in declared order.  A structure with
    /// more members than the tuple's arity is reported as a trailing type
    /// carrying the unread members' signature; one with fewer members ends
    /// the level early and is reported so.
    fn peek(reader: &Reader<'_>) -> (r: Result<Self, Error>) {
        let ghost data = reader@.data;
        let ghost p0 = reader@.pos;
        let ghost lim = reader@.limit;
        let ghost h = reader@.head_type().unwrap();
        let ghost ts = h->Struct_0;
        let mut sub = reader.recurse();
        proof {
            assert(h is Struct);
            assert(h == WireTypeV::Struct(ts));
            assert(reader@.head_read() == read_of(data, p0, lim, h));
            assert(read_of(data, p0, lim, h) == (match crate::wire::read_list(data, p0, lim, ts) {
                Some((vs, p)) => Some((AnyVal::Struct(vs), p)),
                None => None::<(AnyVal, int)>,
            }));
            assert(sub@ == ReaderModel {
                data: data,
                pos: p0,
                limit: lim,
                level: LevelModel::Fields(ts, 0),
            });
        }
        let ghost whole = crate::wire::read_list(data, p0, lim, ts);
        let ghost pos0 = p0;
        let ghost sfx0 = ts;
        let ghost sfx1 = ts.subrange(1, ts.len() as int);
        proof {
            if ts.len() > 0 {
                assert(sfx0[0] == ts[0]);
                assert(sfx0.subrange(1, sfx0.len() as int) =~= sfx1);
                crate::wire::lemma_read_list_step(data, pos0, lim, sfx0);
                if read_of(data, pos0, lim, ts[0]) is Some {
                    let (v, p) = read_of(data, pos0, lim, ts[0]).unwrap();
                    if A::accepts(v) {
                        A::accepts_compat(v);
                    }
                }
            }
        }
        let x0 = match sub.consume::<A>() {
            Ok(x) => x,
            Err(e) => {
                proof {
                    if whole is Some {
                        crate::wire::lemma_typ_list_len(whole.unwrap().0);
                        crate::wire::lemma_read_skip_list(data, p0, lim, ts);
                        if ts.len() > 0 {
                            assert(crate::wire::read_list(data, pos0, lim, sfx0) is Some);
                            assert(crate::wire::read_list(data, pos0, lim, sfx0).unwrap().0 == seq![read_of(data, pos0, lim, ts[0]).unwrap().0] + crate::wire::read_list(data, read_of(data, pos0, lim, ts[0]).unwrap().1, lim, sfx1).unwrap().0);
                            assert(crate::wire::read_list(data, pos0, lim, sfx0).unwrap().0[0] == read_of(data, pos0, lim, ts[0]).unwrap().0);
                        }
                    }
                }
                return Err(e);
            },
        };
        let ghost gv0 = read_of(data, pos0, lim, ts[0]).unwrap().0;
        let ghost pos1 = sub@.pos;
        let ghost sfx2 = ts.subrange(2, ts.len() as int);
        proof {
            if ts.len() > 1 {
                assert(sfx1[0] == ts[1]);
                assert(sfx1.subrange(1, sfx1.len() as int) =~= sfx2);
                crate::wire::lemma_read_list_step(data, pos1, lim, sfx1);
                if read_of(data, pos1, lim, ts[1]) is Some {
                    let (v, p) = read_of(data, pos1, lim, ts[1]).unwrap();
                    if B::accepts(v) {
                        B::accepts_compat(v);
                    }
                }
            }
        }
        let x1 = match sub.consume::<B>() {
            Ok(x) => x,
            Err(e) => {
                proof {
                    if whole is Some {
                        crate::wire::lemma_typ_list_len(whole.unwrap().0);
                        crate::wire::lemma_read_skip_list(data, p0, lim, ts);
                        if ts.len() > 1 {
                            assert(crate::wire::read_list(data, pos0, lim, sfx0) is Some);
                            assert(crate::wire::read_list(data, pos1, lim, sfx1) is Some);
                            assert(crate::wire::read_list(data, pos0, lim, sfx0).unwrap().0 == seq![read_of(data, pos0, lim, ts[0]).unwrap().0] + crate::wire::read_list(data, pos1, lim, sfx1).unwrap().0);
                            assert(crate::wire::read_list(data, pos1, lim, sfx1).unwrap().0 == seq![read_of(data, pos1, lim, ts[1]).unwrap().0] + crate::wire::read_list(data, read_of(data, pos1, lim, ts[1]).unwrap().1, lim, sfx2).unwrap().0);
                            assert(crate::wire::read_list(data, pos0, lim, sfx0).unwrap().0[1] == crate::wire::read_list(data, pos1, lim, sfx1).unwrap().0[0]);
                            assert(crate::wire::read_list(data, pos1, lim, sfx1).unwrap().0[0] == read_of(data, pos1, lim, ts[1]).unwrap().0);
                        }
                    }
                }
                return Err(e);
            },
        };
        let ghost gv1 = read_of(data, pos1, lim, ts[1]).unwrap().0;
        let ghost pos2 = sub@.pos;
        let ghost sfx3 = ts.subrange(3, ts.len() as int);
        proof {
            if ts.len() > 2 {
                assert(sfx2[0] == ts[2]);
                assert(sfx2.subrange(1, sfx2.len() as int) =~= sfx3);
                crate::wire::lemma_read_list_step(data, pos2, lim, sfx2);
                if read_of(data, pos2, lim, ts[2]) is Some {
                    let (v, p) = read_of(data, pos2, lim, ts[2]).unwrap();
                    if C::accepts(v) {
                        C::accepts_compat(v);
                    }
                }
            }
        }
        let x2 = match sub.consume::<C>() {
            Ok(x) => x,
            Err(e) => {
                proof {
                    if whole is Some {
                        crate::wire::lemma_typ_list_len(whole.unwrap().0);
                        crate::wire::lemma_read_skip_list(data, p0, lim, ts);
                        if ts.len() > 2 {
                            assert(crate::wire::read_list(data, pos0, lim, sfx0) is Some);
                            assert(crate::wire::read_list(data, pos1, lim, sfx1) is Some);
                            assert(crate::wire::read_list(data, pos2, lim, sfx2) is Some);
                            assert(crate::wire::read_list(data, pos0, lim, sfx0).unwrap().0 == seq![read_of(data, pos0, lim, ts[0]).unwrap().0] + crate::wire::read_list(data, pos1, lim, sfx1).unwrap().0);
                            assert(crate::wire::read_list(data, pos1, lim, sfx1).unwrap().0 == seq![read_of(data, pos1, lim, ts[1]).unwrap().0] + crate::wire::read_list(data, pos2, lim, sfx2).unwrap().0);
                            assert(crate::wire::read_list(data, pos2, lim, sfx2).unwrap().0 == seq![read_of(data, pos2, lim, ts[2]).unwrap().0] + crate::wire::read_list(data, read_of(data, pos2, lim, ts[2]).unwrap().1, lim, sfx3).unwrap().0);
                            assert(crate::wire::read_list(data, pos0, lim, sfx0).unwrap().0[2] == crate::wire::read_list(data, pos1, lim, sfx1).unwrap().0[1]);
                            assert(crate::wire::read_list(data, pos1, lim, sfx1).unwrap().0[1] == crate::wire::read_list(data, pos2, lim, sfx2).unwrap().0[0]);
                            assert(crate::wire::read_list(data, pos2, lim, sfx2).unwrap().0[0] == read_of(data, pos2, lim, ts[2]).unwrap().0);
                        }
                    }
                }
                return Err(e);
            },
        };
        let ghost gv2 = read_of(data, pos2, lim, ts[2]).unwrap().0;
        let ghost pos3 = sub@.pos;
        let ghost sfx4 = ts.subrange(4, ts.len() as int);
        proof {
            if ts.len() > 3 {
                assert(sfx3[0] == ts[3]);
                assert(sfx3.subrange(1, sfx3.len() as int) =~= sfx4);
                crate::wire::lemma_read_list_step(data, pos3, lim, sfx3);
                if read_of(data, pos3, lim, ts[3]) is Some {
                    let (v, p) = read_of(data, pos3, lim, ts[3]).unwrap();
                    if D::accepts(v) {
                        D::accepts_compat(v);
                    }
                }
            }
        }
        let x3 = match sub.consume::<D>() {
            Ok(x) => x,
            Err(e) => {
                proof {
                    if whole is Some {
                        crate::wire::lemma_typ_list_len(whole.unwrap().0);
                        crate::wire::lemma_read_skip_list(data, p0, lim, ts);
                        if ts.len() > 3 {
                            assert(crate::wire::read_list(data, pos0, lim, sfx0) is Some);
                            assert(crate::wire::read_list(data, pos1, lim, sfx1) is Some);
                            assert(crate::wire::read_list(data, pos2, lim, sfx2) is Some);
                            assert(crate::wire::read_list(data, pos3, lim, sfx3) is Some);
                            assert(crate::wire::read_list(data, pos0, lim, sfx0).unwrap().0 == seq![read_of(data, pos0, lim, ts[0]).unwrap().0] + crate::wire::read_list(data, pos1, lim, sfx1).unwrap().0);
                            assert(crate::wire::read_list(data, pos1, lim, sfx1).unwrap().0 == seq![read_of(data, pos1, lim, ts[1]).unwrap().0] + crate::wire::read_list(data, pos2, lim, sfx2).unwrap().0);
                            assert(crate::wire::read_list(data, pos2, lim, sfx2).unwrap().0 == seq![read_of(data, pos2, lim, ts[2]).unwrap().0] + crate::wire::read_list(data, pos3, lim, sfx3).unwrap().0);
                            assert(crate::wire::read_list(data, pos3, lim, sfx3).unwrap().0 == seq![read_of(data, pos3, lim, ts[3]).unwrap().0] + crate::wire::read_list(data, read_of(data, pos3, lim, ts[3]).unwrap().1, lim, sfx4).unwrap().0);
                            assert(crate::wire::read_list(data, pos0, lim, sfx0).unwrap().0[3] == crate::wire::read_list(data, pos1, lim, sfx1).unwrap().0[2]);
                            assert(crate::wire::read_list(data, pos1, lim, sfx1).unwrap().0[2] == crate::wire::read_list(data, pos2, lim, sfx2).unwrap().0[1]);
                            assert(crate::wire::read_list(data, pos2, lim, sfx2).unwrap().0[1] == crate::wire::read_list(data, pos3, lim, sfx3).unwrap().0[0]);
                            assert(crate::wire::read_list(data, pos3, lim, sfx3).unwrap().0[0] == read_of(data, pos3, lim, ts[3]).unwrap().0);
                        }
                    }
                }
                return Err(e);
            },
        };
        let ghost gv3 = read_of(data, pos3, lim, ts[3]).unwrap().0;
        let ghost pos4 = sub@.pos;
        let ghost sfx5 = ts.subrange(5, ts.len() as int);
        proof {
            if ts.len() > 4 {
                assert(sfx4[0] == ts[4]);
                assert(sfx4.subrange(1, sfx4.len() as int) =~= sfx5);
                crate::wire::lemma_read_list_step(data, pos4, lim, sfx4);
                if read_of(data, pos4, lim, ts[4]) is Some {
                    let (v, p) = read_of(data, pos4, lim, ts[4]).unwrap();
                    if E::accepts(v) {
                        E::accepts_compat(v);
                    }
                }
            }
        }
        let x4 = match sub.consume::<E>() {
            Ok(x) => x,
            Err(e) => {
                proof {
                    if whole is Some {
                        crate::wire::lemma_typ_list_len(whole.unwrap().0);
                        crate::wire::lemma_read_skip_list(data, p0, lim, ts);
                        if ts.len() > 4 {
                            assert(crate::wire::read_list(data, pos0, lim, sfx0) is Some);
                            assert(crate::wire::read_list(data, pos1, lim, sfx1) is Some);
                            assert(crate::wire::read_list(data, pos2, lim, sfx2) is Some);
                            assert(crate::wire::read_list(data, pos3, lim, sfx3) is Some);
                            assert(crate::wire::read_list(data, pos4, lim, sfx4) is Some);
                            assert(crate::wire::read_list(data, pos0, lim, sfx0).unwrap().0 == seq![read_of(data, pos0, lim, ts[0]).unwrap().0] + crate::wire::read_list(data, pos1, lim, sfx1).unwrap().0);
                            assert(crate::wire::read_list(data, pos1, lim, sfx1).unwrap().0 == seq![read_of(data, pos1, lim, ts[1]).unwrap().0] + crate::wire::read_list(data, pos2, lim, sfx2).unwrap().0);
                            assert(crate::wire::read_list(data, pos2, lim, sfx2).unwrap().0 == seq![read_of(data, pos2, lim, ts[2]).unwrap().0] + crate::wire::read_list(data, pos3, lim, sfx3).unwrap().0);
                            assert(crate::wire::read_list(data, pos3, lim, sfx3).unwrap().0 == seq![read_of(data, pos3, lim, ts[3]).unwrap().0] + crate::wire::read_list(data, pos4, lim, sfx4).unwrap().0);
                            assert(crate::wire::read_list(data, pos4, lim, sfx4).unwrap().0 == seq![read_of(data, pos4, lim, ts[4]).unwrap().0] + crate::wire::read_list(data, read_of(data, pos4, lim, ts[4]).unwrap().1, lim, sfx5).unwrap().0);
                            assert(crate::wire::read_list(data, pos0, lim, sfx0).unwrap().0[4] == crate::wire::read_list(data, pos1, lim, sfx1).unwrap().0[3]);
                            assert(crate::wire::read_list(data, pos1, lim, sfx1).unwrap().0[3] == crate::wire::read_list(data, pos2, lim, sfx2).unwrap().0[2]);
                            assert(crate::wire::read_list(data, pos2, lim, sfx2).unwrap().0[2] == crate::wire::read_list(data, pos3, lim, sfx3).unwrap().0[1]);
                            assert(crate::wire::read_list(data, pos3, lim, sfx3).unwrap().0[1] == crate::wire::read_list(data, pos4, lim, sfx4).unwrap().0[0]);
                            assert(crate::wire::read_list(data, pos4, lim, sfx4).unwrap().0[0] == read_of(data, pos4, lim, ts[4]).unwrap().0);
                        }
                    }
                }
                return Err(e);
            },
        };
        let ghost gv4 = read_of(data, pos4, lim, ts[4]).unwrap().0;
        let ghost pos5 = sub@.pos;
        proof {
            if whole is Some {
                crate::wire::lemma_typ_list_len(whole.unwrap().0);
                crate::wire::lemma_read_skip_list(data, p0, lim, ts);
            }
            if ts.len() == 5 {
                assert(sfx5.len() == 0);
                assert(crate::wire::read_list(data, pos5, lim, sfx5) == Some((
                    Seq::<AnyVal>::empty(),
                    pos5,
                )));
                assert(seq![gv4] + Seq::<AnyVal>::empty() =~= seq![gv4]);
                assert(crate::wire::read_list(data, pos4, lim, sfx4) == Some((seq![gv4], pos5)));
                assert(seq![gv3] + seq![gv4] =~= seq![gv3, gv4]);
                assert(crate::wire::read_list(data, pos3, lim, sfx3) == Some((seq![gv3, gv4], pos5)));
                assert(seq![gv2] + seq![gv3, gv4] =~= seq![gv2, gv3, gv4]);
                assert(crate::wire::read_list(data, pos2, lim, sfx2) == Some((seq![gv2, gv3, gv4], pos5)));
                assert(seq![gv1] + seq![gv2, gv3, gv4] =~= seq![gv1, gv2, gv3, gv4]);
                assert(crate::wire::read_list(data, pos1, lim, sfx1) == Some((seq![gv1, gv2, gv3, gv4], pos5)));
                assert(seq![gv0] + seq![gv1, gv2, gv3, gv4] =~= seq![gv0, gv1, gv2, gv3, gv4]);
                assert(crate::wire::read_list(data, pos0, lim, sfx0) == Some((seq![gv0, gv1, gv2, gv3, gv4], pos5)));
            }
        }
        match sub.terminated() {
            Ok(()) => Ok((x0, x1, x2, x3, x4)),
            Err(e) => Err(e),
        }
    }
}

impl<A: Readable, B: Readable, C: Readable, D: Readable, E: Readable, F: Readable> Readable for (A, B, C, D, E, F) {
    open spec fn expected_type() -> WireTypeV {
        WireTypeV::Struct(seq![A::expected_type(), B::expected_type(), C::expected_type(), D::expected_type(), E::expected_type(), F::expected_type()])
    }

    open spec fn compat(tag: ArgType) -> bool {
        tag == ArgType::Struct
    }

    open spec fn accepts(v: AnyVal) -> bool {
        &&& v is Struct
        &&& v->Struct_0.len() == 6
        &&& A::accepts(v->Struct_0[0])
        &&& B::accepts(v->Struct_0[1])
        &&& C::accepts(v->Struct_0[2])
        &&& D::accepts(v->Struct_0[3])
        &&& E::accepts(v->Struct_0[4])
        &&& F::accepts(v->Struct_0[5])
    }

    open spec fn models(self, v: AnyVal) -> bool {
        &&& v is Struct
        &&& v->Struct_0.len() == 6
        &&& self.0.models(v->Struct_0[0])
        &&& self.1.models(v->Struct_0[1])
        &&& self.2.models(v->Struct_0[2])
        &&& self.3.models(v->Struct_0[3])
        &&& self.4.models(v->Struct_0[4])
        &&& self.5.models(v->Struct_0[5])
    }

    open spec fn err_shape(m: ReaderModel, e: Error) -> bool {
        match m.head_type() {
            Some(WireTypeV::Struct(ts)) => match m.head_read() {
                Some((v, _)) => {
                    let elems = v->Struct_0;
                    &&& (elems.len() > 6 && A::accepts(elems[0]) && B::accepts(elems[1]) && C::accepts(elems[2]) && D::accepts(elems[3]) && E::accepts(elems[4]) && F::accepts(elems[5]) ==> is_trailing_err(
                        e,
                        ts.subrange(6, ts.len() as int),
                    ))
                    &&& (elems.len() == 0 ==> end_of_input_err::<A>(e))
                    &&& (elems.len() == 1 && A::accepts(elems[0]) ==> end_of_input_err::<B>(e))
                    &&& (elems.len() == 2 && A::accepts(elems[0]) && B::accepts(elems[1]) ==> end_of_input_err::<C>(e))
                    &&& (elems.len() == 3 && A::accepts(elems[0]) && B::accepts(elems[1]) && C::accepts(elems[2]) ==> end_of_input_err::<D>(e))
                    &&& (elems.len() == 4 && A::accepts(elems[0]) && B::accepts(elems[1]) && C::accepts(elems[2]) && D::accepts(elems[3]) ==> end_of_input_err::<E>(e))
                    &&& (elems.len() == 5 && A::accepts(elems[0]) && B::accepts(elems[1]) && C::accepts(elems[2]) && D::accepts(elems[3]) && E::accepts(elems[4]) ==> end_of_input_err::<F>(e))
                },
                None => true,
            },
            _ => true,
        }
    }

    proof fn accepts_compat(v: AnyVal) {
    }

    fn expected() -> (r: Signature) {
        let mut members: Vec<WireType> = Vec::new();
        let e0 = A::expected();
        members.push(e0.type_at(0).duplicate());
        let e1 = B::expected();
        members.push(e1.type_at(0).duplicate());
        let e2 = C::expected();
        members.push(e2.type_at(0).duplicate());
        let e3 = D::expected();
        members.push(e3.type_at(0).duplicate());
        let e4 = E::expected();
        members.push(e4.type_at(0).duplicate());
        let e5 = F::expected();
        members.push(e5.type_at(0).duplicate());
        proof {
            lemma_type_views_len(members@);
            lemma_type_views_index(members@, 0);
            lemma_type_views_index(members@, 1);
            lemma_type_views_index(members@, 2);
            lemma_type_views_index(members@, 3);
            lemma_type_views_index(members@, 4);
            lemma_type_views_index(members@, 5);
            assert(type_views(members@) =~= seq![A::expected_type(), B::expected_type(), C::expected_type(), D::expected_type(), E::expected_type(), F::expected_type()]);
        }
        Signature::single(WireType::Struct(members))
    }

    fn compatible(tag: ArgType) -> (r: bool) {
        tag == ArgType::Struct
    }

    /// Consumes exactly 6 members in declared order.  A structure with
    /// more members than the tuple's arity is reported as a trailing type
    /// carrying the unread members' signature; one with fewer members ends
    /// the level early and is reported so.
    fn peek(reader: &Reader<'_>) -> (r: Result<Self, Error>) {
        let ghost data = reader@.data;
        let ghost p0 = reader@.pos;
        let ghost lim = reader@.limit;
        let ghost h = reader@.head_type().unwrap();
        let ghost ts = h->Struct_0;
        let mut sub = reader.recurse();
        proof {
            assert(h is Struct);
            assert(h == WireTypeV::Struct(ts));
            assert(reader@.head_read() == read_of(data, p0, lim, h));
            assert(read_of(data, p0, lim, h) == (match crate::wire::read_list(data, p0, lim, ts) {
                Some((vs, p)) => Some((AnyVal::Struct(vs), p)),
                None => None::<(AnyVal, int)>,
            }));
            assert(sub@ == ReaderModel {
                data: data,
                pos: p0,
                limit: lim,
                level: LevelModel::Fields(ts, 0),
            });
        }
        let ghost whole = crate::wire::read_list(data, p0, lim, ts);
        let ghost pos0 = p0;
        let ghost sfx0 = ts;
        let ghost sfx1 = ts.subrange(1, ts.len() as int);
        proof {
            if ts.len() > 0 {
                assert(sfx0[0] == ts[0]);
                assert(sfx0.subrange(1, sfx0.len() as int) =~= sfx1);
                crate::wire::lemma_read_list_step(data, pos0, lim, sfx0);
                if read_of(data, pos0, lim, ts[0]) is Some {
                    let (v, p) = read_of(data, pos0, lim, ts[0]).unwrap();
                    if A::accepts(v) {
                        A::accepts_compat(v);
                    }
                }
            }
        }
        let x0 = match sub.consume::<A>() {
            Ok(x) => x,
            Err(e) => {
                proof {
                    if whole is Some {
                        crate::wire::lemma_typ_list_len(whole.unwrap().0);
                        crate::wire::lemma_read_skip_list(data, p0, lim, ts);
                        if ts.len() > 0 {
                            assert(crate::wire::read_list(data, pos0, lim, sfx0) is Some);
                            assert(crate::wire::read_list(data, pos0, lim, sfx0).unwrap().0 == seq![read_of(data, pos0, lim, ts[0]).unwrap().0] + crate::wire::read_list(data, read_of(data, pos0, lim, ts[0]).unwrap().1, lim, sfx1).unwrap().0);
                            assert(crate::wire::read_list(data, pos0, lim, sfx0).unwrap().0[0] == read_of(data, pos0, lim, ts[0]).unwrap().0);
                        }
                    }
                }
                return Err(e);
            },
        };
        let ghost gv0 = read_of(data, pos0, lim, ts[0]).unwrap().0;
        let ghost pos1 = sub@.pos;
        let ghost sfx2 = ts.subrange(2, ts.len() as int);
        proof {
            if ts.len() > 1 {
                assert(sfx1[0] == ts[1]);
                assert(sfx1.subrange(1, sfx1.len() as int) =~= sfx2);
                crate::wire::lemma_read_list_step(data, pos1, lim, sfx1);
                if read_of(data, pos1, lim, ts[1]) is Some {
                    let (v, p) = read_of(data, pos1, lim, ts[1]).unwrap();
                    if B::accepts(v) {
                        B::accepts_compat(v);
                    }
                }
            }
        }
        let x1 = match sub.consume::<B>() {
            Ok(x) => x,
            Err(e) => {
                proof {
                    if whole is Some {
                        crate::wire::lemma_typ_list_len(whole.unwrap().0);
                        crate::wire::lemma_read_skip_list(data, p0, lim, ts);
                        if ts.len() > 1 {
                            assert(crate::wire::read_list(data, pos0, lim, sfx0) is Some);
                            assert(crate::wire::read_list(data, pos1, lim, sfx1) is Some);
                            assert(crate::wire::read_list(data, pos0, lim, sfx0).unwrap().0 == seq![read_of(data, pos0, lim, ts[0]).unwrap().0] + crate::wire::read_list(data, pos1, lim, sfx1).unwrap().0);
                            assert(crate::wire::read_list(data, pos1, lim, sfx1).unwrap().0 == seq![read_of(data, pos1, lim, ts[1]).unwrap().0] + crate::wire::read_list(data, read_of(data, pos1, lim, ts[1]).unwrap().1, lim, sfx2).unwrap().0);
                            assert(crate::wire::read_list(data, pos0, lim, sfx0).unwrap().0[1] == crate::wire::read_list(data, pos1, lim, sfx1).unwrap().0[0]);
                            assert(crate::wire::read_list(data, pos1, lim, sfx1).unwrap().0[0] == read_of(data, pos1, lim, ts[1]).unwrap().0);
                        }
                    }
                }
                return Err(e);
            },
        };
        let ghost gv1 = read_of(data, pos1, lim, ts[1]).unwrap().0;
        let ghost pos2 = sub@.pos;
        let ghost sfx3 = ts.subrange(3, ts.len() as int);
        proof {
            if ts.len() > 2 {
                assert(sfx2[0] == ts[2]);
                assert(sfx2.subrange(1, sfx2.len() as int) =~= sfx3);
                crate::wire::lemma_read_list_step(data, pos2, lim, sfx2);
                if read_of(data, pos2, lim, ts[2]) is Some {
                    let (v, p) = read_of(data, pos2, lim, ts[2]).unwrap();
                    if C::accepts(v) {
                        C::accepts_compat(v);
                    }
                }
            }
        }
        let x2 = match sub.consume::<C>() {
            Ok(x) => x,
            Err(e) => {
                proof {
                    if whole is Some {
                        crate::wire::lemma_typ_list_len(whole.unwrap().0);
                        crate::wire::lemma_read_skip_list(data, p0, lim, ts);
                        if ts.len() > 2 {
                            assert(crate::wire::read_list(data, pos0, lim, sfx0) is Some);
                            assert(crate::wire::read_list(data, pos1, lim, sfx1) is Some);
                            assert(crate::wire::read_list(data, pos2, lim, sfx2) is Some);
                            assert(crate::wire::read_list(data, pos0, lim, sfx0).unwrap().0 == seq![read_of(data, pos0, lim, ts[0]).unwrap().0] + crate::wire::read_list(data, pos1, lim, sfx1).unwrap().0);
                            assert(crate::wire::read_list(data, pos1, lim, sfx1).unwrap().0 == seq![read_of(data, pos1, lim, ts[1]).unwrap().0] + crate::wire::read_list(data, pos2, lim, sfx2).unwrap().0);
                            assert(crate::wire::read_list(data, pos2, lim, sfx2).unwrap().0 == seq![read_of(data, pos2, lim, ts[2]).unwrap().0] + crate::wire::read_list(data, read_of(data, pos2, lim, ts[2]).unwrap().1, lim, sfx3).unwrap().0);
                            assert(crate::wire::read_list(data, pos0, lim, sfx0).unwrap().0[2] == crate::wire::read_list(data, pos1, lim, sfx1).unwrap().0[1]);
                            assert(crate::wire::read_list(data, pos1, lim, sfx1).unwrap().0[1] == crate::wire::read_list(data, pos2, lim, sfx2).unwrap().0[0]);
                            assert(crate::wire::read_list(data, pos2, lim, sfx2).unwrap().0[0] == read_of(data, pos2, lim, ts[2]).unwrap().0);
                        }
                    }
                }
                return Err(e);
            },
        };
        let ghost gv2 = read_of(data, pos2, lim, ts[2]).unwrap().0;
        let ghost pos3 = sub@.pos;
        let ghost sfx4 = ts.subrange(4, ts.len() as int);
        proof {
            if ts.len() > 3 {
                assert(sfx3[0] == ts[3]);
                assert(sfx3.subrange(1, sfx3.len() as int) =~= sfx4);
                crate::wire::lemma_read_list_step(data, pos3, lim, sfx3);
                if read_of(data, pos3, lim, ts[3]) is Some {
                    let (v, p) = read_of(data, pos3, lim, ts[3]).unwrap();
                    if D::accepts(v) {
                        D::accepts_compat(v);
                    }
                }
            }
        }
        let x3 = match sub.consume::<D>() {
            Ok(x) => x,
            Err(e) => {
                proof {
                    if whole is Some {
                        crate::wire::lemma_typ_list_len(whole.unwrap().0);
                        crate::wire::lemma_read_skip_list(data, p0, lim, ts);
                        if ts.len() > 3 {
                            assert(crate::wire::read_list(data, pos0, lim, sfx0) is Some);
                            assert(crate::wire::read_list(data, pos1, lim, sfx1) is Some);
                            assert(crate::wire::read_list(data, pos2, lim, sfx2) is Some);
                            assert(crate::wire::read_list(data, pos3, lim, sfx3) is Some);
                            assert(crate::wire::read_list(data, pos0, lim, sfx0).unwrap().0 == seq![read_of(data, pos0, lim, ts[0]).unwrap().0] + crate::wire::read_list(data, pos1, lim, sfx1).unwrap().0);
                            assert(crate::wire::read_list(data, pos1, lim, sfx1).unwrap().0 == seq![read_of(data, pos1, lim, ts[1]).unwrap().0] + crate::wire::read_list(data, pos2, lim, sfx2).unwrap().0);
                            assert(crate::wire::read_list(data, pos2, lim, sfx2).unwrap().0 == seq![read_of(data, pos2, lim, ts[2]).unwrap().0] + crate::wire::read_list(data, pos3, lim, sfx3).unwrap().0);
                            assert(crate::wire::read_list(data, pos3, lim, sfx3).unwrap().0 == seq![read_of(data, pos3, lim, ts[3]).unwrap().0] + crate::wire::read_list(data, read_of(data, pos3, lim, ts[3]).unwrap().1, lim, sfx4).unwrap().0);
                            assert(crate::wire::read_list(data, pos0, lim, sfx0).unwrap().0[3] == crate::wire::read_list(data, pos1, lim, sfx1).unwrap().0[2]);
                            assert(crate::wire::read_list(data, pos1, lim, sfx1).unwrap().0[2] == crate::wire::read_list(data, pos2, lim, sfx2).unwrap().0[1]);
                            assert(crate::wire::read_list(data, pos2, lim, sfx2).unwrap().0[1] == crate::wire::read_list(data, pos3, lim, sfx3).unwrap().0[0]);
                            assert(crate::wire::read_list(data, pos3, lim, sfx3).unwrap().0[0] == read_of(data, pos3, lim, ts[3]).unwrap().0);
                        }
                    }
                }
                return Err(e);
            },
        };
        let ghost gv3 = read_of(data, pos3, lim, ts[3]).unwrap().0;
        let ghost pos4 = sub@.pos;
        let ghost sfx5 = ts.subrange(5, ts.len() as int);
        proof {
            if ts.len() > 4 {
                assert(sfx4[0] == ts[4]);
                assert(sfx4.subrange(1, sfx4.len() as int) =~= sfx5);
                crate::wire::lemma_read_list_step(data, pos4, lim, sfx4);
                if read_of(data, pos4, lim, ts[4]) is Some {
                    let (v, p) = read_of(data, pos4, lim, ts[4]).unwrap();
                    if E::accepts(v) {
                        E::accepts_compat(v);
                    }
                }
            }
        }
        let x4 = match sub.consume::<E>() {
            Ok(x) => x,
            Err(e) => {
                proof {
                    if whole is Some {
                        crate::wire::lemma_typ_list_len(whole.unwrap().0);
                        crate::wire::lemma_read_skip_list(data, p0, lim, ts);
                        if ts.len() > 4 {
                            assert(crate::wire::read_list(data, pos0, lim, sfx0) is Some);
                            assert(crate::wire::read_list(data, pos1, lim, sfx1) is Some);
                            assert(crate::wire::read_list(data, pos2, lim, sfx2) is Some);
                            assert(crate::wire::read_list(data, pos3, lim, sfx3) is Some);
                            assert(crate::wire::read_list(data, pos4, lim, sfx4) is Some);
                            assert(crate::wire::read_list(data, pos0, lim, sfx0).unwrap().0 == seq![read_of(data, pos0, lim, ts[0]).unwrap().0] + crate::wire::read_list(data, pos1, lim, sfx1).unwrap().0);
                            assert(crate::wire::read_list(data, pos1, lim, sfx1).unwrap().0 == seq![read_of(data, pos1, lim, ts[1]).unwrap().0] + crate::wire::read_list(data, pos2, lim, sfx2).unwrap().0);
                            assert(crate::wire::read_list(data, pos2, lim, sfx2).unwrap().0 == seq![read_of(data, pos2, lim, ts[2]).unwrap().0] + crate::wire::read_list(data, pos3, lim, sfx3).unwrap().0);
                            assert(crate::wire::read_list(data, pos3, lim, sfx3).unwrap().0 == seq![read_of(data, pos3, lim, ts[3]).unwrap().0] + crate::wire::read_list(data, pos4, lim, sfx4).unwrap().0);
                            assert(crate::wire::read_list(data, pos4, lim, sfx4).unwrap().0 == seq![read_of(data, pos4, lim, ts[4]).unwrap().0] + crate::wire::read_list(data, read_of(data, pos4, lim, ts[4]).unwrap().1, lim, sfx5).unwrap().0);
                            assert(crate::wire::read_list(data, pos0, lim, sfx0).unwrap().0[4] == crate::wire::read_list(data, pos1, lim, sfx1).unwrap().0[3]);
                            assert(crate::wire::read_list(data, pos1, lim, sfx1).unwrap().0[3] == crate::wire::read_list(data, pos2, lim, sfx2).unwrap().0[2]);
                            assert(crate::wire::read_list(data, pos2, lim, sfx2).unwrap().0[2] == crate::wire::read_list(data, pos3, lim, sfx3).unwrap().0[1]);
                            assert(crate::wire::read_list(data, pos3, lim, sfx3).unwrap().0[1] == crate::wire::read_list(data, pos4, lim, sfx4).unwrap().0[0]);
                            assert(crate::wire::read_list(data, pos4, lim, sfx4).unwrap().0[0] == read_of(data, pos4, lim, ts[4]).unwrap().0);
                        }
                    }
                }
                return Err(e);
            },
        };
        let ghost gv4 = read_of(data, pos4, lim, ts[4]).unwrap().0;
        let ghost pos5 = sub@.pos;
        let ghost sfx6 = ts.subrange(6, ts.len() as int);
        proof {
            if ts.len() > 5 {
                assert(sfx5[0] == ts[5]);
                assert(sfx5.subrange(1, sfx5.len() as int) =~= sfx6);
                crate::wire::lemma_read_list_step(data, pos5, lim, sfx5);
                if read_of(data, pos5, lim, ts[5]) is Some {
                    let (v, p) = read_of(data, pos5, lim, ts[5]).unwrap();
                    if F::accepts(v) {
                        F::accepts_compat(v);
                    }
                }
            }
        }
        let x5 = match sub.consume::<F>() {
            Ok(x) => x,
            Err(e) => {
                proof {
                    if whole is Some {
                        crate::wire::lemma_typ_list_len(whole.unwrap().0);
                        crate::wire::lemma_read_skip_list(data, p0, lim, ts);
                        if ts.len() > 5 {
                            assert(crate::wire::read_list(data, pos0, lim, sfx0) is Some);
                            assert(crate::wire::read_list(data, pos1, lim, sfx1) is Some);
                            assert(crate::wire::read_list(data, pos2, lim, sfx2) is Some);
                            assert(crate::wire::read_list(data, pos3, lim, sfx3) is Some);
                            assert(crate::wire::read_list(data, pos4, lim, sfx4) is Some);
                            assert(crate::wire::read_list(data, pos5, lim, sfx5) is Some);
                            assert(crate::wire::read_list(data, pos0, lim, sfx0).unwrap().0 == seq![read_of(data, pos0, lim, ts[0]).unwrap().0] + crate::wire::read_list(data, pos1, lim, sfx1).unwrap().0);
                            assert(crate::wire::read_list(data, pos1, lim, sfx1).unwrap().0 == seq![read_of(data, pos1, lim, ts[1]).unwrap().0] + crate::wire::read_list(data, pos2, lim, sfx2).unwrap().0);
                            assert(crate::wire::read_list(data, pos2, lim, sfx2).unwrap().0 == seq![read_of(data, pos2, lim, ts[2]).unwrap().0] + crate::wire::read_list(data, pos3, lim, sfx3).unwrap().0);
                            assert(crate::wire::read_list(data, pos3, lim, sfx3).unwrap().0 == seq![read_of(data, pos3, lim, ts[3]).unwrap().0] + crate::wire::read_list(data, pos4, lim, sfx4).unwrap().0);
                            assert(crate::wire::read_list(data, pos4, lim, sfx4).unwrap().0 == seq![read_of(data, pos4, lim, ts[4]).unwrap().0] + crate::wire::read_list(data, pos5, lim, sfx5).unwrap().0);
                            assert(crate::wire::read_list(data, pos5, lim, sfx5).unwrap().0 == seq![read_of(data, pos5, lim, ts[5]).unwrap().0] + crate::wire::read_list(data, read_of(data, pos5, lim, ts[5]).unwrap().1, lim, sfx6).unwrap().0);
                            assert(crate::wire::read_list(data, pos0, lim, sfx0).unwrap().0[5] == crate::wire::read_list(data, pos1, lim, sfx1).unwrap().0[4]);
                            assert(crate::wire::read_list(data, pos1, lim, sfx1).unwrap().0[4] == crate::wire::read_list(data, pos2, lim, sfx2).unwrap().0[3]);
                            assert(crate::wire::read_list(data, pos2, lim, sfx2).unwrap().0[3] == crate::wire::read_list(data, pos3, lim, sfx3).unwrap().0[2]);
                            assert(crate::wire::read_list(data, pos3, lim, sfx3).unwrap().0[2] == crate::wire::read_list(data, pos4, lim, sfx4).unwrap().0[1]);
                            assert(crate::wire::read_list(data, pos4, lim, sfx4).unwrap().0[1] == crate::wire::read_list(data, pos5, lim, sfx5).unwrap().0[0]);
                            assert(crate::wire::read_list(data, pos5, lim, sfx5).unwrap().0[0] == read_of(data, pos5, lim, ts[5]).unwrap().0);
                        }
                    }
                }
                return Err(e);
            },
        };
        let ghost gv5 = read_of(data, pos5, lim, ts[5]).unwrap().0;
        let ghost pos6 = sub@.pos;
        proof {
            if whole is Some {
                crate::wire::lemma_typ_list_len(whole.unwrap().0);
                crate::wire::lemma_read_skip_list(data, p0, lim, ts);
            }
            if ts.len() == 6 {
                assert(sfx6.len() == 0);
                assert(crate::wire::read_list(data, pos6, lim, sfx6) == Some((
                    Seq::<AnyVal>::empty(),
                    pos6,
                )));
                assert(seq![gv5] + Seq::<AnyVal>::empty() =~= seq![gv5]);
                assert(crate::wire::read_list(data, pos5, lim, sfx5) == Some((seq![gv5], pos6)));
                assert(seq![gv4] + seq![gv5] =~= seq![gv4, gv5]);
                assert(crate::wire::read_list(data, pos4, lim, sfx4) == Some((seq![gv4, gv5], pos6)));
                assert(seq![gv3] + seq![gv4, gv5] =~= seq![gv3, gv4, gv5]);
                assert(crate::wire::read_list(data, pos3, lim, sfx3) == Some((seq![gv3, gv4, gv5], pos6)));
                assert(seq![gv2] + seq![gv3, gv4, gv5] =~= seq![gv2, gv3, gv4, gv5]);
                assert(crate::wire::read_list(data, pos2, lim, sfx2) == Some((seq![gv2, gv3, gv4, gv5], pos6)));
                assert(seq![gv1] + seq![gv2, gv3, gv4, gv5] =~= seq![gv1, gv2, gv3, gv4, gv5]);
                assert(crate::wire::read_list(data, pos1, lim, sfx1) == Some((seq![gv1, gv2, gv3, gv4, gv5], pos6)));
                assert(seq![gv0] + seq![gv1, gv2, gv3, gv4, gv5] =~= seq![gv0, gv1, gv2, gv3, gv4, gv5]);
                assert(crate::wire::read_list(data, pos0, lim, sfx0) == Some((seq![gv0, gv1, gv2, gv3, gv4, gv5], pos6)));
            }
        }
        match sub.terminated() {
            Ok(()) => Ok((x0, x1, x2, x3, x4, x5)),
            Err(e) => Err(e),
        }
    }
}

impl<A: Readable, B: Readable, C: Readable, D: Readable, E: Readable, F: Readable, G: Readable> Readable for (A, B, C, D, E, F, G) {
    open spec fn expected_type() -> WireTypeV {
        WireTypeV::Struct(seq![A::expected_type(), B::expected_type(), C::expected_type(), D::expected_type(), E::expected_type(), F::expected_type(), G::expected_type()])
    }

    open spec fn compat(tag: ArgType) -> bool {
        tag == ArgType::Struct
    }

    open spec fn accepts(v: AnyVal) -> bool {
        &&& v is Struct
        &&& v->Struct_0.len() == 7
        &&& A::accepts(v->Struct_0[0])
        &&& B::accepts(v->Struct_0[1])
        &&& C::accepts(v->Struct_0[2])
        &&& D::accepts(v->Struct_0[3])
        &&& E::accepts(v->Struct_0[4])
        &&& F::accepts(v->Struct_0[5])
        &&& G::accepts(v->Struct_0[6])
    }

    open spec fn models(self, v: AnyVal) -> bool {
        &&& v is Struct
        &&& v->Struct_0.len() == 7
        &&& self.0.models(v->Struct_0[0])
        &&& self.1.models(v->Struct_0[1])
        &&& self.2.models(v->Struct_0[2])
        &&& self.3.models(v->Struct_0[3])
        &&& self.4.models(v->Struct_0[4])
        &&& self.5.models(v->Struct_0[5])
        &&& self.6.models(v->Struct_0[6])
    }

    open spec fn err_shape(m: ReaderModel, e: Error) -> bool {
        match m.head_type() {
            Some(WireTypeV::Struct(ts)) => match m.head_read() {
                Some((v, _)) => {
                    let elems = v->Struct_0;
                    &&& (elems.len() > 7 && A::accepts(elems[0]) && B::accepts(elems[1]) && C::accepts(elems[2]) && D::accepts(elems[3]) && E::accepts(elems[4]) && F::accepts(elems[5]) && G::accepts(elems[6]) ==> is_trailing_err(
                        e,
                        ts.subrange(7, ts.len() as int),
                    ))
                    &&& (elems.len() == 0 ==> end_of_input_err::<A>(e))
                    &&& (elems.len() == 1 && A::accepts(elems[0]) ==> end_of_input_err::<B>(e))
                    &&& (elems.len() == 2 && A::accepts(elems[0]) && B::accepts(elems[1]) ==> end_of_input_err::<C>(e))
                    &&& (elems.len() == 3 && A::accepts(elems[0]) && B::accepts(elems[1]) && C::accepts(elems[2]) ==> end_of_input_err::<D>(e))
                    &&& (elems.len() == 4 && A::accepts(elems[0]) && B::accepts(elems[1]) && C::accepts(elems[2]) && D::accepts(elems[3]) ==> end_of_input_err::<E>(e))
                    &&& (elems.len() == 5 && A::accepts(elems[0]) && B::accepts(elems[1]) && C::accepts(elems[2]) && D::accepts(elems[3]) && E::accepts(elems[4]) ==> end_of_input_err::<F>(e))
                    &&& (elems.len() == 6 && A::accepts(elems[0]) && B::accepts(elems[1]) && C::accepts(elems[2]) && D::accepts(elems[3]) && E::accepts(elems[4]) && F::accepts(elems[5]) ==> end_of_input_err::<G>(e))
                },
                None => true,
            },
            _ => true,
        }
    }

    proof fn accepts_compat(v: AnyVal) {
    }

    fn expected() -> (r: Signature) {
        let mut members: Vec<WireType> = Vec::new();
        let e0 = A::expected();
        members.push(e0.type_at(0).duplicate());
        let e1 = B::expected();
        members.push(e1.type_at(0).duplicate());
        let e2 = C::expected();
        members.push(e2.type_at(0).duplicate());
        let e3 = D::expected();
        members.push(e3.type_at(0).duplicate());
        let e4 = E::expected();
        members.push(e4.type_at(0).duplicate());
        let e5 = F::expected();
        members.push(e5.type_at(0).duplicate());
        let e6 = G::expected();
        members.push(e6.type_at(0).duplicate());
        proof {
            lemma_type_views_len(members@);
            lemma_type_views_index(members@, 0);
            lemma_type_views_index(members@, 1);
            lemma_type_views_index(members@, 2);
            lemma_type_views_index(members@, 3);
            lemma_type_views_index(members@, 4);
            lemma_type_views_index(members@, 5);
            lemma_type_views_index(members@, 6);
            assert(type_views(members@) =~= seq![A::expected_type(), B::expected_type(), C::expected_type(), D::expected_type(), E::expected_type(), F::expected_type(), G::expected_type()]);
        }
        Signature::single(WireType::Struct(members))
    }

    fn compatible(tag: ArgType) -> (r: bool) {
        tag == ArgType::Struct
    }

    /// Consumes exactly 7 members in declared order.  A structure with
    /// more members than the tuple's arity is reported as a trailing type
    /// carrying the unread members' signature; one with fewer members ends
    /// the level early and is reported so.
    #[verifier::spinoff_prover]
    #[verifier::rlimit(100)]
    fn peek(reader: &Reader<'_>) -> (r: Result<Self, Error>) {
        let ghost data = reader@.data;
        let ghost p0 = reader@.pos;
        let ghost lim = reader@.limit;
        let ghost h = reader@.head_type().unwrap();
        let ghost ts = h->Struct_0;
        let mut sub = reader.recurse();
        proof {
            assert(h is Struct);
            assert(h == WireTypeV::Struct(ts));
            assert(reader@.head_read() == read_of(data, p0, lim, h));
            assert(read_of(data, p0, lim, h) == (match crate::wire::read_list(data, p0, lim, ts) {
                Some((vs, p)) => Some((AnyVal::Struct(vs), p)),
                None => None::<(AnyVal, int)>,
            }));
            assert(sub@ == ReaderModel {
                data: data,
                pos: p0,
                limit: lim,
                level: LevelModel::Fields(ts, 0),
            });
        }
        let ghost whole = crate::wire::read_list(data, p0, lim, ts);
        let ghost pos0 = p0;
        let ghost sfx0 = ts;
        let ghost sfx1 = ts.subrange(1, ts.len() as int);
        proof {
            if ts.len() > 0 {
                assert(sfx0[0] == ts[0]);
                assert(sfx0.subrange(1, sfx0.len() as int) =~= sfx1);
                crate::wire::lemma_read_list_step(data, pos0, lim, sfx0);
                if read_of(data, pos0, lim, ts[0]) is Some {
                    let (v, p) = read_of(data, pos0, lim, ts[0]).unwrap();
                    if A::accepts(v) {
                        A::accepts_compat(v);
                    }
                }
            }
        }
        let x0 = match sub.consume::<A>() {
            Ok(x) => x,
            Err(e) => {
                proof {
                    if whole is Some {
                        crate::wire::lemma_typ_list_len(whole.unwrap().0);
                        crate::wire::lemma_read_skip_list(data, p0, lim, ts);
                        if ts.len() > 0 {
                            assert(crate::wire::read_list(data, pos0, lim, sfx0) is Some);
                            assert(crate::wire::read_list(data, pos0, lim, sfx0).unwrap().0 == seq![read_of(data, pos0, lim, ts[0]).unwrap().0] + crate::wire::read_list(data, read_of(data, pos0, lim, ts[0]).unwrap().1, lim, sfx1).unwrap().0);
                            assert(crate::wire::read_list(data, pos0, lim, sfx0).unwrap().0[0] == read_of(data, pos0, lim, ts[0]).unwrap().0);
                        }
                    }
                }
                return Err(e);
            },
        };
        let ghost gv0 = read_of(data, pos0, lim, ts[0]).unwrap().0;
        let ghost pos1 = sub@.pos;
        let ghost sfx2 = ts.subrange(2, ts.len() as int);
        proof {
            if ts.len() > 1 {
                assert(sfx1[0] == ts[1]);
                assert(sfx1.subrange(1, sfx1.len() as int) =~= sfx2);
                crate::wire::lemma_read_list_step(data, pos1, lim, sfx1);
                if read_of(data, pos1, lim, ts[1]) is Some {
                    let (v, p) = read_of(data, pos1, lim, ts[1]).unwrap();
                    if B::accepts(v) {
                        B::accepts_compat(v);
                    }
                }
            }
        }
        let x1 = match sub.consume::<B>() {
            Ok(x) => x,
            Err(e) => {
                proof {
                    if whole is Some {
                        crate::wire::lemma_typ_list_len(whole.unwrap().0);
                        crate::wire::lemma_read_skip_list(data, p0, lim, ts);
                        if ts.len() > 1 {
                            assert(crate::wire::read_list(data, pos0, lim, sfx0) is Some);
                            assert(crate::wire::read_list(data, pos1, lim, sfx1) is Some);
                            assert(crate::wire::read_list(data, pos0, lim, sfx0).unwrap().0 == seq![read_of(data, pos0, lim, ts[0]).unwrap().0] + crate::wire::read_list(data, pos1, lim, sfx1).unwrap().0);
                            assert(crate::wire::read_list(data, pos1, lim, sfx1).unwrap().0 == seq![read_of(data, pos1, lim, ts[1]).unwrap().0] + crate::wire::read_list(data, read_of(data, pos1, lim, ts[1]).unwrap().1, lim, sfx2).unwrap().0);
                            assert(crate::wire::read_list(data, pos0, lim, sfx0).unwrap().0[1] == crate::wire::read_list(data, pos1, lim, sfx1).unwrap().0[0]);
                            assert(crate::wire::read_list(data, pos1, lim, sfx1).unwrap().0[0] == read_of(data, pos1, lim, ts[1]).unwrap().0);
                        }
                    }
                }
                return Err(e);
            },
        };
        let ghost gv1 = read_of(data, pos1, lim, ts[1]).unwrap().0;
        let ghost pos2 = sub@.pos;
        let ghost sfx3 = ts.subrange(3, ts.len() as int);
        proof {
            if ts.len() > 2 {
                assert(sfx2[0] == ts[2]);
                assert(sfx2.subrange(1, sfx2.len() as int) =~= sfx3);
                crate::wire::lemma_read_list_step(data, pos2, lim, sfx2);
                if read_of(data, pos2, lim, ts[2]) is Some {
                    let (v, p) = read_of(data, pos2, lim, ts[2]).unwrap();
                    if C::accepts(v) {
                        C::accepts_compat(v);
                    }
                }
            }
        }
        let x2 = match sub.consume::<C>() {
            Ok(x) => x,
            Err(e) => {
                proof {
                    if whole is Some {
                        crate::wire::lemma_typ_list_len(whole.unwrap().0);
                        crate::wire::lemma_read_skip_list(data, p0, lim, ts);
                        if ts.len() > 2 {
                            assert(crate::wire::read_list(data, pos0, lim, sfx0) is Some);
                            assert(crate::wire::read_list(data, pos1, lim, sfx1) is Some);
                            assert(crate::wire::read_list(data, pos2, lim, sfx2) is Some);
                            assert(crate::wire::read_list(data, pos0, lim, sfx0).unwrap().0 == seq![read_of(data, pos0, lim, ts[0]).unwrap().0] + crate::wire::read_list(data, pos1, lim, sfx1).unwrap().0);
                            assert(crate::wire::read_list(data, pos1, lim, sfx1).unwrap().0 == seq![read_of(data, pos1, lim, ts[1]).unwrap().0] + crate::wire::read_list(data, pos2, lim, sfx2).unwrap().0);
                            assert(crate::wire::read_list(data, pos2, lim, sfx2).unwrap().0 == seq![read_of(data, pos2, lim, ts[2]).unwrap().0] + crate::wire::read_list(data, read_of(data, pos2, lim, ts[2]).unwrap().1, lim, sfx3).unwrap().0);
                            assert(crate::wire::read_list(data, pos0, lim, sfx0).unwrap().0[2] == crate::wire::read_list(data, pos1, lim, sfx1).unwrap().0[1]);
                            assert(crate::wire::read_list(data, pos1, lim, sfx1).unwrap().0[1] == crate::wire::read_list(data, pos2, lim, sfx2).unwrap().0[0]);
                            assert(crate::wire::read_list(data, pos2, lim, sfx2).unwrap().0[0] == read_of(data, pos2, lim, ts[2]).unwrap().0);
                        }
                    }
                }
                return Err(e);
            },
        };
        let ghost gv2 = read_of(data, pos2, lim, ts[2]).unwrap().0;
        let ghost pos3 = sub@.pos;
        let ghost sfx4 = ts.subrange(4, ts.len() as int);
        proof {
            if ts.len() > 3 {
                assert(sfx3[0] == ts[3]);
                assert(sfx3.subrange(1, sfx3.len() as int) =~= sfx4);
                crate::wire::lemma_read_list_step(data, pos3, lim, sfx3);
                if read_of(data, pos3, lim, ts[3]) is Some {
                    let (v, p) = read_of(data, pos3, lim, ts[3]).unwrap();
                    if D::accepts(v) {
                        D::accepts_compat(v);
                    }
                }
            }
        }
        let x3 = match sub.consume::<D>() {
            Ok(x) => x,
            Err(e) => {
                proof {
                    if whole is Some {
                        crate::wire::lemma_typ_list_len(whole.unwrap().0);
                        crate::wire::lemma_read_skip_list(data, p0, lim, ts);
                        if ts.len() > 3 {
                            assert(crate::wire::read_list(data, pos0, lim, sfx0) is Some);
                            assert(crate::wire::read_list(data, pos1, lim, sfx1) is Some);
                            assert(crate::wire::read_list(data, pos2, lim, sfx2) is Some);
                            assert(crate::wire::read_list(data, pos3, lim, sfx3) is Some);
                            assert(crate::wire::read_list(data, pos0, lim, sfx0).unwrap().0 == seq![read_of(data, pos0, lim, ts[0]).unwrap().0] + crate::wire::read_list(data, pos1, lim, sfx1).unwrap().0);
                            assert(crate::wire::read_list(data, pos1, lim, sfx1).unwrap().0 == seq![read_of(data, pos1, lim, ts[1]).unwrap().0] + crate::wire::read_list(data, pos2, lim, sfx2).unwrap().0);
                            assert(crate::wire::read_list(data, pos2, lim, sfx2).unwrap().0 == seq![read_of(data, pos2, lim, ts[2]).unwrap().0] + crate::wire::read_list(data, pos3, lim, sfx3).unwrap().0);
                            assert(crate::wire::read_list(data, pos3, lim, sfx3).unwrap().0 == seq![read_of(data, pos3, lim, ts[3]).unwrap().0] + crate::wire::read_list(data, read_of(data, pos3, lim, ts[3]).unwrap().1, lim, sfx4).unwrap().0);
                            assert(crate::wire::read_list(data, pos0, lim, sfx0).unwrap().0[3] == crate::wire::read_list(data, pos1, lim, sfx1).unwrap().0[2]);
                            assert(crate::wire::read_list(data, pos1, lim, sfx1).unwrap().0[2] == crate::wire::read_list(data, pos2, lim, sfx2).unwrap().0[1]);
                            assert(crate::wire::read_list(data, pos2, lim, sfx2).unwrap().0[1] == crate::wire::read_list(data, pos3, lim, sfx3).unwrap().0[0]);
                            assert(crate::wire::read_list(data, pos3, lim, sfx3).unwrap().0[0] == read_of(data, pos3, lim, ts[3]).unwrap().0);
                        }
                    }
                }
                return Err(e);
            },
        };
        let ghost gv3 = read_of(data, pos3, lim, ts[3]).unwrap().0;
        let ghost pos4 = sub@.pos;
        let ghost sfx5 = ts.subrange(5, ts.len() as int);
        proof {
            if ts.len() > 4 {
                assert(sfx4[0] == ts[4]);
                assert(sfx4.subrange(1, sfx4.len() as int) =~= sfx5);
                crate::wire::lemma_read_list_step(data, pos4, lim, sfx4);
                if read_of(data, pos4, lim, ts[4]) is Some {
                    let (v, p) = read_of(data, pos4, lim, ts[4]).unwrap();
                    if E::accepts(v) {
                        E::accepts_compat(v);
                    }
                }
            }
        }
        let x4 = match sub.consume::<E>() {
            Ok(x) => x,
            Err(e) => {
                proof {
                    if whole is Some {
                        crate::wire::lemma_typ_list_len(whole.unwrap().0);
                        crate::wire::lemma_read_skip_list(data, p0, lim, ts);
                        if ts.len() > 4 {
                            assert(crate::wire::read_list(data, pos0, lim, sfx0) is Some);
                            assert(crate::wire::read_list(data, pos1, lim, sfx1) is Some);
                            assert(crate::wire::read_list(data, pos2, lim, sfx2) is Some);
                            assert(crate::wire::read_list(data, pos3, lim, sfx3) is Some);
                            assert(crate::wire::read_list(data, pos4, lim, sfx4) is Some);
                            assert(crate::wire::read_list(data, pos0, lim, sfx0).unwrap().0 == seq![read_of(data, pos0, lim, ts[0]).unwrap().0] + crate::wire::read_list(data, pos1, lim, sfx1).unwrap().0);
                            assert(crate::wire::read_list(data, pos1, lim, sfx1).unwrap().0 == seq![read_of(data, pos1, lim, ts[1]).unwrap().0] + crate::wire::read_list(data, pos2, lim, sfx2).unwrap().0);
                            assert(crate::wire::read_list(data, pos2, lim, sfx2).unwrap().0 == seq![read_of(data, pos2, lim, ts[2]).unwrap().0] + crate::wire::read_list(data, pos3, lim, sfx3).unwrap().0);
                            assert(crate::wire::read_list(data, pos3, lim, sfx3).unwrap().0 == seq![read_of(data, pos3, lim, ts[3]).unwrap().0] + crate::wire::read_list(data, pos4, lim, sfx4).unwrap().0);
                            assert(crate::wire::read_list(data, pos4, lim, sfx4).unwrap().0 == seq![read_of(data, pos4, lim, ts[4]).unwrap().0] + crate::wire::read_list(data, read_of(data, pos4, lim, ts[4]).unwrap().1, lim, sfx5).unwrap().0);
                            assert(crate::wire::read_list(data, pos0, lim, sfx0).unwrap().0[4] == crate::wire::read_list(data, pos1, lim, sfx1).unwrap().0[3]);
                            assert(crate::wire::read_list(data, pos1, lim, sfx1).unwrap().0[3] == crate::wire::read_list(data, pos2, lim, sfx2).unwrap().0[2]);
                            assert(crate::wire::read_list(data, pos2, lim, sfx2).unwrap().0[2] == crate::wire::read_list(data, pos3, lim, sfx3).unwrap().0[1]);
                            assert(crate::wire::read_list(data, pos3, lim, sfx3).unwrap().0[1] == crate::wire::read_list(data, pos4, lim, sfx4).unwrap().0[0]);
                            assert(crate::wire::read_list(data, pos4, lim, sfx4).unwrap().0[0] == read_of(data, pos4, lim, ts[4]).unwrap().0);
                        }
                    }
                }
                return Err(e);
            },
        };
        let ghost gv4 = read_of(data, pos4, lim, ts[4]).unwrap().0;
        let ghost pos5 = sub@.pos;
        let ghost sfx6 = ts.subrange(6, ts.len() as int);
        proof {
            if ts.len() > 5 {
                assert(sfx5[0] == ts[5]);
                assert(sfx5.subrange(1, sfx5.len() as int) =~= sfx6);
                crate::wire::lemma_read_list_step(data, pos5, lim, sfx5);
                if read_of(data, pos5, lim, ts[5]) is Some {
                    let (v, p) = read_of(data, pos5, lim, ts[5]).unwrap();
                    if F::accepts(v) {
                        F::accepts_compat(v);
                    }
                }
            }
        }
        let x5 = match sub.consume::<F>() {
            Ok(x) => x,
            Err(e) => {
                proof {
                    if whole is Some {
                        crate::wire::lemma_typ_list_len(whole.unwrap().0);
                        crate::wire::lemma_read_skip_list(data, p0, lim, ts);
                        if ts.len() > 5 {
                            assert(crate::wire::read_list(data, pos0, lim, sfx0) is Some);
                            assert(crate::wire::read_list(data, pos1, lim, sfx1) is Some);
                            assert(crate::wire::read_list(data, pos2, lim, sfx2) is Some);
                            assert(crate::wire::read_list(data, pos3, lim, sfx3) is Some);
                            assert(crate::wire::read_list(data, pos4, lim, sfx4) is Some);
                            assert(crate::wire::read_list(data, pos5, lim, sfx5) is Some);
                            assert(crate::wire::read_list(data, pos0, lim, sfx0).unwrap().0 == seq![read_of(data, pos0, lim, ts[0]).unwrap().0] + crate::wire::read_list(data, pos1, lim, sfx1).unwrap().0);
                            assert(crate::wire::read_list(data, pos1, lim, sfx1).unwrap().0 == seq![read_of(data, pos1, lim, ts[1]).unwrap().0] + crate::wire::read_list(data, pos2, lim, sfx2).unwrap().0);
                            assert(crate::wire::read_list(data, pos2, lim, sfx2).unwrap().0 == seq![read_of(data, pos2, lim, ts[2]).unwrap().0] + crate::wire::read_list(data, pos3, lim, sfx3).unwrap().0);
                            assert(crate::wire::read_list(data, pos3, lim, sfx3).unwrap().0 == seq![read_of(data, pos3, lim, ts[3]).unwrap().0] + crate::wire::read_list(data, pos4, lim, sfx4).unwrap().0);
                            assert(crate::wire::read_list(data, pos4, lim, sfx4).unwrap().0 == seq![read_of(data, pos4, lim, ts[4]).unwrap().0] + crate::wire::read_list(data, pos5, lim, sfx5).unwrap().0);
                            assert(crate::wire::read_list(data, pos5, lim, sfx5).unwrap().0 == seq![read_of(data, pos5, lim, ts[5]).unwrap().0] + crate::wire::read_list(data, read_of(data, pos5, lim, ts[5]).unwrap().1, lim, sfx6).unwrap().0);
                            assert(crate::wire::read_list(data, pos0, lim, sfx0).unwrap().0[5] == crate::wire::read_list(data, pos1, lim, sfx1).unwrap().0[4]);
                            assert(crate::wire::read_list(data, pos1, lim, sfx1).unwrap().0[4] == crate::wire::read_list(data, pos2, lim, sfx2).unwrap().0[3]);
                            assert(crate::wire::read_list(data, pos2, lim, sfx2).unwrap().0[3] == crate::wire::read_list(data, pos3, lim, sfx3).unwrap().0[2]);
                            assert(crate::wire::read_list(data, pos3, lim, sfx3).unwrap().0[2] == crate::wire::read_list(data, pos4, lim, sfx4).unwrap().0[1]);
                            assert(crate::wire::read_list(data, pos4, lim, sfx4).unwrap().0[1] == crate::wire::read_list(data, pos5, lim, sfx5).unwrap().0[0]);
                            assert(crate::wire::read_list(data, pos5, lim, sfx5).unwrap().0[0] == read_of(data, pos5, lim, ts[5]).unwrap().0);
                        }
                    }
                }
                return Err(e);
            },
        };
        let ghost gv5 = read_of(data, pos5, lim, ts[5]).unwrap().0;
        let ghost pos6 = sub@.pos;
        let ghost sfx7 = ts.subrange(7, ts.len() as int);
        proof {
            if ts.len() > 6 {
                assert(sfx6[0] == ts[6]);
                assert(sfx6.subrange(1, sfx6.len() as int) =~= sfx7);
                crate::wire::lemma_read_list_step(data, pos6, lim, sfx6);
                if read_of(data, pos6, lim, ts[6]) is Some {
                    let (v, p) = read_of(data, pos6, lim, ts[6]).unwrap();
                    if G::accepts(v) {
                        G::accepts_compat(v);
                    }
                }
            }
        }
        let x6 = match sub.consume::<G>() {
            Ok(x) => x,
            Err(e) => {
                proof {
                    if whole is Some {
                        crate::wire::lemma_typ_list_len(whole.unwrap().0);
                        crate::wire::lemma_read_skip_list(data, p0, lim, ts);
                        if ts.len() > 6 {
                            assert(crate::wire::read_list(data, pos0, lim, sfx0) is Some);
                            assert(crate::wire::read_list(data, pos1, lim, sfx1) is Some);
                            assert(crate::wire::read_list(data, pos2, lim, sfx2) is Some);
                            assert(crate::wire::read_list(data, pos3, lim, sfx3) is Some);
                            assert(crate::wire::read_list(data, pos4, lim, sfx4) is Some);
                            assert(crate::wire::read_list(data, pos5, lim, sfx5) is Some);
                            assert(crate::wire::read_list(data, pos6, lim, sfx6) is Some);
                            assert(crate::wire::read_list(data, pos0, lim, sfx0).unwrap().0 == seq![read_of(data, pos0, lim, ts[0]).unwrap().0] + crate::wire::read_list(data, pos1, lim, sfx1).unwrap().0);
                            assert(crate::wire::read_list(data, pos1, lim, sfx1).unwrap().0 == seq![read_of(data, pos1, lim, ts[1]).unwrap().0] + crate::wire::read_list(data, pos2, lim, sfx2).unwrap().0);
                            assert(crate::wire::read_list(data, pos2, lim, sfx2).unwrap().0 == seq![read_of(data, pos2, lim, ts[2]).unwrap().0] + crate::wire::read_list(data, pos3, lim, sfx3).unwrap().0);
                            assert(crate::wire::read_list(data, pos3, lim, sfx3).unwrap().0 == seq![read_of(data, pos3, lim, ts[3]).unwrap().0] + crate::wire::read_list(data, pos4, lim, sfx4).unwrap().0);
                            assert(crate::wire::read_list(data, pos4, lim, sfx4).unwrap().0 == seq![read_of(data, pos4, lim, ts[4]).unwrap().0] + crate::wire::read_list(data, pos5, lim, sfx5).unwrap().0);
                            assert(crate::wire::read_list(data, pos5, lim, sfx5).unwrap().0 == seq![read_of(data, pos5, lim, ts[5]).unwrap().0] + crate::wire::read_list(data, pos6, lim, sfx6).unwrap().0);
                            assert(crate::wire::read_list(data, pos6, lim, sfx6).unwrap().0 == seq![read_of(data, pos6, lim, ts[6]).unwrap().0] + crate::wire::read_list(data, read_of(data, pos6, lim, ts[6]).unwrap().1, lim, sfx7).unwrap().0);
                            assert(crate::wire::read_list(data, pos0, lim, sfx0).unwrap().0[6] == crate::wire::read_list(data, pos1, lim, sfx1).unwrap().0[5]);
                            assert(crate::wire::read_list(data, pos1, lim, sfx1).unwrap().0[5] == crate::wire::read_list(data, pos2, lim, sfx2).unwrap().0[4]);
                            assert(crate::wire::read_list(data, pos2, lim, sfx2).unwrap().0[4] == crate::wire::read_list(data, pos3, lim, sfx3).unwrap().0[3]);
                            assert(crate::wire::read_list(data, pos3, lim, sfx3).unwrap().0[3] == crate::wire::read_list(data, pos4, lim, sfx4).unwrap().0[2]);
                            assert(crate::wire::read_list(data, pos4, lim, sfx4).unwrap().0[2] == crate::wire::read_list(data, pos5, lim, sfx5).unwrap().0[1]);
                            assert(crate::wire::read_list(data, pos5, lim, sfx5).unwrap().0[1] == crate::wire::read_list(data, pos6, lim, sfx6).unwrap().0[0]);
                            assert(crate::wire::read_list(data, pos6, lim, sfx6).unwrap().0[0] == read_of(data, pos6, lim, ts[6]).unwrap().0);
                        }
                    }
                }
                return Err(e);
            },
        };
        let ghost gv6 = read_of(data, pos6, lim, ts[6]).unwrap().0;
        let ghost pos7 = sub@.pos;
        proof {
            if whole is Some {
                crate::wire::lemma_typ_list_len(whole.unwrap().0);
                crate::wire::lemma_read_skip_list(data, p0, lim, ts);
            }
            if ts.len() == 7 {
                assert(sfx7.len() == 0);
                assert(crate::wire::read_list(data, pos7, lim, sfx7) == Some((
                    Seq::<AnyVal>::empty(),
                    pos7,
                )));
                assert(seq![gv6] + Seq::<AnyVal>::empty() =~= seq![gv6]);
                assert(crate::wire::read_list(data, pos6, lim, sfx6) == Some((seq![gv6], pos7)));
                assert(seq![gv5] + seq![gv6] =~= seq![gv5, gv6]);
                assert(crate::wire::read_list(data, pos5, lim, sfx5) == Some((seq![gv5, gv6], pos7)));
                assert(seq![gv4] + seq![gv5, gv6] =~= seq![gv4, gv5, gv6]);
                assert(crate::wire::read_list(data, pos4, lim, sfx4) == Some((seq![gv4, gv5, gv6], pos7)));
                assert(seq![gv3] + seq![gv4, gv5, gv6] =~= seq![gv3, gv4, gv5, gv6]);
                assert(crate::wire::read_list(data, pos3, lim, sfx3) == Some((seq![gv3, gv4, gv5, gv6], pos7)));
                assert(seq![gv2] + seq![gv3, gv4, gv5, gv6] =~= seq![gv2, gv3, gv4, gv5, gv6]);
                assert(crate::wire::read_list(data, pos2, lim, sfx2) == Some((seq![gv2, gv3, gv4, gv5, gv6], pos7)));
                assert(seq![gv1] + seq![gv2, gv3, gv4, gv5, gv6] =~= seq![gv1, gv2, gv3, gv4, gv5, gv6]);
                assert(crate::wire::read_list(data, pos1, lim, sfx1) == Some((seq![gv1, gv2, gv3, gv4, gv5, gv6], pos7)));
                assert(seq![gv0] + seq![gv1, gv2, gv3, gv4, gv5, gv6] =~= seq![gv0, gv1, gv2, gv3, gv4, gv5, gv6]);
                assert(crate::wire::read_list(data, pos0, lim, sfx0) == Some((seq![gv0, gv1, gv2, gv3, gv4, gv5, gv6], pos7)));
            }
        }
        match sub.terminated() {
            Ok(()) => Ok((x0, x1, x2, x3, x4, x5, x6)),
            Err(e) => Err(e),
        }
    }
}

impl<A: Readable, B: Readable, C: Readable, D: Readable, E: Readable, F: Readable, G: Readable, H: Readable> Readable for (A, B, C, D, E, F, G, H) {
    open spec fn expected_type() -> WireTypeV {
        WireTypeV::Struct(seq![A::expected_type(), B::expected_type(), C::expected_type(), D::expected_type(), E::expected_type(), F::expected_type(), G::expected_type(), H::expected_type()])
    }

    open spec fn compat(tag: ArgType) -> bool {
        tag == ArgType::Struct
    }

    open spec fn accepts(v: AnyVal) -> bool {
        &&& v is Struct
        &&& v->Struct_0.len() == 8
        &&& A::accepts(v->Struct_0[0])
        &&& B::accepts(v->Struct_0[1])
        &&& C::accepts(v->Struct_0[2])
        &&& D::accepts(v->Struct_0[3])
        &&& E::accepts(v->Struct_0[4])
        &&& F::accepts(v->Struct_0[5])
        &&& G::accepts(v->Struct_0[6])
        &&& H::accepts(v->Struct_0[7])
    }

    open spec fn models(self, v: AnyVal) -> bool {
        &&& v is Struct
        &&& v->Struct_0.len() == 8
        &&& self.0.models(v->Struct_0[0])
        &&& self.1.models(v->Struct_0[1])
        &&& self.2.models(v->Struct_0[2])
        &&& self.3.models(v->Struct_0[3])
        &&& self.4.models(v->Struct_0[4])
        &&& self.5.models(v->Struct_0[5])
        &&& self.6.models(v->Struct_0[6])
        &&& self.7.models(v->Struct_0[7])
    }

    open spec fn err_shape(m: ReaderModel, e: Error) -> bool {
        match m.head_type() {
            Some(WireTypeV::Struct(ts)) => match m.head_read() {
                Some((v, _)) => {
                    let elems = v->Struct_0;
                    &&& (elems.len() > 8 && A::accepts(elems[0]) && B::accepts(elems[1]) && C::accepts(elems[2]) && D::accepts(elems[3]) && E::accepts(elems[4]) && F::accepts(elems[5]) && G::accepts(elems[6]) && H::accepts(elems[7]) ==> is_trailing_err(
                        e,
                        ts.subrange(8, ts.len() as int),
                    ))
                    &&& (elems.len() == 0 ==> end_of_input_err::<A>(e))
                    &&& (elems.len() == 1 && A::accepts(elems[0]) ==> end_of_input_err::<B>(e))
                    &&& (elems.len() == 2 && A::accepts(elems[0]) && B::accepts(elems[1]) ==> end_of_input_err::<C>(e))
                    &&& (elems.len() == 3 && A::accepts(elems[0]) && B::accepts(elems[1]) && C::accepts(elems[2]) ==> end_of_input_err::<D>(e))
                    &&& (elems.len() == 4 && A::accepts(elems[0]) && B::accepts(elems[1]) && C::accepts(elems[2]) && D::accepts(elems[3]) ==> end_of_input_err::<E>(e))
                    &&& (elems.len() == 5 && A::accepts(elems[0]) && B::accepts(elems[1]) && C::accepts(elems[2]) && D::accepts(elems[3]) && E::accepts(elems[4]) ==> end_of_input_err::<F>(e))
                    &&& (elems.len() == 6 && A::accepts(elems[0]) && B::accepts(elems[1]) && C::accepts(elems[2]) && D::accepts(elems[3]) && E::accepts(elems[4]) && F::accepts(elems[5]) ==> end_of_input_err::<G>(e))
                    &&& (elems.len() == 7 && A::accepts(elems[0]) && B::accepts(elems[1]) && C::accepts(elems[2]) && D::accepts(elems[3]) && E::accepts(elems[4]) && F::accepts(elems[5]) && G::accepts(elems[6]) ==> end_of_input_err::<H>(e))
                },
                None => true,
            },
            _ => true,
        }
    }

    proof fn accepts_compat(v: AnyVal) {
    }

    fn expected() -> (r: Signature) {
        let mut members: Vec<WireType> = Vec::new();
        let e0 = A::expected();
        members.push(e0.type_at(0).duplicate());
        let e1 = B::expected();
        members.push(e1.type_at(0).duplicate());
        let e2 = C::expected();
        members.push(e2.type_at(0).duplicate());
        let e3 = D::expected();
        members.push(e3.type_at(0).duplicate());
        let e4 = E::expected();
        members.push(e4.type_at(0).duplicate());
        let e5 = F::expected();
        members.push(e5.type_at(0).duplicate());
        let e6 = G::expected();
        members.push(e6.type_at(0).duplicate());
        let e7 = H::expected();
        members.push(e7.type_at(0).duplicate());
        proof {
            lemma_type_views_len(members@);
            lemma_type_views_index(members@, 0);
            lemma_type_views_index(members@, 1);
            lemma_type_views_index(members@, 2);
            lemma_type_views_index(members@, 3);
            lemma_type_views_index(members@, 4);
            lemma_type_views_index(members@, 5);
            lemma_type_views_index(members@, 6);
            lemma_type_views_index(members@, 7);
            assert(type_views(members@) =~= seq![A::expected_type(), B::expected_type(), C::expected_type(), D::expected_type(), E::expected_type(), F::expected_type(), G::expected_type(), H::expected_type()]);
        }
        Signature::single(WireType::Struct(members))
    }

    fn compatible(tag: ArgType) -> (r: bool) {
        tag == ArgType::Struct
    }

    /// Consumes exactly 8 members in declared order.  A structure with
    /// more members than the tuple's arity is reported as a trailing type
    /// carrying the unread members' signature; one with fewer members ends
    /// the level early and is reported so.
    #[verifier::spinoff_prover]
    #[verifier::rlimit(100)]
    fn peek(reader: &Reader<'_>) -> (r: Result<Self, Error>) {
        let ghost data = reader@.data;
        let ghost p0 = reader@.pos;
        let ghost lim = reader@.limit;
        let ghost h = reader@.head_type().unwrap();
        let ghost ts = h->Struct_0;
        let mut sub = reader.recurse();
        proof {
            assert(h is Struct);
            assert(h == WireTypeV::Struct(ts));
            assert(reader@.head_read() == read_of(data, p0, lim, h));
            assert(read_of(data, p0, lim, h) == (match crate::wire::read_list(data, p0, lim, ts) {
                Some((vs, p)) => Some((AnyVal::Struct(vs), p)),
                None => None::<(AnyVal, int)>,
            }));
            assert(sub@ == ReaderModel {
                data: data,
                pos: p0,
                limit: lim,
                level: LevelModel::Fields(ts, 0),
            });
        }
        let ghost whole = crate::wire::read_list(data, p0, lim, ts);
        let ghost pos0 = p0;
        let ghost sfx0 = ts;
        let ghost sfx1 = ts.subrange(1, ts.len() as int);
        proof {
            if ts.len() > 0 {
                assert(sfx0[0] == ts[0]);
                assert(sfx0.subrange(1, sfx0.len() as int) =~= sfx1);
                crate::wire::lemma_read_list_step(data, pos0, lim, sfx0);
                if read_of(data, pos0, lim, ts[0]) is Some {
                    let (v, p) = read_of(data, pos0, lim, ts[0]).unwrap();
                    if A::accepts(v) {
                        A::accepts_compat(v);
                    }
                }
            }
        }
        let x0 = match sub.consume::<A>() {
            Ok(x) => x,
            Err(e) => {
                proof {
                    if whole is Some {
                        crate::wire::lemma_typ_list_len(whole.unwrap().0);
                        crate::wire::lemma_read_skip_list(data, p0, lim, ts);
                        if ts.len() > 0 {
                            assert(crate::wire::read_list(data, pos0, lim, sfx0) is Some);
                            assert(crate::wire::read_list(data, pos0, lim, sfx0).unwrap().0 == seq![read_of(data, pos0, lim, ts[0]).unwrap().0] + crate::wire::read_list(data, read_of(data, pos0, lim, ts[0]).unwrap().1, lim, sfx1).unwrap().0);
                            assert(crate::wire::read_list(data, pos0, lim, sfx0).unwrap().0[0] == read_of(data, pos0, lim, ts[0]).unwrap().0);
                        }
                    }
                }
                return Err(e);
            },
        };
        let ghost gv0 = read_of(data, pos0, lim, ts[0]).unwrap().0;
        let ghost pos1 = sub@.pos;
        let ghost sfx2 = ts.subrange(2, ts.len() as int);
        proof {
            if ts.len() > 1 {
                assert(sfx1[0] == ts[1]);
                assert(sfx1.subrange(1, sfx1.len() as int) =~= sfx2);
                crate::wire::lemma_read_list_step(data, pos1, lim, sfx1);
                if read_of(data, pos1, lim, ts[1]) is Some {
                    let (v, p) = read_of(data, pos1, lim, ts[1]).unwrap();
                    if B::accepts(v) {
                        B::accepts_compat(v);
                    }
                }
            }
        }
        let x1 = match sub.consume::<B>() {
            Ok(x) => x,
            Err(e) => {
                proof {
                    if whole is Some {
                        crate::wire::lemma_typ_list_len(whole.unwrap().0);
                        crate::wire::lemma_read_skip_list(data, p0, lim, ts);
                        if ts.len() > 1 {
                            assert(crate::wire::read_list(data, pos0, lim, sfx0) is Some);
                            assert(crate::wire::read_list(data, pos1, lim, sfx1) is Some);
                            assert(crate::wire::read_list(data, pos0, lim, sfx0).unwrap().0 == seq![read_of(data, pos0, lim, ts[0]).unwrap().0] + crate::wire::read_list(data, pos1, lim, sfx1).unwrap().0);
                            assert(crate::wire::read_list(data, pos1, lim, sfx1).unwrap().0 == seq![read_of(data, pos1, lim, ts[1]).unwrap().0] + crate::wire::read_list(data, read_of(data, pos1, lim, ts[1]).unwrap().1, lim, sfx2).unwrap().0);
                            assert(crate::wire::read_list(data, pos0, lim, sfx0).unwrap().0[1] == crate::wire::read_list(data, pos1, lim, sfx1).unwrap().0[0]);
                            assert(crate::wire::read_list(data, pos1, lim, sfx1).unwrap().0[0] == read_of(data, pos1, lim, ts[1]).unwrap().0);
                        }
                    }
                }
                return Err(e);
            },
        };
        let ghost gv1 = read_of(data, pos1, lim, ts[1]).unwrap().0;
        let ghost pos2 = sub@.pos;
        let ghost sfx3 = ts.subrange(3, ts.len() as int);
        proof {
            if ts.len() > 2 {
                assert(sfx2[0] == ts[2]);
                assert(sfx2.subrange(1, sfx2.len() as int) =~= sfx3);
                crate::wire::lemma_read_list_step(data, pos2, lim, sfx2);
                if read_of(data, pos2, lim, ts[2]) is Some {
                    let (v, p) = read_of(data, pos2, lim, ts[2]).unwrap();
                    if C::accepts(v) {
                        C::accepts_compat(v);
                    }
                }
            }
        }
        let x2 = match sub.consume::<C>() {
            Ok(x) => x,
            Err(e) => {
                proof {
                    if whole is Some {
                        crate::wire::lemma_typ_list_len(whole.unwrap().0);
                        crate::wire::lemma_read_skip_list(data, p0, lim, ts);
                        if ts.len() > 2 {
                            assert(crate::wire::read_list(data, pos0, lim, sfx0) is Some);
                            assert(crate::wire::read_list(data, pos1, lim, sfx1) is Some);
                            assert(crate::wire::read_list(data, pos2, lim, sfx2) is Some);
                            assert(crate::wire::read_list(data, pos0, lim, sfx0).unwrap().0 == seq![read_of(data, pos0, lim, ts[0]).unwrap().0] + crate::wire::read_list(data, pos1, lim, sfx1).unwrap().0);
                            assert(crate::wire::read_list(data, pos1, lim, sfx1).unwrap().0 == seq![read_of(data, pos1, lim, ts[1]).unwrap().0] + crate::wire::read_list(data, pos2, lim, sfx2).unwrap().0);
                            assert(crate::wire::read_list(data, pos2, lim, sfx2).unwrap().0 == seq![read_of(data, pos2, lim, ts[2]).unwrap().0] + crate::wire::read_list(data, read_of(data, pos2, lim, ts[2]).unwrap().1, lim, sfx3).unwrap().0);
                            assert(crate::wire::read_list(data, pos0, lim, sfx0).unwrap().0[2] == crate::wire::read_list(data, pos1, lim, sfx1).unwrap().0[1]);
                            assert(crate::wire::read_list(data, pos1, lim, sfx1).unwrap().0[1] == crate::wire::read_list(data, pos2, lim, sfx2).unwrap().0[0]);
                            assert(crate::wire::read_list(data, pos2, lim, sfx2).unwrap().0[0] == read_of(data, pos2, lim, ts[2]).unwrap().0);
                        }
                    }
                }
                return Err(e);
            },
        };
        let ghost gv2 = read_of(data, pos2, lim, ts[2]).unwrap().0;
        let ghost pos3 = sub@.pos;
        let ghost sfx4 = ts.subrange(4, ts.len() as int);
        proof {
            if ts.len() > 3 {
                assert(sfx3[0] == ts[3]);
                assert(sfx3.subrange(1, sfx3.len() as int) =~= sfx4);
                crate::wire::lemma_read_list_step(data, pos3, lim, sfx3);
                if read_of(data, pos3, lim, ts[3]) is Some {
                    let (v, p) = read_of(data, pos3, lim, ts[3]).unwrap();
                    if D::accepts(v) {
                        D::accepts_compat(v);
                    }
                }
            }
        }
        let x3 = match sub.consume::<D>() {
            Ok(x) => x,
            Err(e) => {
                proof {
                    if whole is Some {
                        crate::wire::lemma_typ_list_len(whole.unwrap().0);
                        crate::wire::lemma_read_skip_list(data, p0, lim, ts);
                        if ts.len() > 3 {
                            assert(crate::wire::read_list(data, pos0, lim, sfx0) is Some);
                            assert(crate::wire::read_list(data, pos1, lim, sfx1) is Some);
                            assert(crate::wire::read_list(data, pos2, lim, sfx2) is Some);
                            assert(crate::wire::read_list(data, pos3, lim, sfx3) is Some);
                            assert(crate::wire::read_list(data, pos0, lim, sfx0).unwrap().0 == seq![read_of(data, pos0, lim, ts[0]).unwrap().0] + crate::wire::read_list(data, pos1, lim, sfx1).unwrap().0);
                            assert(crate::wire::read_list(data, pos1, lim, sfx1).unwrap().0 == seq![read_of(data, pos1, lim, ts[1]).unwrap().0] + crate::wire::read_list(data, pos2, lim, sfx2).unwrap().0);
                            assert(crate::wire::read_list(data, pos2, lim, sfx2).unwrap().0 == seq![read_of(data, pos2, lim, ts[2]).unwrap().0] + crate::wire::read_list(data, pos3, lim, sfx3).unwrap().0);
                            assert(crate::wire::read_list(data, pos3, lim, sfx3).unwrap().0 == seq![read_of(data, pos3, lim, ts[3]).unwrap().0] + crate::wire::read_list(data, read_of(data, pos3, lim, ts[3]).unwrap().1, lim, sfx4).unwrap().0);
                            assert(crate::wire::read_list(data, pos0, lim, sfx0).unwrap().0[3] == crate::wire::read_list(data, pos1, lim, sfx1).unwrap().0[2]);
                            assert(crate::wire::read_list(data, pos1, lim, sfx1).unwrap().0[2] == crate::wire::read_list(data, pos2, lim, sfx2).unwrap().0[1]);
                            assert(crate::wire::read_list(data, pos2, lim, sfx2).unwrap().0[1] == crate::wire::read_list(data, pos3, lim, sfx3).unwrap().0[0]);
                            assert(crate::wire::read_list(data, pos3, lim, sfx3).unwrap().0[0] == read_of(data, pos3, lim, ts[3]).unwrap().0);
                        }
                    }
                }
                return Err(e);
            },
        };
        let ghost gv3 = read_of(data, pos3, lim, ts[3]).unwrap().0;
        let ghost pos4 = sub@.pos;
        let ghost sfx5 = ts.subrange(5, ts.len() as int);
        proof {
            if ts.len() > 4 {
                assert(sfx4[0] == ts[4]);
                assert(sfx4.subrange(1, sfx4.len() as int) =~= sfx5);
                crate::wire::lemma_read_list_step(data, pos4, lim, sfx4);
                if read_of(data, pos4, lim, ts[4]) is Some {
                    let (v, p) = read_of(data, pos4, lim, ts[4]).unwrap();
                    if E::accepts(v) {
                        E::accepts_compat(v);
                    }
                }
            }
        }
        let x4 = match sub.consume::<E>() {
            Ok(x) => x,
            Err(e) => {
                proof {
                    if whole is Some {
                        crate::wire::lemma_typ_list_len(whole.unwrap().0);
                        crate::wire::lemma_read_skip_list(data, p0, lim, ts);
                        if ts.len() > 4 {
                            assert(crate::wire::read_list(data, pos0, lim, sfx0) is Some);
                            assert(crate::wire::read_list(data, pos1, lim, sfx1) is Some);
                            assert(crate::wire::read_list(data, pos2, lim, sfx2) is Some);
                            assert(crate::wire::read_list(data, pos3, lim, sfx3) is Some);
                            assert(crate::wire::read_list(data, pos4, lim, sfx4) is Some);
                            assert(crate::wire::read_list(data, pos0, lim, sfx0).unwrap().0 == seq![read_of(data, pos0, lim, ts[0]).unwrap().0] + crate::wire::read_list(data, pos1, lim, sfx1).unwrap().0);
                            assert(crate::wire::read_list(data, pos1, lim, sfx1).unwrap().0 == seq![read_of(data, pos1, lim, ts[1]).unwrap().0] + crate::wire::read_list(data, pos2, lim, sfx2).unwrap().0);
                            assert(crate::wire::read_list(data, pos2, lim, sfx2).unwrap().0 == seq![read_of(data, pos2, lim, ts[2]).unwrap().0] + crate::wire::read_list(data, pos3, lim, sfx3).unwrap().0);
                            assert(crate::wire::read_list(data, pos3, lim, sfx3).unwrap().0 == seq![read_of(data, pos3, lim, ts[3]).unwrap().0] + crate::wire::read_list(data, pos4, lim, sfx4).unwrap().0);
                            assert(crate::wire::read_list(data, pos4, lim, sfx4).unwrap().0 == seq![read_of(data, pos4, lim, ts[4]).unwrap().0] + crate::wire::read_list(data, read_of(data, pos4, lim, ts[4]).unwrap().1, lim, sfx5).unwrap().0);
                            assert(crate::wire::read_list(data, pos0, lim, sfx0).unwrap().0[4] == crate::wire::read_list(data, pos1, lim, sfx1).unwrap().0[3]);
                            assert(crate::wire::read_list(data, pos1, lim, sfx1).unwrap().0[3] == crate::wire::read_list(data, pos2, lim, sfx2).unwrap().0[2]);
                            assert(crate::wire::read_list(data, pos2, lim, sfx2).unwrap().0[2] == crate::wire::read_list(data, pos3, lim, sfx3).unwrap().0[1]);
                            assert(crate::wire::read_list(data, pos3, lim, sfx3).unwrap().0[1] == crate::wire::read_list(data, pos4, lim, sfx4).unwrap().0[0]);
                            assert(crate::wire::read_list(data, pos4, lim, sfx4).unwrap().0[0] == read_of(data, pos4, lim, ts[4]).unwrap().0);
                        }
                    }
                }
                return Err(e);
            },
        };
        let ghost gv4 = read_of(data, pos4, lim, ts[4]).unwrap().0;
        let ghost pos5 = sub@.pos;
        let ghost sfx6 = ts.subrange(6, ts.len() as int);
        proof {
            if ts.len() > 5 {
                assert(sfx5[0] == ts[5]);
                assert(sfx5.subrange(1, sfx5.len() as int) =~= sfx6);
                crate::wire::lemma_read_list_step(data, pos5, lim, sfx5);
                if read_of(data, pos5, lim, ts[5]) is Some {
                    let (v, p) = read_of(data, pos5, lim, ts[5]).unwrap();
                    if F::accepts(v) {
                        F::accepts_compat(v);
                    }
                }
            }
        }
        let x5 = match sub.consume::<F>() {
            Ok(x) => x,
            Err(e) => {
                proof {
                    if whole is Some {
                        crate::wire::lemma_typ_list_len(whole.unwrap().0);
                        crate::wire::lemma_read_skip_list(data, p0, lim, ts);
                        if ts.len() > 5 {
                            assert(crate::wire::read_list(data, pos0, lim, sfx0) is Some);
                            assert(crate::wire::read_list(data, pos1, lim, sfx1) is Some);
                            assert(crate::wire::read_list(data, pos2, lim, sfx2) is Some);
                            assert(crate::wire::read_list(data, pos3, lim, sfx3) is Some);
                            assert(crate::wire::read_list(data, pos4, lim, sfx4) is Some);
                            assert(crate::wire::read_list(data, pos5, lim, sfx5) is Some);
                            assert(crate::wire::read_list(data, pos0, lim, sfx0).unwrap().0 == seq![read_of(data, pos0, lim, ts[0]).unwrap().0] + crate::wire::read_list(data, pos1, lim, sfx1).unwrap().0);
                            assert(crate::wire::read_list(data, pos1, lim, sfx1).unwrap().0 == seq![read_of(data, pos1, lim, ts[1]).unwrap().0] + crate::wire::read_list(data, pos2, lim, sfx2).unwrap().0);
                            assert(crate::wire::read_list(data, pos2, lim, sfx2).unwrap().0 == seq![read_of(data, pos2, lim, ts[2]).unwrap().0] + crate::wire::read_list(data, pos3, lim, sfx3).unwrap().0);
                            assert(crate::wire::read_list(data, pos3, lim, sfx3).unwrap().0 == seq![read_of(data, pos3, lim, ts[3]).unwrap().0] + crate::wire::read_list(data, pos4, lim, sfx4).unwrap().0);
                            assert(crate::wire::read_list(data, pos4, lim, sfx4).unwrap().0 == seq![read_of(data, pos4, lim, ts[4]).unwrap().0] + crate::wire::read_list(data, pos5, lim, sfx5).unwrap().0);
                            assert(crate::wire::read_list(data, pos5, lim, sfx5).unwrap().0 == seq![read_of(data, pos5, lim, ts[5]).unwrap().0] + crate::wire::read_list(data, read_of(data, pos5, lim, ts[5]).unwrap().1, lim, sfx6).unwrap().0);
                            assert(crate::wire::read_list(data, pos0, lim, sfx0).unwrap().0[5] == crate::wire::read_list(data, pos1, lim, sfx1).unwrap().0[4]);
                            assert(crate::wire::read_list(data, pos1, lim, sfx1).unwrap().0[4] == crate::wire::read_list(data, pos2, lim, sfx2).unwrap().0[3]);
                            assert(crate::wire::read_list(data, pos2, lim, sfx2).unwrap().0[3] == crate::wire::read_list(data, pos3, lim, sfx3).unwrap().0[2]);
                            assert(crate::wire::read_list(data, pos3, lim, sfx3).unwrap().0[2] == crate::wire::read_list(data, pos4, lim, sfx4).unwrap().0[1]);
                            assert(crate::wire::read_list(data, pos4, lim, sfx4).unwrap().0[1] == crate::wire::read_list(data, pos5, lim, sfx5).unwrap().0[0]);
                            assert(crate::wire::read_list(data, pos5, lim, sfx5).unwrap().0[0] == read_of(data, pos5, lim, ts[5]).unwrap().0);
                        }
                    }
                }
                return Err(e);
            },
        };
        let ghost gv5 = read_of(data, pos5, lim, ts[5]).unwrap().0;
        let ghost pos6 = sub@.pos;
        let ghost sfx7 = ts.subrange(7, ts.len() as int);
        proof {
            if ts.len() > 6 {
                assert(sfx6[0] == ts[6]);
                assert(sfx6.subrange(1, sfx6.len() as int) =~= sfx7);
                crate::wire::lemma_read_list_step(data, pos6, lim, sfx6);
                if read_of(data, pos6, lim, ts[6]) is Some {
                    let (v, p) = read_of(data, pos6, lim, ts[6]).unwrap();
                    if G::accepts(v) {
                        G::accepts_compat(v);
                    }
                }
            }
        }
        let x6 = match sub.consume::<G>() {
            Ok(x) => x,
            Err(e) => {
                proof {
                    if whole is Some {
                        crate::wire::lemma_typ_list_len(whole.unwrap().0);
                        crate::wire::lemma_read_skip_list(data, p0, lim, ts);
                        if ts.len() > 6 {
                            assert(crate::wire::read_list(data, pos0, lim, sfx0) is Some);
                            assert(crate::wire::read_list(data, pos1, lim, sfx1) is Some);
                            assert(crate::wire::read_list(data, pos2, lim, sfx2) is Some);
                            assert(crate::wire::read_list(data, pos3, lim, sfx3) is Some);
                            assert(crate::wire::read_list(data, pos4, lim, sfx4) is Some);
                            assert(crate::wire::read_list(data, pos5, lim, sfx5) is Some);
                            assert(crate::wire::read_list(data, pos6, lim, sfx6) is Some);
                            assert(crate::wire::read_list(data, pos0, lim, sfx0).unwrap().0 == seq![read_of(data, pos0, lim, ts[0]).unwrap().0] + crate::wire::read_list(data, pos1, lim, sfx1).unwrap().0);
                            assert(crate::wire::read_list(data, pos1, lim, sfx1).unwrap().0 == seq![read_of(data, pos1, lim, ts[1]).unwrap().0] + crate::wire::read_list(data, pos2, lim, sfx2).unwrap().0);
                            assert(crate::wire::read_list(data, pos2, lim, sfx2).unwrap().0 == seq![read_of(data, pos2, lim, ts[2]).unwrap().0] + crate::wire::read_list(data, pos3, lim, sfx3).unwrap().0);
                            assert(crate::wire::read_list(data, pos3, lim, sfx3).unwrap().0 == seq![read_of(data, pos3, lim, ts[3]).unwrap().0] + crate::wire::read_list(data, pos4, lim, sfx4).unwrap().0);
                            assert(crate::wire::read_list(data, pos4, lim, sfx4).unwrap().0 == seq![read_of(data, pos4, lim, ts[4]).unwrap().0] + crate::wire::read_list(data, pos5, lim, sfx5).unwrap().0);
                            assert(crate::wire::read_list(data, pos5, lim, sfx5).unwrap().0 == seq![read_of(data, pos5, lim, ts[5]).unwrap().0] + crate::wire::read_list(data, pos6, lim, sfx6).unwrap().0);
                            assert(crate::wire::read_list(data, pos6, lim, sfx6).unwrap().0 == seq![read_of(data, pos6, lim, ts[6]).unwrap().0] + crate::wire::read_list(data, read_of(data, pos6, lim, ts[6]).unwrap().1, lim, sfx7).unwrap().0);
                            assert(crate::wire::read_list(data, pos0, lim, sfx0).unwrap().0[6] == crate::wire::read_list(data, pos1, lim, sfx1).unwrap().0[5]);
                            assert(crate::wire::read_list(data, pos1, lim, sfx1).unwrap().0[5] == crate::wire::read_list(data, pos2, lim, sfx2).unwrap().0[4]);
                            assert(crate::wire::read_list(data, pos2, lim, sfx2).unwrap().0[4] == crate::wire::read_list(data, pos3, lim, sfx3).unwrap().0[3]);
                            assert(crate::wire::read_list(data, pos3, lim, sfx3).unwrap().0[3] == crate::wire::read_list(data, pos4, lim, sfx4).unwrap().0[2]);
                            assert(crate::wire::read_list(data, pos4, lim, sfx4).unwrap().0[2] == crate::wire::read_list(data, pos5, lim, sfx5).unwrap().0[1]);
                            assert(crate::wire::read_list(data, pos5, lim, sfx5).unwrap().0[1] == crate::wire::read_list(data, pos6, lim, sfx6).unwrap().0[0]);
                            assert(crate::wire::read_list(data, pos6, lim, sfx6).unwrap().0[0] == read_of(data, pos6, lim, ts[6]).unwrap().0);
                        }
                    }
                }
                return Err(e);
            },
        };
        let ghost gv6 = read_of(data, pos6, lim, ts[6]).unwrap().0;
        let ghost pos7 = sub@.pos;
        let ghost sfx8 = ts.subrange(8, ts.len() as int);
        proof {
            if ts.len() > 7 {
                assert(sfx7[0] == ts[7]);
                assert(sfx7.subrange(1, sfx7.len() as int) =~= sfx8);
                crate::wire::lemma_read_list_step(data, pos7, lim, sfx7);
                if read_of(data, pos7, lim, ts[7]) is Some {
                    let (v, p) = read_of(data, pos7, lim, ts[7]).unwrap();
                    if H::accepts(v) {
                        H::accepts_compat(v);
                    }
                }
            }
        }
        let x7 = match sub.consume::<H>() {
            Ok(x) => x,
            Err(e) => {
                proof {
                    if whole is Some {
                        crate::wire::lemma_typ_list_len(whole.unwrap().0);
                        crate::wire::lemma_read_skip_list(data, p0, lim, ts);
                        if ts.len() > 7 {
                            assert(crate::wire::read_list(data, pos0, lim, sfx0) is Some);
                            assert(crate::wire::read_list(data, pos1, lim, sfx1) is Some);
                            assert(crate::wire::read_list(data, pos2, lim, sfx2) is Some);
                            assert(crate::wire::read_list(data, pos3, lim, sfx3) is Some);
                            assert(crate::wire::read_list(data, pos4, lim, sfx4) is Some);
                            assert(crate::wire::read_list(data, pos5, lim, sfx5) is Some);
                            assert(crate::wire::read_list(data, pos6, lim, sfx6) is Some);
                            assert(crate::wire::read_list(data, pos7, lim, sfx7) is Some);
                            assert(crate::wire::read_list(data, pos0, lim, sfx0).unwrap().0 == seq![read_of(data, pos0, lim, ts[0]).unwrap().0] + crate::wire::read_list(data, pos1, lim, sfx1).unwrap().0);
                            assert(crate::wire::read_list(data, pos1, lim, sfx1).unwrap().0 == seq![read_of(data, pos1, lim, ts[1]).unwrap().0] + crate::wire::read_list(data, pos2, lim, sfx2).unwrap().0);
                            assert(crate::wire::read_list(data, pos2, lim, sfx2).unwrap().0 == seq![read_of(data, pos2, lim, ts[2]).unwrap().0] + crate::wire::read_list(data, pos3, lim, sfx3).unwrap().0);
                            assert(crate::wire::read_list(data, pos3, lim, sfx3).unwrap().0 == seq![read_of(data, pos3, lim, ts[3]).unwrap().0] + crate::wire::read_list(data, pos4, lim, sfx4).unwrap().0);
                            assert(crate::wire::read_list(data, pos4, lim, sfx4).unwrap().0 == seq![read_of(data, pos4, lim, ts[4]).unwrap().0] + crate::wire::read_list(data, pos5, lim, sfx5).unwrap().0);
                            assert(crate::wire::read_list(data, pos5, lim, sfx5).unwrap().0 == seq![read_of(data, pos5, lim, ts[5]).unwrap().0] + crate::wire::read_list(data, pos6, lim, sfx6).unwrap().0);
                            assert(crate::wire::read_list(data, pos6, lim, sfx6).unwrap().0 == seq![read_of(data, pos6, lim, ts[6]).unwrap().0] + crate::wire::read_list(data, pos7, lim, sfx7).unwrap().0);
                            assert(crate::wire::read_list(data, pos7, lim, sfx7).unwrap().0 == seq![read_of(data, pos7, lim, ts[7]).unwrap().0] + crate::wire::read_list(data, read_of(data, pos7, lim, ts[7]).unwrap().1, lim, sfx8).unwrap().0);
                            assert(crate::wire::read_list(data, pos0, lim, sfx0).unwrap().0[7] == crate::wire::read_list(data, pos1, lim, sfx1).unwrap().0[6]);
                            assert(crate::wire::read_list(data, pos1, lim, sfx1).unwrap().0[6] == crate::wire::read_list(data, pos2, lim, sfx2).unwrap().0[5]);
                            assert(crate::wire::read_list(data, pos2, lim, sfx2).unwrap().0[5] == crate::wire::read_list(data, pos3, lim, sfx3).unwrap().0[4]);
                            assert(crate::wire::read_list(data, pos3, lim, sfx3).unwrap().0[4] == crate::wire::read_list(data, pos4, lim, sfx4).unwrap().0[3]);
                            assert(crate::wire::read_list(data, pos4, lim, sfx4).unwrap().0[3] == crate::wire::read_list(data, pos5, lim, sfx5).unwrap().0[2]);
                            assert(crate::wire::read_list(data, pos5, lim, sfx5).unwrap().0[2] == crate::wire::read_list(data, pos6, lim, sfx6).unwrap().0[1]);
                            assert(crate::wire::read_list(data, pos6, lim, sfx6).unwrap().0[1] == crate::wire::read_list(data, pos7, lim, sfx7).unwrap().0[0]);
                            assert(crate::wire::read_list(data, pos7, lim, sfx7).unwrap().0[0] == read_of(data, pos7, lim, ts[7]).unwrap().0);
                        }
                    }
                }
                return Err(e);
            },
        };
        let ghost gv7 = read_of(data, pos7, lim, ts[7]).unwrap().0;
        let ghost pos8 = sub@.pos;
        proof {
            if whole is Some {
                crate::wire::lemma_typ_list_len(whole.unwrap().0);
                crate::wire::lemma_read_skip_list(data, p0, lim, ts);
            }
            if ts.len() == 8 {
                assert(sfx8.len() == 0);
                assert(crate::wire::read_list(data, pos8, lim, sfx8) == Some((
                    Seq::<AnyVal>::empty(),
                    pos8,
                )));
                assert(seq![gv7] + Seq::<AnyVal>::empty() =~= seq![gv7]);
                assert(crate::wire::read_list(data, pos7, lim, sfx7) == Some((seq![gv7], pos8)));
                assert(seq![gv6] + seq![gv7] =~= seq![gv6, gv7]);
                assert(crate::wire::read_list(data, pos6, lim, sfx6) == Some((seq![gv6, gv7], pos8)));
                assert(seq![gv5] + seq![gv6, gv7] =~= seq![gv5, gv6, gv7]);
                assert(crate::wire::read_list(data, pos5, lim, sfx5) == Some((seq![gv5, gv6, gv7], pos8)));
                assert(seq![gv4] + seq![gv5, gv6, gv7] =~= seq![gv4, gv5, gv6, gv7]);
                assert(crate::wire::read_list(data, pos4, lim, sfx4) == Some((seq![gv4, gv5, gv6, gv7], pos8)));
                assert(seq![gv3] + seq![gv4, gv5, gv6, gv7] =~= seq![gv3, gv4, gv5, gv6, gv7]);
                assert(crate::wire::read_list(data, pos3, lim, sfx3) == Some((seq![gv3, gv4, gv5, gv6, gv7], pos8)));
                assert(seq![gv2] + seq![gv3, gv4, gv5, gv6, gv7] =~= seq![gv2, gv3, gv4, gv5, gv6, gv7]);
                assert(crate::wire::read_list(data, pos2, lim, sfx2) == Some((seq![gv2, gv3, gv4, gv5, gv6, gv7], pos8)));
                assert(seq![gv1] + seq![gv2, gv3, gv4, gv5, gv6, gv7] =~= seq![gv1, gv2, gv3, gv4, gv5, gv6, gv7]);
                assert(crate::wire::read_list(data, pos1, lim, sfx1) == Some((seq![gv1, gv2, gv3, gv4, gv5, gv6, gv7], pos8)));
                assert(seq![gv0] + seq![gv1, gv2, gv3, gv4, gv5, gv6, gv7] =~= seq![gv0, gv1, gv2, gv3, gv4, gv5, gv6, gv7]);
                assert(crate::wire::read_list(data, pos0, lim, sfx0) == Some((seq![gv0, gv1, gv2, gv3, gv4, gv5, gv6, gv7], pos8)));
            }
        }
        match sub.terminated() {
            Ok(()) => Ok((x0, x1, x2, x3, x4, x5, x6, x7)),
            Err(e) => Err(e),
        }
    }
}

impl<A: Readable, B: Readable, C: Readable, D: Readable, E: Readable, F: Readable, G: Readable, H: Readable, I: Readable> Readable for (A, B, C, D, E, F, G, H, I) {
    open spec fn expected_type() -> WireTypeV {
        WireTypeV::Struct(seq![A::expected_type(), B::expected_type(), C::expected_type(), D::expected_type(), E::expected_type(), F::expected_type(), G::expected_type(), H::expected_type(), I::expected_type()])
    }

    open spec fn compat(tag: ArgType) -> bool {
        tag == ArgType::Struct
    }

    open spec fn accepts(v: AnyVal) -> bool {
        &&& v is Struct
        &&& v->Struct_0.len() == 9
        &&& A::accepts(v->Struct_0[0])
        &&& B::accepts(v->Struct_0[1])
        &&& C::accepts(v->Struct_0[2])
        &&& D::accepts(v->Struct_0[3])
        &&& E::accepts(v->Struct_0[4])
        &&& F::accepts(v->Struct_0[5])
        &&& G::accepts(v->Struct_0[6])
        &&& H::accepts(v->Struct_0[7])
        &&& I::accepts(v->Struct_0[8])
    }

    open spec fn models(self, v: AnyVal) -> bool {
        &&& v is Struct
        &&& v->Struct_0.len() == 9
        &&& self.0.models(v->Struct_0[0])
        &&& self.1.models(v->Struct_0[1])
        &&& self.2.models(v->Struct_0[2])
        &&& self.3.models(v->Struct_0[3])
        &&& self.4.models(v->Struct_0[4])
        &&& self.5.models(v->Struct_0[5])
        &&& self.6.models(v->Struct_0[6])
        &&& self.7.models(v->Struct_0[7])
        &&& self.8.models(v->Struct_0[8])
    }

    open spec fn err_shape(m: ReaderModel, e: Error) -> bool {
        match m.head_type() {
            Some(WireTypeV::Struct(ts)) => match m.head_read() {
                Some((v, _)) => {
                    let elems = v->Struct_0;
                    &&& (elems.len() > 9 && A::accepts(elems[0]) && B::accepts(elems[1]) && C::accepts(elems[2]) && D::accepts(elems[3]) && E::accepts(elems[4]) && F::accepts(elems[5]) && G::accepts(elems[6]) && H::accepts(elems[7]) && I::accepts(elems[8]) ==> is_trailing_err(
                        e,
                        ts.subrange(9, ts.len() as int),
                    ))
                    &&& (elems.len() == 0 ==> end_of_input_err::<A>(e))
                    &&& (elems.len() == 1 && A::accepts(elems[0]) ==> end_of_input_err::<B>(e))
                    &&& (elems.len() == 2 && A::accepts(elems[0]) && B::accepts(elems[1]) ==> end_of_input_err::<C>(e))
                    &&& (elems.len() == 3 && A::accepts(elems[0]) && B::accepts(elems[1]) && C::accepts(elems[2]) ==> end_of_input_err::<D>(e))
                    &&& (elems.len() == 4 && A::accepts(elems[0]) && B::accepts(elems[1]) && C::accepts(elems[2]) && D::accepts(elems[3]) ==> end_of_input_err::<E>(e))
                    &&& (elems.len() == 5 && A::accepts(elems[0]) && B::accepts(elems[1]) && C::accepts(elems[2]) && D::accepts(elems[3]) && E::accepts(elems[4]) ==> end_of_input_err::<F>(e))
                    &&& (elems.len() == 6 && A::accepts(elems[0]) && B::accepts(elems[1]) && C::accepts(elems[2]) && D::accepts(elems[3]) && E::accepts(elems[4]) && F::accepts(elems[5]) ==> end_of_input_err::<G>(e))
                    &&& (elems.len() == 7 && A::accepts(elems[0]) && B::accepts(elems[1]) && C::accepts(elems[2]) && D::accepts(elems[3]) && E::accepts(elems[4]) && F::accepts(elems[5]) && G::accepts(elems[6]) ==> end_of_input_err::<H>(e))
                    &&& (elems.len() == 8 && A::accepts(elems[0]) && B::accepts(elems[1]) && C::accepts(elems[2]) && D::accepts(elems[3]) && E::accepts(elems[4]) && F::accepts(elems[5]) && G::accepts(elems[6]) && H::accepts(elems[7]) ==> end_of_input_err::<I>(e))
                },
                None => true,
            },
            _ => true,
        }
    }

    proof fn accepts_compat(v: AnyVal) {
    }

    fn expected() -> (r: Signature) {
        let mut members: Vec<WireType> = Vec::new();
        let e0 = A::expected();
        members.push(e0.type_at(0).duplicate());
        let e1 = B::expected();
        members.push(e1.type_at(0).duplicate());
        let e2 = C::expected();
        members.push(e2.type_at(0).duplicate());
        let e3 = D::expected();
        members.push(e3.type_at(0).duplicate());
        let e4 = E::expected();
        members.push(e4.type_at(0).duplicate());
        let e5 = F::expected();
        members.push(e5.type_at(0).duplicate());
        let e6 = G::expected();
        members.push(e6.type_at(0).duplicate());
        let e7 = H::expected();
        members.push(e7.type_at(0).duplicate());
        let e8 = I::expected();
        members.push(e8.type_at(0).duplicate());
        proof {
            lemma_type_views_len(members@);
            lemma_type_views_index(members@, 0);
            lemma_type_views_index(members@, 1);
            lemma_type_views_index(members@, 2);
            lemma_type_views_index(members@, 3);
            lemma_type_views_index(members@, 4);
            lemma_type_views_index(members@, 5);
            lemma_type_views_index(members@, 6);
            lemma_type_views_index(members@, 7);
            lemma_type_views_index(members@, 8);
            assert(type_views(members@) =~= seq![A::expected_type(), B::expected_type(), C::expected_type(), D::expected_type(), E::expected_type(), F::expected_type(), G::expected_type(), H::expected_type(), I::expected_type()]);
        }
        Signature::single(WireType::Struct(members))
    }

    fn compatible(tag: ArgType) -> (r: bool) {
        tag == ArgType::Struct
    }

    /// Consumes exactly 9 members in declared order.  A structure with
    /// more members than the tuple's arity is reported as a trailing type
    /// carrying the unread members' signature; one with fewer members ends
    /// the level early and is reported so.
    #[verifier::spinoff_prover]
    #[verifier::rlimit(100)]
    fn peek(reader: &Reader<'_>) -> (r: Result<Self, Error>) {
        let ghost data = reader@.data;
        let ghost p0 = reader@.pos;
        let ghost lim = reader@.limit;
        let ghost h = reader@.head_type().unwrap();
        let ghost ts = h->Struct_0;
        let mut sub = reader.recurse();
        proof {
            assert(h is Struct);
            assert(h == WireTypeV::Struct(ts));
            assert(reader@.head_read() == read_of(data, p0, lim, h));
            assert(read_of(data, p0, lim, h) == (match crate::wire::read_list(data, p0, lim, ts) {
                Some((vs, p)) => Some((AnyVal::Struct(vs), p)),
                None => None::<(AnyVal, int)>,
            }));
            assert(sub@ == ReaderModel {
                data: data,
                pos: p0,
                limit: lim,
                level: LevelModel::Fields(ts, 0),
            });
        }
        let ghost whole = crate::wire::read_list(data, p0, lim, ts);
        let ghost pos0 = p0;
        let ghost sfx0 = ts;
        let ghost sfx1 = ts.subrange(1, ts.len() as int);
        proof {
            if ts.len() > 0 {
                assert(sfx0[0] == ts[0]);
                assert(sfx0.subrange(1, sfx0.len() as int) =~= sfx1);
                crate::wire::lemma_read_list_step(data, pos0, lim, sfx0);
                if read_of(data, pos0, lim, ts[0]) is Some {
                    let (v, p) = read_of(data, pos0, lim, ts[0]).unwrap();
                    if A::accepts(v) {
                        A::accepts_compat(v);
                    }
                }
            }
        }
        let x0 = match sub.consume::<A>() {
            Ok(x) => x,
            Err(e) => {
                proof {
                    if whole is Some {
                        crate::wire::lemma_typ_list_len(whole.unwrap().0);
                        crate::wire::lemma_read_skip_list(data, p0, lim, ts);
                        if ts.len() > 0 {
                            assert(crate::wire::read_list(data, pos0, lim, sfx0) is Some);
                            assert(crate::wire::read_list(data, pos0, lim, sfx0).unwrap().0 == seq![read_of(data, pos0, lim, ts[0]).unwrap().0] + crate::wire::read_list(data, read_of(data, pos0, lim, ts[0]).unwrap().1, lim, sfx1).unwrap().0);
                            assert(crate::wire::read_list(data, pos0, lim, sfx0).unwrap().0[0] == read_of(data, pos0, lim, ts[0]).unwrap().0);
                        }
                    }
                }
                return Err(e);
            },
        };
        let ghost gv0 = read_of(data, pos0, lim, ts[0]).unwrap().0;
        let ghost pos1 = sub@.pos;
        let ghost sfx2 = ts.subrange(2, ts.len() as int);
        proof {
            if ts.len() > 1 {
                assert(sfx1[0] == ts[1]);
                assert(sfx1.subrange(1, sfx1.len() as int) =~= sfx2);
                crate::wire::lemma_read_list_step(data, pos1, lim, sfx1);
                if read_of(data, pos1, lim, ts[1]) is Some {
                    let (v, p) = read_of(data, pos1, lim, ts[1]).unwrap();
                    if B::accepts(v) {
                        B::accepts_compat(v);
                    }
                }
            }
        }
        let x1 = match sub.consume::<B>() {
            Ok(x) => x,
            Err(e) => {
                proof {
                    if whole is Some {
                        crate::wire::lemma_typ_list_len(whole.unwrap().0);
                        crate::wire::lemma_read_skip_list(data, p0, lim, ts);
                        if ts.len() > 1 {
                            assert(crate::wire::read_list(data, pos0, lim, sfx0) is Some);
                            assert(crate::wire::read_list(data, pos1, lim, sfx1) is Some);
                            assert(crate::wire::read_list(data, pos0, lim, sfx0).unwrap().0 == seq![read_of(data, pos0, lim, ts[0]).unwrap().0] + crate::wire::read_list(data, pos1, lim, sfx1).unwrap().0);
                            assert(crate::wire::read_list(data, pos1, lim, sfx1).unwrap().0 == seq![read_of(data, pos1, lim, ts[1]).unwrap().0] + crate::wire::read_list(data, read_of(data, pos1, lim, ts[1]).unwrap().1, lim, sfx2).unwrap().0);
                            assert(crate::wire::read_list(data, pos0, lim, sfx0).unwrap().0[1] == crate::wire::read_list(data, pos1, lim, sfx1).unwrap().0[0]);
                            assert(crate::wire::read_list(data, pos1, lim, sfx1).unwrap().0[0] == read_of(data, pos1, lim, ts[1]).unwrap().0);
                        }
                    }
                }
                return Err(e);
            },
        };
        let ghost gv1 = read_of(data, pos1, lim, ts[1]).unwrap().0;
        let ghost pos2 = sub@.pos;
        let ghost sfx3 = ts.subrange(3, ts.len() as int);
        proof {
            if ts.len() > 2 {
                assert(sfx2[0] == ts[2]);
                assert(sfx2.subrange(1, sfx2.len() as int) =~= sfx3);
                crate::wire::lemma_read_list_step(data, pos2, lim, sfx2);
                if read_of(data, pos2, lim, ts[2]) is Some {
                    let (v, p) = read_of(data, pos2, lim, ts[2]).unwrap();
                    if C::accepts(v) {
                        C::accepts_compat(v);
                    }
                }
            }
        }
        let x2 = match sub.consume::<C>() {
            Ok(x) => x,
            Err(e) => {
                proof {
                    if whole is Some {
                        crate::wire::lemma_typ_list_len(whole.unwrap().0);
                        crate::wire::lemma_read_skip_list(data, p0, lim, ts);
                        if ts.len() > 2 {
                            assert(crate::wire::read_list(data, pos0, lim, sfx0) is Some);
                            assert(crate::wire::read_list(data, pos1, lim, sfx1) is Some);
                            assert(crate::wire::read_list(data, pos2, lim, sfx2) is Some);
                            assert(crate::wire::read_list(data, pos0, lim, sfx0).unwrap().0 == seq![read_of(data, pos0, lim, ts[0]).unwrap().0] + crate::wire::read_list(data, pos1, lim, sfx1).unwrap().0);
                            assert(crate::wire::read_list(data, pos1, lim, sfx1).unwrap().0 == seq![read_of(data, pos1, lim, ts[1]).unwrap().0] + crate::wire::read_list(data, pos2, lim, sfx2).unwrap().0);
                            assert(crate::wire::read_list(data, pos2, lim, sfx2).unwrap().0 == seq![read_of(data, pos2, lim, ts[2]).unwrap().0] + crate::wire::read_list(data, read_of(data, pos2, lim, ts[2]).unwrap().1, lim, sfx3).unwrap().0);
                            assert(crate::wire::read_list(data, pos0, lim, sfx0).unwrap().0[2] == crate::wire::read_list(data, pos1, lim, sfx1).unwrap().0[1]);
                            assert(crate::wire::read_list(data, pos1, lim, sfx1).unwrap().0[1] == crate::wire::read_list(data, pos2, lim, sfx2).unwrap().0[0]);
                            assert(crate::wire::read_list(data, pos2, lim, sfx2).unwrap().0[0] == read_of(data, pos2, lim, ts[2]).unwrap().0);
                        }
                    }
                }
                return Err(e);
            },
        };
        let ghost gv2 = read_of(data, pos2, lim, ts[2]).unwrap().0;
        let ghost pos3 = sub@.pos;
        let ghost sfx4 = ts.subrange(4, ts.len() as int);
        proof {
            if ts.len() > 3 {
                assert(sfx3[0] == ts[3]);
                assert(sfx3.subrange(1, sfx3.len() as int) =~= sfx4);
                crate::wire::lemma_read_list_step(data, pos3, lim, sfx3);
                if read_of(data, pos3, lim, ts[3]) is Some {
                    let (v, p) = read_of(data, pos3, lim, ts[3]).unwrap();
                    if D::accepts(v) {
                        D::accepts_compat(v);
                    }
                }
            }
        }
        let x3 = match sub.consume::<D>() {
            Ok(x) => x,
            Err(e) => {
                proof {
                    if whole is Some {
                        crate::wire::lemma_typ_list_len(whole.unwrap().0);
                        crate::wire::lemma_read_skip_list(data, p0, lim, ts);
                        if ts.len() > 3 {
                            assert(crate::wire::read_list(data, pos0, lim, sfx0) is Some);
                            assert(crate::wire::read_list(data, pos1, lim, sfx1) is Some);
                            assert(crate::wire::read_list(data, pos2, lim, sfx2) is Some);
                            assert(crate::wire::read_list(data, pos3, lim, sfx3) is Some);
                            assert(crate::wire::read_list(data, pos0, lim, sfx0).unwrap().0 == seq![read_of(data, pos0, lim, ts[0]).unwrap().0] + crate::wire::read_list(data, pos1, lim, sfx1).unwrap().0);
                            assert(crate::wire::read_list(data, pos1, lim, sfx1).unwrap().0 == seq![read_of(data, pos1, lim, ts[1]).unwrap().0] + crate::wire::read_list(data, pos2, lim, sfx2).unwrap().0);
                            assert(crate::wire::read_list(data, pos2, lim, sfx2).unwrap().0 == seq![read_of(data, pos2, lim, ts[2]).unwrap().0] + crate::wire::read_list(data, pos3, lim, sfx3).unwrap().0);
                            assert(crate::wire::read_list(data, pos3, lim, sfx3).unwrap().0 == seq![read_of(data, pos3, lim, ts[3]).unwrap().0] + crate::wire::read_list(data, read_of(data, pos3, lim, ts[3]).unwrap().1, lim, sfx4).unwrap().0);
                            assert(crate::wire::read_list(data, pos0, lim, sfx0).unwrap().0[3] == crate::wire::read_list(data, pos1, lim, sfx1).unwrap().0[2]);
                            assert(crate::wire::read_list(data, pos1, lim, sfx1).unwrap().0[2] == crate::wire::read_list(data, pos2, lim, sfx2).unwrap().0[1]);
                            assert(crate::wire::read_list(data, pos2, lim, sfx2).unwrap().0[1] == crate::wire::read_list(data, pos3, lim, sfx3).unwrap().0[0]);
                            assert(crate::wire::read_list(data, pos3, lim, sfx3).unwrap().0[0] == read_of(data, pos3, lim, ts[3]).unwrap().0);
                        }
                    }
                }
                return Err(e);
            },
        };
        let ghost gv3 = read_of(data, pos3, lim, ts[3]).unwrap().0;
        let ghost pos4 = sub@.pos;
        let ghost sfx5 = ts.subrange(5, ts.len() as int);
        proof {
            if ts.len() > 4 {
                assert(sfx4[0] == ts[4]);
                assert(sfx4.subrange(1, sfx4.len() as int) =~= sfx5);
                crate::wire::lemma_read_list_step(data, pos4, lim, sfx4);
                if read_of(data, pos4, lim, ts[4]) is Some {
                    let (v, p) = read_of(data, pos4, lim, ts[4]).unwrap();
                    if E::accepts(v) {
                        E::accepts_compat(v);
                    }
                }
            }
        }
        let x4 = match sub.consume::<E>() {
            Ok(x) => x,
            Err(e) => {
                proof {
                    if whole is Some {
                        crate::wire::lemma_typ_list_len(whole.unwrap().0);
                        crate::wire::lemma_read_skip_list(data, p0, lim, ts);
                        if ts.len() > 4 {
                            assert(crate::wire::read_list(data, pos0, lim, sfx0) is Some);
                            assert(crate::wire::read_list(data, pos1, lim, sfx1) is Some);
                            assert(crate::wire::read_list(data, pos2, lim, sfx2) is Some);
                            assert(crate::wire::read_list(data, pos3, lim, sfx3) is Some);
                            assert(crate::wire::read_list(data, pos4, lim, sfx4) is Some);
                            assert(crate::wire::read_list(data, pos0, lim, sfx0).unwrap().0 == seq![read_of(data, pos0, lim, ts[0]).unwrap().0] + crate::wire::read_list(data, pos1, lim, sfx1).unwrap().0);
                            assert(crate::wire::read_list(data, pos1, lim, sfx1).unwrap().0 == seq![read_of(data, pos1, lim, ts[1]).unwrap().0] + crate::wire::read_list(data, pos2, lim, sfx2).unwrap().0);
                            assert(crate::wire::read_list(data, pos2, lim, sfx2).unwrap().0 == seq![read_of(data, pos2, lim, ts[2]).unwrap().0] + crate::wire::read_list(data, pos3, lim, sfx3).unwrap().0);
                            assert(crate::wire::read_list(data, pos3, lim, sfx3).unwrap().0 == seq![read_of(data, pos3, lim, ts[3]).unwrap().0] + crate::wire::read_list(data, pos4, lim, sfx4).unwrap().0);
                            assert(crate::wire::read_list(data, pos4, lim, sfx4).unwrap().0 == seq![read_of(data, pos4, lim, ts[4]).unwrap().0] + crate::wire::read_list(data, read_of(data, pos4, lim, ts[4]).unwrap().1, lim, sfx5).unwrap().0);
                            assert(crate::wire::read_list(data, pos0, lim, sfx0).unwrap().0[4] == crate::wire::read_list(data, pos1, lim, sfx1).unwrap().0[3]);
                            assert(crate::wire::read_list(data, pos1, lim, sfx1).unwrap().0[3] == crate::wire::read_list(data, pos2, lim, sfx2).unwrap().0[2]);
                            assert(crate::wire::read_list(data, pos2, lim, sfx2).unwrap().0[2] == crate::wire::read_list(data, pos3, lim, sfx3).unwrap().0[1]);
                            assert(crate::wire::read_list(data, pos3, lim, sfx3).unwrap().0[1] == crate::wire::read_list(data, pos4, lim, sfx4).unwrap().0[0]);
                            assert(crate::wire::read_list(data, pos4, lim, sfx4).unwrap().0[0] == read_of(data, pos4, lim, ts[4]).unwrap().0);
                        }
                    }
                }
                return Err(e);
            },
        };
        let ghost gv4 = read_of(data, pos4, lim, ts[4]).unwrap().0;
        let ghost pos5 = sub@.pos;
        let ghost sfx6 = ts.subrange(6, ts.len() as int);
        proof {
            if ts.len() > 5 {
                assert(sfx5[0] == ts[5]);
                assert(sfx5.subrange(1, sfx5.len() as int) =~= sfx6);
                crate::wire::lemma_read_list_step(data, pos5, lim, sfx5);
                if read_of(data, pos5, lim, ts[5]) is Some {
                    let (v, p) = read_of(data, pos5, lim, ts[5]).unwrap();
                    if F::accepts(v) {
                        F::accepts_compat(v);
                    }
                }
            }
        }
        let x5 = match sub.consume::<F>() {
            Ok(x) => x,
            Err(e) => {
                proof {
                    if whole is Some {
                        crate::wire::lemma_typ_list_len(whole.unwrap().0);
                        crate::wire::lemma_read_skip_list(data, p0, lim, ts);
                        if ts.len() > 5 {
                            assert(crate::wire::read_list(data, pos0, lim, sfx0) is Some);
                            assert(crate::wire::read_list(data, pos1, lim, sfx1) is Some);
                            assert(crate::wire::read_list(data, pos2, lim, sfx2) is Some);
                            assert(crate::wire::read_list(data, pos3, lim, sfx3) is Some);
                            assert(crate::wire::read_list(data, pos4, lim, sfx4) is Some);
                            assert(crate::wire::read_list(data, pos5, lim, sfx5) is Some);
                            assert(crate::wire::read_list(data, pos0, lim, sfx0).unwrap().0 == seq![read_of(data, pos0, lim, ts[0]).unwrap().0] + crate::wire::read_list(data, pos1, lim, sfx1).unwrap().0);
                            assert(crate::wire::read_list(data, pos1, lim, sfx1).unwrap().0 == seq![read_of(data, pos1, lim, ts[1]).unwrap().0] + crate::wire::read_list(data, pos2, lim, sfx2).unwrap().0);
                            assert(crate::wire::read_list(data, pos2, lim, sfx2).unwrap().0 == seq![read_of(data, pos2, lim, ts[2]).unwrap().0] + crate::wire::read_list(data, pos3, lim, sfx3).unwrap().0);
                            assert(crate::wire::read_list(data, pos3, lim, sfx3).unwrap().0 == seq![read_of(data, pos3, lim, ts[3]).unwrap().0] + crate::wire::read_list(data, pos4, lim, sfx4).unwrap().0);
                            assert(crate::wire::read_list(data, pos4, lim, sfx4).unwrap().0 == seq![read_of(data, pos4, lim, ts[4]).unwrap().0] + crate::wire::read_list(data, pos5, lim, sfx5).unwrap().0);
                            assert(crate::wire::read_list(data, pos5, lim, sfx5).unwrap().0 == seq![read_of(data, pos5, lim, ts[5]).unwrap().0] + crate::wire::read_list(data, read_of(data, pos5, lim, ts[5]).unwrap().1, lim, sfx6).unwrap().0);
                            assert(crate::wire::read_list(data, pos0, lim, sfx0).unwrap().0[5] == crate::wire::read_list(data, pos1, lim, sfx1).unwrap().0[4]);
                            assert(crate::wire::read_list(data, pos1, lim, sfx1).unwrap().0[4] == crate::wire::read_list(data, pos2, lim, sfx2).unwrap().0[3]);
                            assert(crate::wire::read_list(data, pos2, lim, sfx2).unwrap().0[3] == crate::wire::read_list(data, pos3, lim, sfx3).unwrap().0[2]);
                            assert(crate::wire::read_list(data, pos3, lim, sfx3).unwrap().0[2] == crate::wire::read_list(data, pos4, lim, sfx4).unwrap().0[1]);
                            assert(crate::wire::read_list(data, pos4, lim, sfx4).unwrap().0[1] == crate::wire::read_list(data, pos5, lim, sfx5).unwrap().0[0]);
                            assert(crate::wire::read_list(data, pos5, lim, sfx5).unwrap().0[0] == read_of(data, pos5, lim, ts[5]).unwrap().0);
                        }
                    }
                }
                return Err(e);
            },
        };
        let ghost gv5 = read_of(data, pos5, lim, ts[5]).unwrap().0;
        let ghost pos6 = sub@.pos;
        let ghost sfx7 = ts.subrange(7, ts.len() as int);
        proof {
            if ts.len() > 6 {
                assert(sfx6[0] == ts[6]);
                assert(sfx6.subrange(1, sfx6.len() as int) =~= sfx7);
                crate::wire::lemma_read_list_step(data, pos6, lim, sfx6);
                if read_of(data, pos6, lim, ts[6]) is Some {
                    let (v, p) = read_of(data, pos6, lim, ts[6]).unwrap();
                    if G::accepts(v) {
                        G::accepts_compat(v);
                    }
                }
            }
        }
        let x6 = match sub.consume::<G>() {
            Ok(x) => x,
            Err(e) => {
                proof {
                    if whole is Some {
                        crate::wire::lemma_typ_list_len(whole.unwrap().0);
                        crate::wire::lemma_read_skip_list(data, p0, lim, ts);
                        if ts.len() > 6 {
                            assert(crate::wire::read_list(data, pos0, lim, sfx0) is Some);
                            assert(crate::wire::read_list(data, pos1, lim, sfx1) is Some);
                            assert(crate::wire::read_list(data, pos2, lim, sfx2) is Some);
                            assert(crate::wire::read_list(data, pos3, lim, sfx3) is Some);
                            assert(crate::wire::read_list(data, pos4, lim, sfx4) is Some);
                            assert(crate::wire::read_list(data, pos5, lim, sfx5) is Some);
                            assert(crate::wire::read_list(data, pos6, lim, sfx6) is Some);
                            assert(crate::wire::read_list(data, pos0, lim, sfx0).unwrap().0 == seq![read_of(data, pos0, lim, ts[0]).unwrap().0] + crate::wire::read_list(data, pos1, lim, sfx1).unwrap().0);
                            assert(crate::wire::read_list(data, pos1, lim, sfx1).unwrap().0 == seq![read_of(data, pos1, lim, ts[1]).unwrap().0] + crate::wire::read_list(data, pos2, lim, sfx2).unwrap().0);
                            assert(crate::wire::read_list(data, pos2, lim, sfx2).unwrap().0 == seq![read_of(data, pos2, lim, ts[2]).unwrap().0] + crate::wire::read_list(data, pos3, lim, sfx3).unwrap().0);
                            assert(crate::wire::read_list(data, pos3, lim, sfx3).unwrap().0 == seq![read_of(data, pos3, lim, ts[3]).unwrap().0] + crate::wire::read_list(data, pos4, lim, sfx4).unwrap().0);
                            assert(crate::wire::read_list(data, pos4, lim, sfx4).unwrap().0 == seq![read_of(data, pos4, lim, ts[4]).unwrap().0] + crate::wire::read_list(data, pos5, lim, sfx5).unwrap().0);
                            assert(crate::wire::read_list(data, pos5, lim, sfx5).unwrap().0 == seq![read_of(data, pos5, lim, ts[5]).unwrap().0] + crate::wire::read_list(data, pos6, lim, sfx6).unwrap().0);
                            assert(crate::wire::read_list(data, pos6, lim, sfx6).unwrap().0 == seq![read_of(data, pos6, lim, ts[6]).unwrap().0] + crate::wire::read_list(data, read_of(data, pos6, lim, ts[6]).unwrap().1, lim, sfx7).unwrap().0);
                            assert(crate::wire::read_list(data, pos0, lim, sfx0).unwrap().0[6] == crate::wire::read_list(data, pos1, lim, sfx1).unwrap().0[5]);
                            assert(crate::wire::read_list(data, pos1, lim, sfx1).unwrap().0[5] == crate::wire::read_list(data, pos2, lim, sfx2).unwrap().0[4]);
                            assert(crate::wire::read_list(data, pos2, lim, sfx2).unwrap().0[4] == crate::wire::read_list(data, pos3, lim, sfx3).unwrap().0[3]);
                            assert(crate::wire::read_list(data, pos3, lim, sfx3).unwrap().0[3] == crate::wire::read_list(data, pos4, lim, sfx4).unwrap().0[2]);
                            assert(crate::wire::read_list(data, pos4, lim, sfx4).unwrap().0[2] == crate::wire::read_list(data, pos5, lim, sfx5).unwrap().0[1]);
                            assert(crate::wire::read_list(data, pos5, lim, sfx5).unwrap().0[1] == crate::wire::read_list(data, pos6, lim, sfx6).unwrap().0[0]);
                            assert(crate::wire::read_list(data, pos6, lim, sfx6).unwrap().0[0] == read_of(data, pos6, lim, ts[6]).unwrap().0);
                        }
                    }
                }
                return Err(e);
            },
        };
        let ghost gv6 = read_of(data, pos6, lim, ts[6]).unwrap().0;
        let ghost pos7 = sub@.pos;
        let ghost sfx8 = ts.subrange(8, ts.len() as int);
        proof {
            if ts.len() > 7 {
                assert(sfx7[0] == ts[7]);
                assert(sfx7.subrange(1, sfx7.len() as int) =~= sfx8);
                crate::wire::lemma_read_list_step(data, pos7, lim, sfx7);
                if read_of(data, pos7, lim, ts[7]) is Some {
                    let (v, p) = read_of(data, pos7, lim, ts[7]).unwrap();
                    if H::accepts(v) {
                        H::accepts_compat(v);
                    }
                }
            }
        }
        let x7 = match sub.consume::<H>() {
            Ok(x) => x,
            Err(e) => {
                proof {
                    if whole is Some {
                        crate::wire::lemma_typ_list_len(whole.unwrap().0);
                        crate::wire::lemma_read_skip_list(data, p0, lim, ts);
                        if ts.len() > 7 {
                            assert(crate::wire::read_list(data, pos0, lim, sfx0) is Some);
                            assert(crate::wire::read_list(data, pos1, lim, sfx1) is Some);
                            assert(crate::wire::read_list(data, pos2, lim, sfx2) is Some);
                            assert(crate::wire::read_list(data, pos3, lim, sfx3) is Some);
                            assert(crate::wire::read_list(data, pos4, lim, sfx4) is Some);
                            assert(crate::wire::read_list(data, pos5, lim, sfx5) is Some);
                            assert(crate::wire::read_list(data, pos6, lim, sfx6) is Some);
                            assert(crate::wire::read_list(data, pos7, lim, sfx7) is Some);
                            assert(crate::wire::read_list(data, pos0, lim, sfx0).unwrap().0 == seq![read_of(data, pos0, lim, ts[0]).unwrap().0] + crate::wire::read_list(data, pos1, lim, sfx1).unwrap().0);
                            assert(crate::wire::read_list(data, pos1, lim, sfx1).unwrap().0 == seq![read_of(data, pos1, lim, ts[1]).unwrap().0] + crate::wire::read_list(data, pos2, lim, sfx2).unwrap().0);
                            assert(crate::wire::read_list(data, pos2, lim, sfx2).unwrap().0 == seq![read_of(data, pos2, lim, ts[2]).unwrap().0] + crate::wire::read_list(data, pos3, lim, sfx3).unwrap().0);
                            assert(crate::wire::read_list(data, pos3, lim, sfx3).unwrap().0 == seq![read_of(data, pos3, lim, ts[3]).unwrap().0] + crate::wire::read_list(data, pos4, lim, sfx4).unwrap().0);
                            assert(crate::wire::read_list(data, pos4, lim, sfx4).unwrap().0 == seq![read_of(data, pos4, lim, ts[4]).unwrap().0] + crate::wire::read_list(data, pos5, lim, sfx5).unwrap().0);
                            assert(crate::wire::read_list(data, pos5, lim, sfx5).unwrap().0 == seq![read_of(data, pos5, lim, ts[5]).unwrap().0] + crate::wire::read_list(data, pos6, lim, sfx6).unwrap().0);
                            assert(crate::wire::read_list(data, pos6, lim, sfx6).unwrap().0 == seq![read_of(data, pos6, lim, ts[6]).unwrap().0] + crate::wire::read_list(data, pos7, lim, sfx7).unwrap().0);
                            assert(crate::wire::read_list(data, pos7, lim, sfx7).unwrap().0 == seq![read_of(data, pos7, lim, ts[7]).unwrap().0] + crate::wire::read_list(data, read_of(data, pos7, lim, ts[7]).unwrap().1, lim, sfx8).unwrap().0);
                            assert(crate::wire::read_list(data, pos0, lim, sfx0).unwrap().0[7] == crate::wire::read_list(data, pos1, lim, sfx1).unwrap().0[6]);
                            assert(crate::wire::read_list(data, pos1, lim, sfx1).unwrap().0[6] == crate::wire::read_list(data, pos2, lim, sfx2).unwrap().0[5]);
                            assert(crate::wire::read_list(data, pos2, lim, sfx2).unwrap().0[5] == crate::wire::read_list(data, pos3, lim, sfx3).unwrap().0[4]);
                            assert(crate::wire::read_list(data, pos3, lim, sfx3).unwrap().0[4] == crate::wire::read_list(data, pos4, lim, sfx4).unwrap().0[3]);
                            assert(crate::wire::read_list(data, pos4, lim, sfx4).unwrap().0[3] == crate::wire::read_list(data, pos5, lim, sfx5).unwrap().0[2]);
                            assert(crate::wire::read_list(data, pos5, lim, sfx5).unwrap().0[2] == crate::wire::read_list(data, pos6, lim, sfx6).unwrap().0[1]);
                            assert(crate::wire::read_list(data, pos6, lim, sfx6).unwrap().0[1] == crate::wire::read_list(data, pos7, lim, sfx7).unwrap().0[0]);
                            assert(crate::wire::read_list(data, pos7, lim, sfx7).unwrap().0[0] == read_of(data, pos7, lim, ts[7]).unwrap().0);
                        }
                    }
                }
                return Err(e);
            },
        };
        let ghost gv7 = read_of(data, pos7, lim, ts[7]).unwrap().0;
        let ghost pos8 = sub@.pos;
        let ghost sfx9 = ts.subrange(9, ts.len() as int);
        proof {
            if ts.len() > 8 {
                assert(sfx8[0] == ts[8]);
                assert(sfx8.subrange(1, sfx8.len() as int) =~= sfx9);
                crate::wire::lemma_read_list_step(data, pos8, lim, sfx8);
                if read_of(data, pos8, lim, ts[8]) is Some {
                    let (v, p) = read_of(data, pos8, lim, ts[8]).unwrap();
                    if I::accepts(v) {
                        I::accepts_compat(v);
                    }
                }
            }
        }
        let x8 = match sub.consume::<I>() {
            Ok(x) => x,
            Err(e) => {
                proof {
                    if whole is Some {
                        crate::wire::lemma_typ_list_len(whole.unwrap().0);
                        crate::wire::lemma_read_skip_list(data, p0, lim, ts);
                        if ts.len() > 8 {
                            assert(crate::wire::read_list(data, pos0, lim, sfx0) is Some);
                            assert(crate::wire::read_list(data, pos1, lim, sfx1) is Some);
                            assert(crate::wire::read_list(data, pos2, lim, sfx2) is Some);
                            assert(crate::wire::read_list(data, pos3, lim, sfx3) is Some);
                            assert(crate::wire::read_list(data, pos4, lim, sfx4) is Some);
                            assert(crate::wire::read_list(data, pos5, lim, sfx5) is Some);
                            assert(crate::wire::read_list(data, pos6, lim, sfx6) is Some);
                            assert(crate::wire::read_list(data, pos7, lim, sfx7) is Some);
                            assert(crate::wire::read_list(data, pos8, lim, sfx8) is Some);
                            assert(crate::wire::read_list(data, pos0, lim, sfx0).unwrap().0 == seq![read_of(data, pos0, lim, ts[0]).unwrap().0] + crate::wire::read_list(data, pos1, lim, sfx1).unwrap().0);
                            assert(crate::wire::read_list(data, pos1, lim, sfx1).unwrap().0 == seq![read_of(data, pos1, lim, ts[1]).unwrap().0] + crate::wire::read_list(data, pos2, lim, sfx2).unwrap().0);
                            assert(crate::wire::read_list(data, pos2, lim, sfx2).unwrap().0 == seq![read_of(data, pos2, lim, ts[2]).unwrap().0] + crate::wire::read_list(data, pos3, lim, sfx3).unwrap().0);
                            assert(crate::wire::read_list(data, pos3, lim, sfx3).unwrap().0 == seq![read_of(data, pos3, lim, ts[3]).unwrap().0] + crate::wire::read_list(data, pos4, lim, sfx4).unwrap().0);
                            assert(crate::wire::read_list(data, pos4, lim, sfx4).unwrap().0 == seq![read_of(data, pos4, lim, ts[4]).unwrap().0] + crate::wire::read_list(data, pos5, lim, sfx5).unwrap().0);
                            assert(crate::wire::read_list(data, pos5, lim, sfx5).unwrap().0 == seq![read_of(data, pos5, lim, ts[5]).unwrap().0] + crate::wire::read_list(data, pos6, lim, sfx6).unwrap().0);
                            assert(crate::wire::read_list(data, pos6, lim, sfx6).unwrap().0 == seq![read_of(data, pos6, lim, ts[6]).unwrap().0] + crate::wire::read_list(data, pos7, lim, sfx7).unwrap().0);
                            assert(crate::wire::read_list(data, pos7, lim, sfx7).unwrap().0 == seq![read_of(data, pos7, lim, ts[7]).unwrap().0] + crate::wire::read_list(data, pos8, lim, sfx8).unwrap().0);
                            assert(crate::wire::read_list(data, pos8, lim, sfx8).unwrap().0 == seq![read_of(data, pos8, lim, ts[8]).unwrap().0] + crate::wire::read_list(data, read_of(data, pos8, lim, ts[8]).unwrap().1, lim, sfx9).unwrap().0);
                            assert(crate::wire::read_list(data, pos0, lim, sfx0).unwrap().0[8] == crate::wire::read_list(data, pos1, lim, sfx1).unwrap().0[7]);
                            assert(crate::wire::read_list(data, pos1, lim, sfx1).unwrap().0[7] == crate::wire::read_list(data, pos2, lim, sfx2).unwrap().0[6]);
                            assert(crate::wire::read_list(data, pos2, lim, sfx2).unwrap().0[6] == crate::wire::read_list(data, pos3, lim, sfx3).unwrap().0[5]);
                            assert(crate::wire::read_list(data, pos3, lim, sfx3).unwrap().0[5] == crate::wire::read_list(data, pos4, lim, sfx4).unwrap().0[4]);
                            assert(crate::wire::read_list(data, pos4, lim, sfx4).unwrap().0[4] == crate::wire::read_list(data, pos5, lim, sfx5).unwrap().0[3]);
                            assert(crate::wire::read_list(data, pos5, lim, sfx5).unwrap().0[3] == crate::wire::read_list(data, pos6, lim, sfx6).unwrap().0[2]);
                            assert(crate::wire::read_list(data, pos6, lim, sfx6).unwrap().0[2] == crate::wire::read_list(data, pos7, lim, sfx7).unwrap().0[1]);
                            assert(crate::wire::read_list(data, pos7, lim, sfx7).unwrap().0[1] == crate::wire::read_list(data, pos8, lim, sfx8).unwrap().0[0]);
                            assert(crate::wire::read_list(data, pos8, lim, sfx8).unwrap().0[0] == read_of(data, pos8, lim, ts[8]).unwrap().0);
                        }
                    }
                }
                return Err(e);
            },
        };
        let ghost gv8 = read_of(data, pos8, lim, ts[8]).unwrap().0;
        let ghost pos9 = sub@.pos;
        proof {
            if whole is Some {
                crate::wire::lemma_typ_list_len(whole.unwrap().0);
                crate::wire::lemma_read_skip_list(data, p0, lim, ts);
            }
            if ts.len() == 9 {
                assert(sfx9.len() == 0);
                assert(crate::wire::read_list(data, pos9, lim, sfx9) == Some((
                    Seq::<AnyVal>::empty(),
                    pos9,
                )));
                assert(seq![gv8] + Seq::<AnyVal>::empty() =~= seq![gv8]);
                assert(crate::wire::read_list(data, pos8, lim, sfx8) == Some((seq![gv8], pos9)));
                assert(seq![gv7] + seq![gv8] =~= seq![gv7, gv8]);
                assert(crate::wire::read_list(data, pos7, lim, sfx7) == Some((seq![gv7, gv8], pos9)));
                assert(seq![gv6] + seq![gv7, gv8] =~= seq![gv6, gv7, gv8]);
                assert(crate::wire::read_list(data, pos6, lim, sfx6) == Some((seq![gv6, gv7, gv8], pos9)));
                assert(seq![gv5] + seq![gv6, gv7, gv8] =~= seq![gv5, gv6, gv7, gv8]);
                assert(crate::wire::read_list(data, pos5, lim, sfx5) == Some((seq![gv5, gv6, gv7, gv8], pos9)));
                assert(seq![gv4] + seq![gv5, gv6, gv7, gv8] =~= seq![gv4, gv5, gv6, gv7, gv8]);
                assert(crate::wire::read_list(data, pos4, lim, sfx4) == Some((seq![gv4, gv5, gv6, gv7, gv8], pos9)));
                assert(seq![gv3] + seq![gv4, gv5, gv6, gv7, gv8] =~= seq![gv3, gv4, gv5, gv6, gv7, gv8]);
                assert(crate::wire::read_list(data, pos3, lim, sfx3) == Some((seq![gv3, gv4, gv5, gv6, gv7, gv8], pos9)));
                assert(seq![gv2] + seq![gv3, gv4, gv5, gv6, gv7, gv8] =~= seq![gv2, gv3, gv4, gv5, gv6, gv7, gv8]);
                assert(crate::wire::read_list(data, pos2, lim, sfx2) == Some((seq![gv2, gv3, gv4, gv5, gv6, gv7, gv8], pos9)));
                assert(seq![gv1] + seq![gv2, gv3, gv4, gv5, gv6, gv7, gv8] =~= seq![gv1, gv2, gv3, gv4, gv5, gv6, gv7, gv8]);
                assert(crate::wire::read_list(data, pos1, lim, sfx1) == Some((seq![gv1, gv2, gv3, gv4, gv5, gv6, gv7, gv8], pos9)));
                assert(seq![gv0] + seq![gv1, gv2, gv3, gv4, gv5, gv6, gv7, gv8] =~= seq![gv0, gv1, gv2, gv3, gv4, gv5, gv6, gv7, gv8]);
                assert(crate::wire::read_list(data, pos0, lim, sfx0) == Some((seq![gv0, gv1, gv2, gv3, gv4, gv5, gv6, gv7, gv8], pos9)));
            }
        }
        match sub.terminated() {
            Ok(()) => Ok((x0, x1, x2, x3, x4, x5, x6, x7, x8)),
            Err(e) => Err(e),
        }
    }
}

} // verus!
