//! Reading the second dialect: one grammar per kind of record, the line
//! parser with its tolerance, and what writing and reading back preserves.
use vstd::prelude::*;
use crate::error::{FieldName, LineFailure, ParseError, ParseFieldError, ParserTolerance};
use crate::gfa2::{
    empty_gfa2, gfa2_insert, Edge, EdgeModel, Fragment, FragmentModel, Gap, GapModel, Gfa2Model,
    GroupModel, GroupO, GroupU, Header, Header2Model, Line, Line2Model, Segment, Segment2Model,
    GFA2,
};
use crate::grammar::{
    check_alignment, check_int_field, check_name_list, check_pos, check_ref_list, check_sequence,
    check_variance, is_alignment, is_int_field, is_name_list, is_pos, is_ref_list, is_sequence,
    is_variance,
};
use crate::parser_gfa1::{
    field_checked, field_id, is_version, lemma_cigar_graphic, lemma_fields_split, lemma_id_no_tab,
    lemma_join_first,
    lemma_list_graphic, lemma_sequence_graphic, lemma_tail_tags, next_field, spec_skippable,
};
use crate::gfa2::{
    edge_tokens, fragment_tokens, gap_tokens, group_tokens, header2_tokens, line2_text,
    line2_tokens, segment2_tokens,
};
use crate::segment_id::{view_result, SegmentId};
use crate::tag::{parse_tags, OptField, OptFieldVal, OptFields};
use crate::text::{
    all_graphic, check_number, contains_byte, is_digit, is_graphic, is_name, is_number, join_spec,
    lemma_graphic_no_tab, lemma_join_avoids, lemma_join_split, lemma_split_nonempty, single, split_bytes,
    split_spec, to_bytes, trim_line, trim_of, view_all,
};
use crate::tag::{lemma_tags_round_trip, tag_text, tag_texts, valid_tags};
use crate::grammar::{is_cigar, is_star};
use crate::segment_id::is_ref;

verus! {

pub open spec fn field_ref<N: SegmentId>(f: Seq<Seq<u8>>, i: int) -> Result<N::V, ParseFieldError> {
    if f.len() <= i {
        Err(ParseFieldError::MissingFields)
    } else {
        N::spec_parse_ref(f[i])
    }
}

pub open spec fn field_opt<N: SegmentId>(f: Seq<Seq<u8>>, i: int) -> Result<N::V, ParseFieldError> {
    if f.len() <= i {
        Err(ParseFieldError::MissingFields)
    } else {
        N::spec_parse_opt_id(f[i])
    }
}

fn next_id<N: SegmentId>(fields: &Vec<Vec<u8>>, i: usize) -> (r: Result<N, ParseFieldError>)
    ensures
        view_result(r) == field_id::<N>(view_all(fields@), i as int),
        r is Ok ==> i < fields@.len(),
{
    match next_field(fields, i) {
        Ok(t) => N::parse_id(t.as_slice()),
        Err(e) => Err(e),
    }
}

fn next_ref<N: SegmentId>(fields: &Vec<Vec<u8>>, i: usize) -> (r: Result<N, ParseFieldError>)
    ensures
        view_result(r) == field_ref::<N>(view_all(fields@), i as int),
        r is Ok ==> i < fields@.len(),
{
    match next_field(fields, i) {
        Ok(t) => N::parse_ref(t.as_slice()),
        Err(e) => Err(e),
    }
}

fn next_opt<N: SegmentId>(fields: &Vec<Vec<u8>>, i: usize) -> (r: Result<N, ParseFieldError>)
    ensures
        view_result(r) == field_opt::<N>(view_all(fields@), i as int),
        r is Ok ==> i < fields@.len(),
{
    match next_field(fields, i) {
        Ok(t) => N::parse_opt_id(t.as_slice()),
        Err(e) => Err(e),
    }
}

/// Field `i`, which must be a position, copied.
fn next_pos(fields: &Vec<Vec<u8>>, i: usize) -> (r: Result<Vec<u8>, ParseFieldError>)
    ensures
        match r {
            Ok(v) => field_checked(
                view_all(fields@),
                i as int,
                i < fields@.len() && is_pos(fields@[i as int]@),
                FieldName::Position,
            ) == Ok::<Seq<u8>, ParseFieldError>(v@),
            Err(e) => field_checked(
                view_all(fields@),
                i as int,
                i < fields@.len() && is_pos(fields@[i as int]@),
                FieldName::Position,
            ) == Err::<Seq<u8>, ParseFieldError>(e),
        },
        r is Ok ==> i < fields@.len(),
{
    let t = next_field(fields, i)?;
    if check_pos(t.as_slice()) {
        Ok(to_bytes(t.as_slice()))
    } else {
        Err(ParseFieldError::InvalidField(FieldName::Position))
    }
}

// ---- records

pub open spec fn spec_header2<T: OptFields>(f: Seq<Seq<u8>>) -> Header2Model {
    if f.len() > 0 && is_version(f[0]) {
        Header2Model { version: Some(f[0]), tags: T::spec_keep(parse_tags(f.skip(1))) }
    } else {
        Header2Model { version: None, tags: T::spec_keep(parse_tags(f)) }
    }
}

pub open spec fn spec_segment2<N: SegmentId, T: OptFields>(f: Seq<Seq<u8>>) -> Result<
    Segment2Model<N::V>,
    ParseFieldError,
> {
    let id = field_id::<N>(f, 0);
    let len = field_checked(f, 1, f.len() > 1 && is_number(f[1]), FieldName::Length);
    let sequence = field_checked(f, 2, f.len() > 2 && is_sequence(f[2]), FieldName::Sequence);
    if id is Err {
        Err(id->Err_0)
    } else if len is Err {
        Err(len->Err_0)
    } else if sequence is Err {
        Err(sequence->Err_0)
    } else {
        Ok(
            Segment2Model {
                id: id->Ok_0,
                len: len->Ok_0,
                sequence: sequence->Ok_0,
                tags: T::spec_keep(parse_tags(f.skip(3))),
            },
        )
    }
}

pub open spec fn pos_at(f: Seq<Seq<u8>>, i: int) -> Result<Seq<u8>, ParseFieldError> {
    field_checked(f, i, f.len() > i && is_pos(f[i]), FieldName::Position)
}

pub open spec fn alignment_at(f: Seq<Seq<u8>>, i: int) -> Result<Seq<u8>, ParseFieldError> {
    field_checked(f, i, f.len() > i && is_alignment(f[i]), FieldName::Alignment)
}

pub open spec fn spec_fragment<N: SegmentId, T: OptFields>(f: Seq<Seq<u8>>) -> Result<
    FragmentModel<N::V>,
    ParseFieldError,
> {
    let id = field_id::<N>(f, 0);
    let ext = field_ref::<N>(f, 1);
    let sbeg = pos_at(f, 2);
    let send = pos_at(f, 3);
    let fbeg = pos_at(f, 4);
    let fend = pos_at(f, 5);
    let al = alignment_at(f, 6);
    if id is Err {
        Err(id->Err_0)
    } else if ext is Err {
        Err(ext->Err_0)
    } else if sbeg is Err {
        Err(sbeg->Err_0)
    } else if send is Err {
        Err(send->Err_0)
    } else if fbeg is Err {
        Err(fbeg->Err_0)
    } else if fend is Err {
        Err(fend->Err_0)
    } else if al is Err {
        Err(al->Err_0)
    } else {
        Ok(
            FragmentModel {
                id: id->Ok_0,
                ext_ref: ext->Ok_0,
                sbeg: sbeg->Ok_0,
                send: send->Ok_0,
                fbeg: fbeg->Ok_0,
                fend: fend->Ok_0,
                alignment: al->Ok_0,
                tags: T::spec_keep(parse_tags(f.skip(7))),
            },
        )
    }
}

pub open spec fn spec_edge<N: SegmentId, T: OptFields>(f: Seq<Seq<u8>>) -> Result<
    EdgeModel<N::V>,
    ParseFieldError,
> {
    let id = field_opt::<N>(f, 0);
    let s1 = field_ref::<N>(f, 1);
    let s2 = field_ref::<N>(f, 2);
    let b1 = pos_at(f, 3);
    let e1 = pos_at(f, 4);
    let b2 = pos_at(f, 5);
    let e2 = pos_at(f, 6);
    let al = alignment_at(f, 7);
    if id is Err {
        Err(id->Err_0)
    } else if s1 is Err {
        Err(s1->Err_0)
    } else if s2 is Err {
        Err(s2->Err_0)
    } else if b1 is Err {
        Err(b1->Err_0)
    } else if e1 is Err {
        Err(e1->Err_0)
    } else if b2 is Err {
        Err(b2->Err_0)
    } else if e2 is Err {
        Err(e2->Err_0)
    } else if al is Err {
        Err(al->Err_0)
    } else {
        Ok(
            EdgeModel {
                id: id->Ok_0,
                sid1: s1->Ok_0,
                sid2: s2->Ok_0,
                beg1: b1->Ok_0,
                end1: e1->Ok_0,
                beg2: b2->Ok_0,
                end2: e2->Ok_0,
                alignment: al->Ok_0,
                tags: T::spec_keep(parse_tags(f.skip(8))),
            },
        )
    }
}

pub open spec fn spec_gap<N: SegmentId, T: OptFields>(f: Seq<Seq<u8>>) -> Result<
    GapModel<N::V>,
    ParseFieldError,
> {
    let id = field_opt::<N>(f, 0);
    let s1 = field_ref::<N>(f, 1);
    let s2 = field_ref::<N>(f, 2);
    let dist = field_checked(f, 3, f.len() > 3 && is_int_field(f[3]), FieldName::Distance);
    let var = field_checked(f, 4, f.len() > 4 && is_variance(f[4]), FieldName::Variance);
    if id is Err {
        Err(id->Err_0)
    } else if s1 is Err {
        Err(s1->Err_0)
    } else if s2 is Err {
        Err(s2->Err_0)
    } else if dist is Err {
        Err(dist->Err_0)
    } else if var is Err {
        Err(var->Err_0)
    } else {
        Ok(
            GapModel {
                id: id->Ok_0,
                sid1: s1->Ok_0,
                sid2: s2->Ok_0,
                dist: dist->Ok_0,
                var: var->Ok_0,
                tags: T::spec_keep(parse_tags(f.skip(5))),
            },
        )
    }
}

/// A group: an identifier that may be `*`, then its members separated by
/// spaces, oriented references for an ordered group, names otherwise.
pub open spec fn spec_group<T: OptFields>(f: Seq<Seq<u8>>, ordered: bool) -> Result<
    GroupModel,
    ParseFieldError,
> {
    let id = field_opt::<Vec<u8>>(f, 0);
    let members = field_checked(
        f,
        1,
        f.len() > 1 && (if ordered {
            is_ref_list(f[1], 32)
        } else {
            is_name_list(f[1], 32)
        }),
        FieldName::References,
    );
    if id is Err {
        Err(id->Err_0)
    } else if members is Err {
        Err(members->Err_0)
    } else {
        Ok(
            GroupModel {
                id: id->Ok_0,
                var_field: members->Ok_0,
                tags: T::spec_keep(parse_tags(f.skip(2))),
            },
        )
    }
}

fn parse_header2<T: OptFields>(fields: &Vec<Vec<u8>>, start: usize) -> (r: Header<T>)
    requires
        start <= fields@.len(),
    ensures
        r@ == spec_header2::<T>(view_all(fields@).skip(start as int)),
{
    let ghost f = view_all(fields@).skip(start as int);
    if start < fields.len() {
        match OptField::parse(fields[start].as_slice()) {
            Some(x) => {
                proof {
                    assert(f[0] == fields@[start as int]@);
                }
                match x.value {
                    OptFieldVal::Z(_) => {
                        let version = to_bytes(fields[start].as_slice());
                        let tag = T::parse(fields, start + 1);
                        proof {
                            assert(view_all(fields@).skip(start + 1) =~= f.skip(1));
                        }
                        return Header { version: Some(version), tag };
                    },
                    _ => {},
                }
            },
            None => {},
        }
    }
    Header { version: None, tag: T::parse(fields, start) }
}

fn parse_segment2<N: SegmentId, T: OptFields>(fields: &Vec<Vec<u8>>, start: usize) -> (r: Result<
    Segment<N, T>,
    ParseFieldError,
>)
    requires
        start <= fields@.len(),
    ensures
        view_result(r) == spec_segment2::<N, T>(view_all(fields@).skip(start as int)),
{
    let ghost f = view_all(fields@).skip(start as int);
    let ghost all = view_all(fields@);
    let n = fields.len();
    proof {
        assert(field_id::<N>(f, 0) == field_id::<N>(all, start as int));
    }
    let id = match next_id::<N>(fields, start) {
        Ok(x) => x,
        Err(e) => {
            return Err(e);
        },
    };
    let l = next_field(fields, start + 1)?;
    if !check_number(l.as_slice()) {
        return Err(ParseFieldError::InvalidField(FieldName::Length));
    }
    let s = next_field(fields, start + 2)?;
    if !check_sequence(s.as_slice()) {
        return Err(ParseFieldError::InvalidField(FieldName::Sequence));
    }
    let len = to_bytes(l.as_slice());
    let sequence = to_bytes(s.as_slice());
    let tag = T::parse(fields, start + 3);
    proof {
        assert(all.skip(start + 3) =~= f.skip(3));
    }
    Ok(Segment { id, len, sequence, tag })
}

fn next_alignment(fields: &Vec<Vec<u8>>, i: usize) -> (r: Result<Vec<u8>, ParseFieldError>)
    ensures
        match r {
            Ok(v) => alignment_at(view_all(fields@), i as int) == Ok::<Seq<u8>, ParseFieldError>(
                v@,
            ),
            Err(e) => alignment_at(view_all(fields@), i as int) == Err::<Seq<u8>, ParseFieldError>(
                e,
            ),
        },
        r is Ok ==> i < fields@.len(),
{
    let t = next_field(fields, i)?;
    if check_alignment(t.as_slice()) {
        Ok(to_bytes(t.as_slice()))
    } else {
        Err(ParseFieldError::InvalidField(FieldName::Alignment))
    }
}

fn parse_fragment<N: SegmentId, T: OptFields>(fields: &Vec<Vec<u8>>, start: usize) -> (r: Result<
    Fragment<N, T>,
    ParseFieldError,
>)
    requires
        start <= fields@.len(),
    ensures
        view_result(r) == spec_fragment::<N, T>(view_all(fields@).skip(start as int)),
{
    let ghost f = view_all(fields@).skip(start as int);
    let ghost all = view_all(fields@);
    let n = fields.len();
    proof {
        assert(field_id::<N>(f, 0) == field_id::<N>(all, start as int));
        assert(field_ref::<N>(f, 1) == field_ref::<N>(all, start + 1));
        assert(pos_at(f, 2) == pos_at(all, start + 2));
        assert(pos_at(f, 3) == pos_at(all, start + 3));
        assert(pos_at(f, 4) == pos_at(all, start + 4));
        assert(pos_at(f, 5) == pos_at(all, start + 5));
        assert(alignment_at(f, 6) == alignment_at(all, start + 6));
    }
    let id = match next_id::<N>(fields, start) {
        Ok(x) => x,
        Err(e) => {
            return Err(e);
        },
    };
    let ext_ref = match next_ref::<N>(fields, start + 1) {
        Ok(x) => x,
        Err(e) => {
            return Err(e);
        },
    };
    let sbeg = next_pos(fields, start + 2)?;
    let send = next_pos(fields, start + 3)?;
    let fbeg = next_pos(fields, start + 4)?;
    let fend = next_pos(fields, start + 5)?;
    let alignment = next_alignment(fields, start + 6)?;
    let tag = T::parse(fields, start + 7);
    proof {
        assert(all.skip(start + 7) =~= f.skip(7));
    }
    Ok(Fragment { id, ext_ref, sbeg, send, fbeg, fend, alignment, tag })
}

fn parse_edge<N: SegmentId, T: OptFields>(fields: &Vec<Vec<u8>>, start: usize) -> (r: Result<
    Edge<N, T>,
    ParseFieldError,
>)
    requires
        start <= fields@.len(),
    ensures
        view_result(r) == spec_edge::<N, T>(view_all(fields@).skip(start as int)),
{
    let ghost f = view_all(fields@).skip(start as int);
    let ghost all = view_all(fields@);
    let n = fields.len();
    proof {
        assert(field_opt::<N>(f, 0) == field_opt::<N>(all, start as int));
        assert(field_ref::<N>(f, 1) == field_ref::<N>(all, start + 1));
        assert(field_ref::<N>(f, 2) == field_ref::<N>(all, start + 2));
        assert(pos_at(f, 3) == pos_at(all, start + 3));
        assert(pos_at(f, 4) == pos_at(all, start + 4));
        assert(pos_at(f, 5) == pos_at(all, start + 5));
        assert(pos_at(f, 6) == pos_at(all, start + 6));
        assert(alignment_at(f, 7) == alignment_at(all, start + 7));
    }
    let id = match next_opt::<N>(fields, start) {
        Ok(x) => x,
        Err(e) => {
            return Err(e);
        },
    };
    let sid1 = match next_ref::<N>(fields, start + 1) {
        Ok(x) => x,
        Err(e) => {
            return Err(e);
        },
    };
    let sid2 = match next_ref::<N>(fields, start + 2) {
        Ok(x) => x,
        Err(e) => {
            return Err(e);
        },
    };
    let beg1 = next_pos(fields, start + 3)?;
    let end1 = next_pos(fields, start + 4)?;
    let beg2 = next_pos(fields, start + 5)?;
    let end2 = next_pos(fields, start + 6)?;
    let alignment = next_alignment(fields, start + 7)?;
    let tag = T::parse(fields, start + 8);
    proof {
        assert(all.skip(start + 8) =~= f.skip(8));
    }
    Ok(Edge { id, sid1, sid2, beg1, end1, beg2, end2, alignment, tag })
}

fn parse_gap<N: SegmentId, T: OptFields>(fields: &Vec<Vec<u8>>, start: usize) -> (r: Result<
    Gap<N, T>,
    ParseFieldError,
>)
    requires
        start <= fields@.len(),
    ensures
        view_result(r) == spec_gap::<N, T>(view_all(fields@).skip(start as int)),
{
    let ghost f = view_all(fields@).skip(start as int);
    let ghost all = view_all(fields@);
    let n = fields.len();
    proof {
        assert(field_opt::<N>(f, 0) == field_opt::<N>(all, start as int));
        assert(field_ref::<N>(f, 1) == field_ref::<N>(all, start + 1));
        assert(field_ref::<N>(f, 2) == field_ref::<N>(all, start + 2));
    }
    let id = match next_opt::<N>(fields, start) {
        Ok(x) => x,
        Err(e) => {
            return Err(e);
        },
    };
    let sid1 = match next_ref::<N>(fields, start + 1) {
        Ok(x) => x,
        Err(e) => {
            return Err(e);
        },
    };
    let sid2 = match next_ref::<N>(fields, start + 2) {
        Ok(x) => x,
        Err(e) => {
            return Err(e);
        },
    };
    let d = next_field(fields, start + 3)?;
    if !check_int_field(d.as_slice()) {
        return Err(ParseFieldError::InvalidField(FieldName::Distance));
    }
    let v = next_field(fields, start + 4)?;
    if !check_variance(v.as_slice()) {
        return Err(ParseFieldError::InvalidField(FieldName::Variance));
    }
    let dist = to_bytes(d.as_slice());
    let var = to_bytes(v.as_slice());
    let tag = T::parse(fields, start + 5);
    proof {
        assert(all.skip(start + 5) =~= f.skip(5));
    }
    Ok(Gap { id, sid1, sid2, dist, var, tag })
}

fn parse_group<T: OptFields>(fields: &Vec<Vec<u8>>, start: usize, ordered: bool) -> (r: Result<
    (Vec<u8>, Vec<u8>, T),
    ParseFieldError,
>)
    requires
        start <= fields@.len(),
    ensures
        match r {
            Ok((id, members, tag)) => spec_group::<T>(
                view_all(fields@).skip(start as int),
                ordered,
            ) == Ok::<GroupModel, ParseFieldError>(
                GroupModel { id: id@, var_field: members@, tags: tag.spec_tags() },
            ),
            Err(e) => spec_group::<T>(view_all(fields@).skip(start as int), ordered) == Err::<
                GroupModel,
                ParseFieldError,
            >(e),
        },
{
    let ghost f = view_all(fields@).skip(start as int);
    let ghost all = view_all(fields@);
    let n = fields.len();
    proof {
        assert(field_opt::<Vec<u8>>(f, 0) == field_opt::<Vec<u8>>(all, start as int));
    }
    let id = match next_opt::<Vec<u8>>(fields, start) {
        Ok(x) => x,
        Err(e) => {
            return Err(e);
        },
    };
    let m = next_field(fields, start + 1)?;
    let ok = if ordered {
        check_ref_list(m.as_slice(), 32)
    } else {
        check_name_list(m.as_slice(), 32)
    };
    if !ok {
        return Err(ParseFieldError::InvalidField(FieldName::References));
    }
    let members = to_bytes(m.as_slice());
    let tag = T::parse(fields, start + 2);
    proof {
        assert(all.skip(start + 2) =~= f.skip(2));
    }
    Ok((id, members, tag))
}

// ---- the line parser

/// A parser for the second dialect, with identifiers `N` and optional
/// fields `T`; it reads every kind of record.
pub struct GFA2Parser<N, T> {
    pub tolerance: ParserTolerance,
    pub _optional_fields: std::marker::PhantomData<T>,
    pub _segment_names: std::marker::PhantomData<N>,
}

impl<N: SegmentId, T: OptFields> Default for GFA2Parser<N, T> {
    fn default() -> (r: GFA2Parser<N, T>)
        ensures
            r.tolerance == ParserTolerance::Safe,
    {
        GFA2Parser::new()
    }
}

pub open spec fn lift2<M, I>(r: Result<M, ParseFieldError>, wrap: spec_fn(M) -> Line2Model<I>) -> Result<
    Line2Model<I>,
    LineFailure,
> {
    match r {
        Ok(m) => Ok(wrap(m)),
        Err(e) => Err(LineFailure::Field(e)),
    }
}

/// What a trimmed line of the second dialect reads as.
pub open spec fn spec_line2<N: SegmentId, T: OptFields>(line: Seq<u8>) -> Result<
    Line2Model<N::V>,
    LineFailure,
> {
    if line.len() == 0 {
        Err(LineFailure::Empty)
    } else {
        let toks = split_spec(line, 9);
        let k = toks[0];
        let f = toks.drop_first();
        if k == seq![72u8] {
            Ok(Line2Model::Header(spec_header2::<T>(f)))
        } else if k == seq![83u8] {
            lift2(spec_segment2::<N, T>(f), |m: Segment2Model<N::V>| Line2Model::Segment(m))
        } else if k == seq![70u8] {
            lift2(spec_fragment::<N, T>(f), |m: FragmentModel<N::V>| Line2Model::Fragment(m))
        } else if k == seq![69u8] {
            lift2(spec_edge::<N, T>(f), |m: EdgeModel<N::V>| Line2Model::Edge(m))
        } else if k == seq![71u8] {
            lift2(spec_gap::<N, T>(f), |m: GapModel<N::V>| Line2Model::Gap(m))
        } else if k == seq![79u8] {
            lift2(spec_group::<T>(f, true), |m: GroupModel| Line2Model::<N::V>::GroupO(m))
        } else if k == seq![85u8] {
            lift2(spec_group::<T>(f, false), |m: GroupModel| Line2Model::<N::V>::GroupU(m))
        } else {
            Err(LineFailure::Unknown)
        }
    }
}

/// The collection that a run of lines gives, or the first failure that the
/// tolerance does not pass over, with its raw line.
pub open spec fn spec_parse_lines2<N: SegmentId, T: OptFields>(
    tol: ParserTolerance,
    lines: Seq<Seq<u8>>,
) -> Result<Gfa2Model<N::V>, (LineFailure, Seq<u8>)>
    decreases lines.len(),
{
    if lines.len() == 0 {
        Ok(empty_gfa2())
    } else {
        match spec_parse_lines2::<N, T>(tol, lines.drop_last()) {
            Err(e) => Err(e),
            Ok(g) => match spec_line2::<N, T>(trim_of(lines.last())) {
                Ok(m) => Ok(gfa2_insert(g, m)),
                Err(f) => if spec_skippable(f, tol) {
                    Ok(g)
                } else {
                    Err((f, lines.last()))
                },
            },
        }
    }
}

impl<N: SegmentId, T: OptFields> GFA2Parser<N, T> {
    /// A parser with the `Safe` tolerance.
    pub fn new() -> (r: GFA2Parser<N, T>)
        ensures
            r.tolerance == ParserTolerance::Safe,
    {
        GFA2Parser {
            tolerance: ParserTolerance::Safe,
            _optional_fields: std::marker::PhantomData,
            _segment_names: std::marker::PhantomData,
        }
    }

    pub fn with_tolerance(tolerance: ParserTolerance) -> (r: GFA2Parser<N, T>)
        ensures
            r.tolerance == tolerance,
    {
        GFA2Parser {
            tolerance,
            _optional_fields: std::marker::PhantomData,
            _segment_names: std::marker::PhantomData,
        }
    }

    /// Reads a line whose surrounding whitespace is already removed; `raw`
    /// is the line as it came, kept in the error.
    #[verifier::rlimit(30)]
    pub fn parse_fields(&self, line: &[u8], raw: &[u8]) -> (r: Result<Line<N, T>, ParseError>)
        ensures
            match r {
                Ok(l) => spec_line2::<N, T>(line@) == Ok::<Line2Model<N::V>, LineFailure>(l@),
                Err(e) => spec_line2::<N, T>(line@) is Err && e.spec_fails_as(
                    spec_line2::<N, T>(line@)->Err_0,
                    raw@,
                ),
            },
    {
        if line.len() == 0 {
            return Err(ParseError::EmptyLine);
        }
        let toks = split_bytes(line, 9);
        proof {
            lemma_split_nonempty(line@, 9);
            assert(view_all(toks@).skip(1) =~= split_spec(line@, 9).drop_first());
            assert(toks@[0]@ == split_spec(line@, 9)[0]);
        }
        let k = &toks[0];
        if single(k, 72) {
            Ok(Line::Header(parse_header2(&toks, 1)))
        } else if single(k, 83) {
            match parse_segment2(&toks, 1) {
                Ok(x) => Ok(Line::Segment(x)),
                Err(e) => Err(ParseError::invalid_line(e, raw)),
            }
        } else if single(k, 70) {
            match parse_fragment(&toks, 1) {
                Ok(x) => Ok(Line::Fragment(x)),
                Err(e) => Err(ParseError::invalid_line(e, raw)),
            }
        } else if single(k, 69) {
            match parse_edge(&toks, 1) {
                Ok(x) => Ok(Line::Edge(x)),
                Err(e) => Err(ParseError::invalid_line(e, raw)),
            }
        } else if single(k, 71) {
            match parse_gap(&toks, 1) {
                Ok(x) => Ok(Line::Gap(x)),
                Err(e) => Err(ParseError::invalid_line(e, raw)),
            }
        } else if single(k, 79) {
            match parse_group::<T>(&toks, 1, true) {
                Ok((id, var_field, tag)) => Ok(Line::GroupO(GroupO::new(id, var_field, tag))),
                Err(e) => Err(ParseError::invalid_line(e, raw)),
            }
        } else if single(k, 85) {
            match parse_group::<T>(&toks, 1, false) {
                Ok((id, var_field, tag)) => Ok(Line::GroupU(GroupU::new(id, var_field, tag))),
                Err(e) => Err(ParseError::invalid_line(e, raw)),
            }
        } else {
            Err(ParseError::UnknownLineType)
        }
    }

    /// Reads one line: its surrounding whitespace is removed first.
    pub fn parse_gfa_line(&self, bytes: &[u8]) -> (r: Result<Line<N, T>, ParseError>)
        ensures
            match r {
                Ok(l) => spec_line2::<N, T>(trim_of(bytes@)) == Ok::<
                    Line2Model<N::V>,
                    LineFailure,
                >(l@),
                Err(e) => spec_line2::<N, T>(trim_of(bytes@)) is Err && e.spec_fails_as(
                    spec_line2::<N, T>(trim_of(bytes@))->Err_0,
                    bytes@,
                ),
            },
            bytes@.len() > 0 && is_graphic(bytes@[0]) && is_graphic(bytes@.last()) ==> trim_of(
                bytes@,
            ) == bytes@,
    {
        let line = trim_line(bytes);
        self.parse_fields(line.as_slice(), bytes)
    }

    /// Reads one more line into `gfa`, as `GFAParser::parse_into` does.
    pub fn parse_into(&self, gfa: &mut GFA2<N, T>, bytes: &[u8]) -> (r: Result<(), ParseError>)
        ensures
            match spec_line2::<N, T>(trim_of(bytes@)) {
                Ok(m) => r is Ok && final(gfa)@ == gfa2_insert(old(gfa)@, m),
                Err(f) => if spec_skippable(f, self.tolerance) {
                    r is Ok && final(gfa)@ == old(gfa)@
                } else {
                    r matches Err(e) && e.spec_fails_as(f, bytes@) && final(gfa)@ == old(gfa)@
                },
            },
    {
        match self.parse_gfa_line(bytes) {
            Ok(l) => {
                gfa.insert_line(l);
                Ok(())
            },
            Err(e) => {
                if e.can_safely_continue(&self.tolerance) {
                    Ok(())
                } else {
                    Err(e)
                }
            },
        }
    }

    /// Reads all the lines into a collection, stopping at the first failure
    /// that the tolerance does not pass over.
    pub fn parse_lines(&self, lines: &Vec<Vec<u8>>) -> (r: Result<GFA2<N, T>, ParseError>)
        ensures
            match r {
                Ok(g) => spec_parse_lines2::<N, T>(self.tolerance, view_all(lines@)) == Ok::<
                    Gfa2Model<N::V>,
                    (LineFailure, Seq<u8>),
                >(g@),
                Err(e) => spec_parse_lines2::<N, T>(self.tolerance, view_all(lines@)) is Err
                    && e.spec_fails_as(
                    spec_parse_lines2::<N, T>(self.tolerance, view_all(lines@))->Err_0.0,
                    spec_parse_lines2::<N, T>(self.tolerance, view_all(lines@))->Err_0.1,
                ),
            },
    {
        let mut gfa: GFA2<N, T> = GFA2::new();
        let ghost ls = view_all(lines@);
        let mut i: usize = 0;
        proof {
            assert(ls.take(0) =~= Seq::<Seq<u8>>::empty());
        }
        while i < lines.len()
            invariant
                0 <= i <= lines@.len(),
                ls == view_all(lines@),
                spec_parse_lines2::<N, T>(self.tolerance, ls.take(i as int)) == Ok::<
                    Gfa2Model<N::V>,
                    (LineFailure, Seq<u8>),
                >(gfa@),
            decreases lines.len() - i,
        {
            proof {
                assert(ls.take(i + 1).drop_last() =~= ls.take(i as int));
                assert(ls.take(i + 1).last() == lines@[i as int]@);
            }
            match self.parse_into(&mut gfa, lines[i].as_slice()) {
                Ok(()) => {},
                Err(e) => {
                    proof {
                        lemma_failure_sticks2::<N, T>(self.tolerance, ls, i + 1);
                    }
                    return Err(e);
                },
            }
            i += 1;
        }
        proof {
            assert(ls.take(i as int) =~= ls);
        }
        Ok(gfa)
    }
}

/// Once a prefix of the lines fails, the whole run fails the same way.
pub proof fn lemma_failure_sticks2<N: SegmentId, T: OptFields>(
    tol: ParserTolerance,
    lines: Seq<Seq<u8>>,
    j: int,
)
    requires
        0 <= j <= lines.len(),
        spec_parse_lines2::<N, T>(tol, lines.take(j)) is Err,
    ensures
        spec_parse_lines2::<N, T>(tol, lines) == spec_parse_lines2::<N, T>(tol, lines.take(j)),
    decreases lines.len() - j,
{
    if j < lines.len() {
        assert(lines.take(j + 1).drop_last() =~= lines.take(j));
        lemma_failure_sticks2::<N, T>(tol, lines, j + 1);
    } else {
        assert(lines.take(j) =~= lines);
    }
}

/// Lines that all read as records give a collection, whatever the tolerance.
pub proof fn lemma_all_records2<N: SegmentId, T: OptFields>(
    tol: ParserTolerance,
    lines: Seq<Seq<u8>>,
)
    requires
        forall|i: int|
            0 <= i < lines.len() ==> spec_line2::<N, T>(trim_of(#[trigger] lines[i])) is Ok,
    ensures
        spec_parse_lines2::<N, T>(tol, lines) is Ok,
    decreases lines.len(),
{
    if lines.len() > 0 {
        let d = lines.drop_last();
        assert forall|i: int| 0 <= i < d.len() implies spec_line2::<N, T>(
            trim_of(#[trigger] d[i]),
        ) is Ok by {
            assert(d[i] == lines[i]);
        }
        lemma_all_records2::<N, T>(tol, d);
        assert(spec_line2::<N, T>(trim_of(lines[lines.len() - 1])) is Ok);
    }
}

/// With exactly one failing line, a tolerance that passes over its failure
/// gives the collection of the other lines; any other tolerance fails.
pub proof fn lemma_one_failure2<N: SegmentId, T: OptFields>(
    tol: ParserTolerance,
    lines: Seq<Seq<u8>>,
    k: int,
)
    requires
        0 <= k < lines.len(),
        forall|i: int|
            0 <= i < lines.len() && i != k ==> spec_line2::<N, T>(trim_of(#[trigger] lines[i])) is Ok,
        spec_line2::<N, T>(trim_of(lines[k])) is Err,
    ensures
        spec_skippable(spec_line2::<N, T>(trim_of(lines[k]))->Err_0, tol) ==> spec_parse_lines2::<
            N,
            T,
        >(tol, lines) is Ok && spec_parse_lines2::<N, T>(tol, lines) == spec_parse_lines2::<N, T>(
            tol,
            lines.remove(k),
        ),
        !spec_skippable(spec_line2::<N, T>(trim_of(lines[k]))->Err_0, tol) ==> spec_parse_lines2::<
            N,
            T,
        >(tol, lines) is Err,
    decreases lines.len(),
{
    let d = lines.drop_last();
    let n = lines.len() - 1;
    if k == n {
        assert forall|i: int| 0 <= i < d.len() implies spec_line2::<N, T>(
            trim_of(#[trigger] d[i]),
        ) is Ok by {
            assert(d[i] == lines[i]);
        }
        lemma_all_records2::<N, T>(tol, d);
        assert(lines.remove(k) =~= d);
    } else {
        assert forall|i: int| 0 <= i < d.len() && i != k implies spec_line2::<N, T>(
            trim_of(#[trigger] d[i]),
        ) is Ok by {
            assert(d[i] == lines[i]);
        }
        assert(d[k] == lines[k]);
        lemma_one_failure2::<N, T>(tol, d, k);
        assert(spec_line2::<N, T>(trim_of(lines[n])) is Ok);
        let r = lines.remove(k);
        assert(r.drop_last() =~= d.remove(k));
        assert(r.last() == lines.last());
    }
}

/// Tolerance for the second dialect, as `lemma_tolerance` states it for the
/// first: with one failing line that is no identifier overflow, `Pedantic`
/// fails, `IgnoreAll` keeps exactly the other lines, and `Safe` succeeds
/// exactly when the failure is an empty line or an unknown kind.
pub proof fn lemma_tolerance2<N: SegmentId, T: OptFields>(lines: Seq<Seq<u8>>, k: int)
    requires
        0 <= k < lines.len(),
        forall|i: int|
            0 <= i < lines.len() && i != k ==> spec_line2::<N, T>(trim_of(#[trigger] lines[i])) is Ok,
        spec_line2::<N, T>(trim_of(lines[k])) is Err,
        spec_line2::<N, T>(trim_of(lines[k]))->Err_0 != LineFailure::Field(
            ParseFieldError::EncodingOverflow,
        ),
    ensures
        spec_parse_lines2::<N, T>(ParserTolerance::Pedantic, lines) is Err,
        spec_parse_lines2::<N, T>(ParserTolerance::IgnoreAll, lines) is Ok,
        spec_parse_lines2::<N, T>(ParserTolerance::IgnoreAll, lines) == spec_parse_lines2::<N, T>(
            ParserTolerance::IgnoreAll,
            lines.remove(k),
        ),
        spec_parse_lines2::<N, T>(ParserTolerance::Safe, lines) is Ok <==> (spec_line2::<N, T>(
            trim_of(lines[k]),
        )->Err_0 == LineFailure::Empty || spec_line2::<N, T>(trim_of(lines[k]))->Err_0
            == LineFailure::Unknown),
{
    lemma_one_failure2::<N, T>(ParserTolerance::Pedantic, lines, k);
    lemma_one_failure2::<N, T>(ParserTolerance::IgnoreAll, lines, k);
    lemma_one_failure2::<N, T>(ParserTolerance::Safe, lines, k);
}

// ---- writing and reading back

pub proof fn lemma_number_graphic(s: Seq<u8>)
    requires
        is_number(s),
    ensures
        all_graphic(s),
{
    assert forall|i: int| 0 <= i < s.len() implies is_graphic(#[trigger] s[i]) by {
        assert(is_digit(s[i]));
    }
}

pub proof fn lemma_int_field_graphic(s: Seq<u8>)
    requires
        is_int_field(s),
    ensures
        all_graphic(s),
{
    if s.len() > 0 && s[0] == 45 {
        let d = s.drop_first();
        assert forall|i: int| 0 <= i < s.len() implies is_graphic(#[trigger] s[i]) by {
            if i > 0 {
                assert(s[i] == d[i - 1]);
                assert(is_digit(d[i - 1]));
            }
        }
    } else {
        lemma_number_graphic(s);
    }
}

pub proof fn lemma_pos_graphic(s: Seq<u8>)
    requires
        is_pos(s),
    ensures
        all_graphic(s),
{
    if s.len() > 0 && s.last() == 36 {
        let d = s.drop_last();
        lemma_int_field_graphic(d);
        assert forall|i: int| 0 <= i < s.len() implies is_graphic(#[trigger] s[i]) by {
            if i < s.len() - 1 {
                assert(s[i] == d[i]);
            }
        }
    } else {
        lemma_int_field_graphic(s);
    }
}

pub proof fn lemma_alignment_graphic(s: Seq<u8>)
    requires
        is_alignment(s),
    ensures
        all_graphic(s),
{
    if is_cigar(s, true) {
        lemma_cigar_graphic(s, true);
    } else if !is_star(s) {
        assert forall|i: int| 0 <= i < split_spec(s, 44).len() implies all_graphic(
            #[trigger] split_spec(s, 44)[i],
        ) by {
            lemma_int_field_graphic(split_spec(s, 44)[i]);
        }
        lemma_list_graphic(s, 44);
    }
}

/// A space-separated group list holds no tab.
pub proof fn lemma_group_no_tab(s: Seq<u8>, ordered: bool)
    requires
        if ordered {
            is_ref_list(s, 32)
        } else {
            is_name_list(s, 32)
        },
    ensures
        !contains_byte(s, 9),
{
    let items = split_spec(s, 32);
    assert forall|i: int| 0 <= i < items.len() implies !contains_byte(#[trigger] items[i], 9) by {
        if ordered {
            assert(is_ref(items[i]));
        } else {
            assert(is_name(items[i]));
        }
        lemma_graphic_no_tab(items[i]);
    }
    lemma_join_avoids(items, 32, 9);
    lemma_join_split(s, 32);
}

proof fn lemma_ref_no_tab<N: SegmentId>(v: N::V)
    requires
        N::spec_valid_ref(v),
    ensures
        !contains_byte(N::spec_render_ref(v), 9),
        N::spec_parse_ref(N::spec_render_ref(v)) == Ok::<N::V, ParseFieldError>(v),
{
    N::lemma_ref_round_trip(v);
    lemma_graphic_no_tab(N::spec_render_ref(v));
}

proof fn lemma_graphic_field(s: Seq<u8>)
    requires
        all_graphic(s),
    ensures
        !contains_byte(s, 9),
{
    lemma_graphic_no_tab(s);
}

/// The records of the second dialect whose fields all follow their grammar.
pub open spec fn valid_line2<N: SegmentId, T: OptFields>(l: Line<N, T>) -> bool {
    match l {
        Line::Header(h) => valid_tags(h.tag.spec_tags()) && match h.version {
            Some(v) => is_version(v@) && !contains_byte(v@, 9),
            None => true,
        },
        Line::Segment(s) => N::spec_valid_id(s.id@) && is_number(s.len@) && is_sequence(
            s.sequence@,
        ) && valid_tags(s.tag.spec_tags()),
        Line::Fragment(x) => N::spec_valid_id(x.id@) && N::spec_valid_ref(x.ext_ref@) && is_pos(
            x.sbeg@,
        ) && is_pos(x.send@) && is_pos(x.fbeg@) && is_pos(x.fend@) && is_alignment(x.alignment@)
            && valid_tags(x.tag.spec_tags()),
        Line::Edge(x) => N::spec_valid_opt_id(x.id@) && N::spec_valid_ref(x.sid1@) && N::spec_valid_ref(
            x.sid2@,
        ) && is_pos(x.beg1@) && is_pos(x.end1@) && is_pos(x.beg2@) && is_pos(x.end2@)
            && is_alignment(x.alignment@) && valid_tags(x.tag.spec_tags()),
        Line::Gap(x) => N::spec_valid_opt_id(x.id@) && N::spec_valid_ref(x.sid1@) && N::spec_valid_ref(
            x.sid2@,
        ) && is_int_field(x.dist@) && is_variance(x.var@) && valid_tags(x.tag.spec_tags()),
        Line::GroupO(x) => is_name(x.id@) && is_ref_list(x.var_field@, 32) && valid_tags(
            x.tag.spec_tags(),
        ),
        Line::GroupU(x) => is_name(x.id@) && is_name_list(x.var_field@, 32) && valid_tags(
            x.tag.spec_tags(),
        ),
    }
}

#[verifier::rlimit(30)]
/// What a header reads back as: the same header, except that without a
/// version a first tag of type `Z` reads as the version.
pub open spec fn header2_read_back(h: Header2Model) -> Header2Model {
    if h.version is None && h.tags.len() > 0 && h.tags[0].value is Z {
        Header2Model { version: Some(tag_text(h.tags[0])), tags: h.tags.drop_first() }
    } else {
        h
    }
}

/// What a record reads back as; only a header can change, as
/// `header2_read_back` says.
pub open spec fn read_back2<I>(m: Line2Model<I>) -> Line2Model<I> {
    match m {
        Line2Model::Header(h) => Line2Model::Header(header2_read_back(h)),
        _ => m,
    }
}

proof fn lemma_header_round_trip2<N: SegmentId, T: OptFields>(h: Header<T>)
    requires
        valid_line2(Line::<N, T>::Header(h)),
    ensures
        spec_line2::<N, T>(line2_text::<N>(Line::<N, T>::Header(h)@)) == Ok::<
            Line2Model<N::V>,
            LineFailure,
        >(Line2Model::Header(header2_read_back(h@))),
        header2_tokens(header2_read_back(h@)) == header2_tokens(h@),
{
    let tags = h.tag.spec_tags();
    let toks = header2_tokens(h@);
    h.tag.lemma_keep_own();
    T::lemma_keep(tags);
    lemma_tags_round_trip(tags);
    lemma_graphic_no_tab(seq![72u8]);
    let head = seq![seq![72u8]] + (match h@.version {
        Some(v) => seq![v],
        None => Seq::<Seq<u8>>::empty(),
    });
    lemma_tail_tags(toks, head, tags);
    lemma_fields_split(toks);
    let f = toks.drop_first();
    match h.version {
        Some(v) => {
            assert(f[0] == v@);
            assert(f.skip(1) =~= tag_texts(tags));
        },
        None => {
            assert(f =~= tag_texts(tags));
            if f.len() > 0 {
                crate::tag::lemma_tag_round_trip(tags[0]);
                if tags[0].value is Z {
                    let rest = tags.drop_first();
                    assert(valid_tags(rest)) by {
                        assert forall|i: int| 0 <= i < rest.len() implies crate::tag::valid_tag(
                            #[trigger] rest[i],
                        ) by {
                            assert(rest[i] == tags[i + 1]);
                        }
                    }
                    lemma_tags_round_trip(rest);
                    T::lemma_keep(rest);
                    assert(f.skip(1) =~= tag_texts(rest));
                    assert(T::spec_captures());
                    assert(header2_tokens(header2_read_back(h@)) =~= header2_tokens(h@));
                }
            }
        },
    }
}

proof fn lemma_segment_round_trip2<N: SegmentId, T: OptFields>(s: Segment<N, T>)
    requires
        valid_line2(Line::<N, T>::Segment(s)),
    ensures
        spec_line2::<N, T>(line2_text::<N>(Line::<N, T>::Segment(s)@)) == Ok::<
            Line2Model<N::V>,
            LineFailure,
        >(Line::<N, T>::Segment(s)@),
{
        let tags = s.tag.spec_tags();
        let toks = segment2_tokens::<N>(s@);
        s.tag.lemma_keep_own();
        lemma_tags_round_trip(tags);
        lemma_id_no_tab::<N>(s.id@);
        lemma_number_graphic(s.len@);
        lemma_graphic_no_tab(s.len@);
        lemma_sequence_graphic(s.sequence@);
        lemma_graphic_no_tab(s.sequence@);
        lemma_graphic_no_tab(seq![83u8]);
        let head = seq![seq![83u8], N::spec_render(s@.id), s.len@, s.sequence@];
        lemma_tail_tags(toks, head, tags);
        lemma_fields_split(toks);
        assert(toks.drop_first().skip(3) =~= tag_texts(tags));
}

#[verifier::rlimit(30)]
proof fn lemma_fragment_round_trip2<N: SegmentId, T: OptFields>(x: Fragment<N, T>)
    requires
        valid_line2(Line::<N, T>::Fragment(x)),
    ensures
        spec_line2::<N, T>(line2_text::<N>(Line::<N, T>::Fragment(x)@)) == Ok::<
            Line2Model<N::V>,
            LineFailure,
        >(Line::<N, T>::Fragment(x)@),
{
        let tags = x.tag.spec_tags();
        let toks = fragment_tokens::<N>(x@);
        x.tag.lemma_keep_own();
        lemma_tags_round_trip(tags);
        lemma_id_no_tab::<N>(x.id@);
        lemma_ref_no_tab::<N>(x.ext_ref@);
        lemma_pos_graphic(x.sbeg@);
        lemma_pos_graphic(x.send@);
        lemma_pos_graphic(x.fbeg@);
        lemma_pos_graphic(x.fend@);
        lemma_alignment_graphic(x.alignment@);
        lemma_graphic_field(x.sbeg@);
        lemma_graphic_field(x.send@);
        lemma_graphic_field(x.fbeg@);
        lemma_graphic_field(x.fend@);
        lemma_graphic_field(x.alignment@);
        lemma_graphic_no_tab(seq![70u8]);
        let head = seq![
            seq![70u8],
            N::spec_render(x@.id),
            N::spec_render_ref(x@.ext_ref),
            x.sbeg@,
            x.send@,
            x.fbeg@,
            x.fend@,
            x.alignment@,
        ];
        lemma_tail_tags(toks, head, tags);
        lemma_fields_split(toks);
        assert(toks.drop_first().skip(7) =~= tag_texts(tags));
}

#[verifier::rlimit(30)]
proof fn lemma_edge_round_trip2<N: SegmentId, T: OptFields>(x: Edge<N, T>)
    requires
        valid_line2(Line::<N, T>::Edge(x)),
    ensures
        spec_line2::<N, T>(line2_text::<N>(Line::<N, T>::Edge(x)@)) == Ok::<
            Line2Model<N::V>,
            LineFailure,
        >(Line::<N, T>::Edge(x)@),
{
        let tags = x.tag.spec_tags();
        let toks = edge_tokens::<N>(x@);
        x.tag.lemma_keep_own();
        lemma_tags_round_trip(tags);
        N::lemma_opt_id_round_trip(x.id@);
        lemma_graphic_no_tab(N::spec_render(x.id@));
        lemma_ref_no_tab::<N>(x.sid1@);
        lemma_ref_no_tab::<N>(x.sid2@);
        lemma_pos_graphic(x.beg1@);
        lemma_pos_graphic(x.end1@);
        lemma_pos_graphic(x.beg2@);
        lemma_pos_graphic(x.end2@);
        lemma_alignment_graphic(x.alignment@);
        lemma_graphic_field(x.beg1@);
        lemma_graphic_field(x.end1@);
        lemma_graphic_field(x.beg2@);
        lemma_graphic_field(x.end2@);
        lemma_graphic_field(x.alignment@);
        lemma_graphic_no_tab(seq![69u8]);
        let head = seq![
            seq![69u8],
            N::spec_render(x@.id),
            N::spec_render_ref(x@.sid1),
            N::spec_render_ref(x@.sid2),
            x.beg1@,
            x.end1@,
            x.beg2@,
            x.end2@,
            x.alignment@,
        ];
        lemma_tail_tags(toks, head, tags);
        lemma_fields_split(toks);
        assert(toks.drop_first().skip(8) =~= tag_texts(tags));
}

proof fn lemma_gap_round_trip2<N: SegmentId, T: OptFields>(x: Gap<N, T>)
    requires
        valid_line2(Line::<N, T>::Gap(x)),
    ensures
        spec_line2::<N, T>(line2_text::<N>(Line::<N, T>::Gap(x)@)) == Ok::<
            Line2Model<N::V>,
            LineFailure,
        >(Line::<N, T>::Gap(x)@),
{
        let tags = x.tag.spec_tags();
        let toks = gap_tokens::<N>(x@);
        x.tag.lemma_keep_own();
        lemma_tags_round_trip(tags);
        N::lemma_opt_id_round_trip(x.id@);
        lemma_graphic_no_tab(N::spec_render(x.id@));
        lemma_ref_no_tab::<N>(x.sid1@);
        lemma_ref_no_tab::<N>(x.sid2@);
        lemma_int_field_graphic(x.dist@);
        lemma_graphic_field(x.dist@);
        if !is_star(x.var@) {
            lemma_int_field_graphic(x.var@);
        }
        lemma_graphic_field(x.var@);
        lemma_graphic_no_tab(seq![71u8]);
        let head = seq![
            seq![71u8],
            N::spec_render(x@.id),
            N::spec_render_ref(x@.sid1),
            N::spec_render_ref(x@.sid2),
            x.dist@,
            x.var@,
        ];
        lemma_tail_tags(toks, head, tags);
        lemma_fields_split(toks);
        assert(toks.drop_first().skip(5) =~= tag_texts(tags));
}

proof fn lemma_group_o_round_trip2<N: SegmentId, T: OptFields>(x: GroupO<N, T>)
    requires
        valid_line2(Line::<N, T>::GroupO(x)),
    ensures
        spec_line2::<N, T>(line2_text::<N>(Line::<N, T>::GroupO(x)@)) == Ok::<
            Line2Model<N::V>,
            LineFailure,
        >(Line::<N, T>::GroupO(x)@),
{
        let tags = x.tag.spec_tags();
        let toks = group_tokens(79, x@);
        x.tag.lemma_keep_own();
        lemma_tags_round_trip(tags);
        lemma_graphic_no_tab(x.id@);
        lemma_group_no_tab(x.var_field@, true);
        lemma_graphic_no_tab(seq![79u8]);
        let head = seq![seq![79u8], x.id@, x.var_field@];
        lemma_tail_tags(toks, head, tags);
        lemma_fields_split(toks);
        assert(toks.drop_first().skip(2) =~= tag_texts(tags));
}

proof fn lemma_group_u_round_trip2<N: SegmentId, T: OptFields>(x: GroupU<N, T>)
    requires
        valid_line2(Line::<N, T>::GroupU(x)),
    ensures
        spec_line2::<N, T>(line2_text::<N>(Line::<N, T>::GroupU(x)@)) == Ok::<
            Line2Model<N::V>,
            LineFailure,
        >(Line::<N, T>::GroupU(x)@),
{
        let tags = x.tag.spec_tags();
        let toks = group_tokens(85, x@);
        x.tag.lemma_keep_own();
        lemma_tags_round_trip(tags);
        lemma_graphic_no_tab(x.id@);
        lemma_group_no_tab(x.var_field@, false);
        lemma_graphic_no_tab(seq![85u8]);
        let head = seq![seq![85u8], x.id@, x.var_field@];
        lemma_tail_tags(toks, head, tags);
        lemma_fields_split(toks);
        assert(toks.drop_first().skip(2) =~= tag_texts(tags));
}

/// Round trip for the second dialect: a valid record of any kind, written as
/// its canonical line and read back, gives the same record, but for a header
/// without version whose first tag is a `Z` field, which reads back with that
/// tag as its version; either way, writing it again gives the same line.
#[verifier::rlimit(40)]
pub proof fn lemma_round_trip2<N: SegmentId, T: OptFields>(l: Line<N, T>)
    requires
        valid_line2(l),
    ensures
        spec_line2::<N, T>(line2_text::<N>(l@)) == Ok::<Line2Model<N::V>, LineFailure>(
            read_back2(l@),
        ),
        line2_text::<N>(spec_line2::<N, T>(line2_text::<N>(l@))->Ok_0) == line2_text::<N>(l@),
        read_back2(l@) != l@ ==> (l@ matches Line2Model::Header(h) && h.version is None
            && h.tags.len() > 0 && h.tags[0].value is Z),
        line2_text::<N>(l@).len() > 0 && is_graphic(line2_text::<N>(l@)[0]),
{
    match l {
        Line::Header(h) => lemma_header_round_trip2::<N, T>(h),
        Line::Segment(s) => lemma_segment_round_trip2::<N, T>(s),
        Line::Fragment(x) => lemma_fragment_round_trip2::<N, T>(x),
        Line::Edge(x) => lemma_edge_round_trip2::<N, T>(x),
        Line::Gap(x) => lemma_gap_round_trip2::<N, T>(x),
        Line::GroupO(x) => lemma_group_o_round_trip2::<N, T>(x),
        Line::GroupU(x) => lemma_group_u_round_trip2::<N, T>(x),
    }
    let toks = line2_tokens::<N>(l@);
    assert(toks.len() >= 1 && toks[0].len() == 1 && is_graphic(toks[0][0]));
    lemma_join_first(toks);
}

} // verus!
