//! Reading the first dialect: one grammar per kind of record, the line
//! parser with its tolerance, and what writing and reading back preserves.
use vstd::prelude::*;
use crate::error::{FieldName, LineFailure, ParseError, ParseFieldError, ParserTolerance};
use crate::gfa1::{
    containment_tokens, header_tokens, line_text, line_tokens, link_tokens, orient_text,
    path_tokens, segment_tokens,
    empty_gfa, gfa_insert, Containment, ContainmentModel, GfaModel, Header, HeaderModel, Line,
    LineModel, Link, LinkModel, Path, PathModel, Segment, SegmentModel, GFA,
};
use crate::grammar::{
    check_overlap, check_overlap_list, check_ref_list, check_sequence, is_cigar, is_op, is_overlap,
    is_overlap_list, is_ref_list, is_seq_char, is_sequence, is_star, parse_usize,
    spec_parse_usize,
};
use crate::orientation::Orientation;
use crate::segment_id::{is_ref, view_result, SegmentId};
use crate::tag::{
    lemma_tags_round_trip, parse_tags, spec_parse_tag, tag_text, tag_texts, valid_tags, OptField,
    OptFieldVal, OptFields,
};
use crate::text::{
    all_graphic, contains_byte, decimal, is_digit, is_graphic, is_name, join_spec,
    lemma_decimal_digits, lemma_graphic_no_tab, lemma_join_graphic, lemma_join_split,
    lemma_split_join, lemma_split_nonempty, single, split_bytes, split_spec, to_bytes, trim_line, trim_of,
    view_all,
};

verus! {

// ---- fields

/// `+` or `-`, alone.
pub open spec fn orient_field(t: Seq<u8>) -> Option<Orientation> {
    if t.len() == 1 {
        Orientation::spec_from_byte(t[0])
    } else {
        None
    }
}

/// The identifier in field `i`.
pub open spec fn field_id<N: SegmentId>(f: Seq<Seq<u8>>, i: int) -> Result<N::V, ParseFieldError> {
    if f.len() <= i {
        Err(ParseFieldError::MissingFields)
    } else {
        N::spec_parse_id(f[i])
    }
}

/// The orientation in field `i`.
pub open spec fn field_orient(f: Seq<Seq<u8>>, i: int) -> Result<Orientation, ParseFieldError> {
    if f.len() <= i {
        Err(ParseFieldError::MissingFields)
    } else {
        match orient_field(f[i]) {
            Some(o) => Ok(o),
            None => Err(ParseFieldError::InvalidField(FieldName::Orientation)),
        }
    }
}

/// Field `i`, which must pass `ok`, else the record fails on `name`.
pub open spec fn field_checked(f: Seq<Seq<u8>>, i: int, ok: bool, name: FieldName) -> Result<
    Seq<u8>,
    ParseFieldError,
> {
    if f.len() <= i {
        Err(ParseFieldError::MissingFields)
    } else if !ok {
        Err(ParseFieldError::InvalidField(name))
    } else {
        Ok(f[i])
    }
}

/// The field at index `i`; `MissingFields` past the end.
pub fn next_field(fields: &Vec<Vec<u8>>, i: usize) -> (r: Result<&Vec<u8>, ParseFieldError>)
    ensures
        i < fields@.len() ==> r == Ok::<&Vec<u8>, ParseFieldError>(&fields@[i as int]),
        i >= fields@.len() ==> r == Err::<&Vec<u8>, ParseFieldError>(
            ParseFieldError::MissingFields,
        ),
{
    if i < fields.len() {
        Ok(&fields[i])
    } else {
        Err(ParseFieldError::MissingFields)
    }
}

pub fn parse_orientation(fields: &Vec<Vec<u8>>, i: usize) -> (r: Result<
    Orientation,
    ParseFieldError,
>)
    ensures
        r == field_orient(view_all(fields@), i as int),
        r is Ok ==> i < fields@.len(),
{
    let t = next_field(fields, i)?;
    if t.len() == 1 {
        match Orientation::from_byte(t[0]) {
            Some(o) => Ok(o),
            None => Err(ParseFieldError::InvalidField(FieldName::Orientation)),
        }
    } else {
        Err(ParseFieldError::InvalidField(FieldName::Orientation))
    }
}

fn parse_next_id<N: SegmentId>(fields: &Vec<Vec<u8>>, i: usize) -> (r: Result<N, ParseFieldError>)
    ensures
        view_result(r) == field_id::<N>(view_all(fields@), i as int),
        r is Ok ==> i < fields@.len(),
{
    match next_field(fields, i) {
        Ok(t) => N::parse_id(t.as_slice()),
        Err(e) => Err(e),
    }
}

// ---- records

/// A first field that is a `Z` tag, `VN:Z:1.0` for instance, is the version.
pub open spec fn is_version(t: Seq<u8>) -> bool {
    match spec_parse_tag(t) {
        Some(x) => x.value is Z,
        None => false,
    }
}

pub open spec fn spec_header<T: OptFields>(f: Seq<Seq<u8>>) -> HeaderModel {
    if f.len() > 0 && is_version(f[0]) {
        HeaderModel { version: Some(f[0]), tags: T::spec_keep(parse_tags(f.skip(1))) }
    } else {
        HeaderModel { version: None, tags: T::spec_keep(parse_tags(f)) }
    }
}

pub open spec fn spec_segment<N: SegmentId, T: OptFields>(f: Seq<Seq<u8>>) -> Result<
    SegmentModel<N::V>,
    ParseFieldError,
> {
    let name = field_id::<N>(f, 0);
    let sequence = field_checked(f, 1, f.len() > 1 && is_sequence(f[1]), FieldName::Sequence);
    if name is Err {
        Err(name->Err_0)
    } else if sequence is Err {
        Err(sequence->Err_0)
    } else {
        Ok(
            SegmentModel {
                name: name->Ok_0,
                sequence: sequence->Ok_0,
                tags: T::spec_keep(parse_tags(f.skip(2))),
            },
        )
    }
}

pub open spec fn spec_link<N: SegmentId, T: OptFields>(f: Seq<Seq<u8>>) -> Result<
    LinkModel<N::V>,
    ParseFieldError,
> {
    let from = field_id::<N>(f, 0);
    let from_o = field_orient(f, 1);
    let to = field_id::<N>(f, 2);
    let to_o = field_orient(f, 3);
    let overlap = field_checked(f, 4, f.len() > 4 && is_overlap(f[4]), FieldName::Overlap);
    if from is Err {
        Err(from->Err_0)
    } else if from_o is Err {
        Err(from_o->Err_0)
    } else if to is Err {
        Err(to->Err_0)
    } else if to_o is Err {
        Err(to_o->Err_0)
    } else if overlap is Err {
        Err(overlap->Err_0)
    } else {
        Ok(
            LinkModel {
                from_segment: from->Ok_0,
                from_orient: from_o->Ok_0,
                to_segment: to->Ok_0,
                to_orient: to_o->Ok_0,
                overlap: overlap->Ok_0,
                tags: T::spec_keep(parse_tags(f.skip(5))),
            },
        )
    }
}

/// The position field: a decimal `usize`.
pub open spec fn field_pos(f: Seq<Seq<u8>>, i: int) -> Result<usize, ParseFieldError> {
    if f.len() <= i {
        Err(ParseFieldError::MissingFields)
    } else {
        match spec_parse_usize(f[i]) {
            Some(n) => Ok(n),
            None => Err(ParseFieldError::IntParseError),
        }
    }
}

pub open spec fn spec_containment<N: SegmentId, T: OptFields>(f: Seq<Seq<u8>>) -> Result<
    ContainmentModel<N::V>,
    ParseFieldError,
> {
    let a = field_id::<N>(f, 0);
    let ao = field_orient(f, 1);
    let b = field_id::<N>(f, 2);
    let bo = field_orient(f, 3);
    let pos = field_pos(f, 4);
    let overlap = field_checked(f, 5, f.len() > 5 && is_overlap(f[5]), FieldName::Overlap);
    if a is Err {
        Err(a->Err_0)
    } else if ao is Err {
        Err(ao->Err_0)
    } else if b is Err {
        Err(b->Err_0)
    } else if bo is Err {
        Err(bo->Err_0)
    } else if pos is Err {
        Err(pos->Err_0)
    } else if overlap is Err {
        Err(overlap->Err_0)
    } else {
        Ok(
            ContainmentModel {
                container_name: a->Ok_0,
                container_orient: ao->Ok_0,
                contained_name: b->Ok_0,
                contained_orient: bo->Ok_0,
                pos: pos->Ok_0,
                overlap: overlap->Ok_0,
                tags: T::spec_keep(parse_tags(f.skip(6))),
            },
        )
    }
}

pub open spec fn spec_path<T: OptFields>(f: Seq<Seq<u8>>) -> Result<PathModel, ParseFieldError> {
    let name = field_id::<Vec<u8>>(f, 0);
    let names = field_checked(
        f,
        1,
        f.len() > 1 && is_ref_list(f[1], 44),
        FieldName::SegmentNames,
    );
    let overlaps = field_checked(
        f,
        2,
        f.len() > 2 && is_overlap_list(f[2]),
        FieldName::Overlap,
    );
    if name is Err {
        Err(name->Err_0)
    } else if names is Err {
        Err(names->Err_0)
    } else if overlaps is Err {
        Err(overlaps->Err_0)
    } else {
        Ok(
            PathModel {
                path_name: name->Ok_0,
                segment_names: names->Ok_0,
                overlaps: overlaps->Ok_0,
                tags: T::spec_keep(parse_tags(f.skip(3))),
            },
        )
    }
}

impl<T: OptFields> Header<T> {
    /// Reads the fields of a header from index `start` on; it never fails.
    pub fn parse_line(fields: &Vec<Vec<u8>>, start: usize) -> (r: Result<
        Header<T>,
        ParseFieldError,
    >)
        requires
            start <= fields@.len(),
        ensures
            r is Ok,
            r matches Ok(h) && h@ == spec_header::<T>(view_all(fields@).skip(start as int)),
    {
        let ghost f = view_all(fields@).skip(start as int);
        if start < fields.len() {
            match OptField::parse(fields[start].as_slice()) {
                Some(x) => {
                    proof {
                        assert(f[0] == fields@[start as int]@);
                    }
                    match x.value {
                        OptFieldVal::Z(_) => {
                            let version = to_bytes(fields[start].as_slice());
                            let optional = T::parse(fields, start + 1);
                            proof {
                                assert(view_all(fields@).skip(start + 1) =~= f.skip(1));
                            }
                            return Ok(Header { version: Some(version), optional });
                        },
                        _ => {},
                    }
                },
                None => {},
            }
        }
        Ok(Header { version: None, optional: T::parse(fields, start) })
    }
}

impl<N: SegmentId, T: OptFields> Segment<N, T> {
    pub fn parse_line(fields: &Vec<Vec<u8>>, start: usize) -> (r: Result<
        Segment<N, T>,
        ParseFieldError,
    >)
        requires
            start <= fields@.len(),
        ensures
            view_result(r) == spec_segment::<N, T>(view_all(fields@).skip(start as int)),
    {
        let ghost f = view_all(fields@).skip(start as int);
        let ghost all = view_all(fields@);
        let n = fields.len();
        let name = parse_next_id::<N>(fields, start);
        proof {
            assert(field_id::<N>(f, 0) == field_id::<N>(all, start as int));
        }
        let name = match name {
            Ok(x) => x,
            Err(e) => {
                return Err(e);
            },
        };
        let seq = next_field(fields, start + 1)?;
        if !check_sequence(seq.as_slice()) {
            return Err(ParseFieldError::InvalidField(FieldName::Sequence));
        }
        let sequence = to_bytes(seq.as_slice());
        let optional = T::parse(fields, start + 2);
        proof {
            assert(all.skip(start + 2) =~= f.skip(2));
        }
        Ok(Segment { name, sequence, optional })
    }
}

impl<N: SegmentId, T: OptFields> Link<N, T> {
    pub fn parse_line(fields: &Vec<Vec<u8>>, start: usize) -> (r: Result<
        Link<N, T>,
        ParseFieldError,
    >)
        requires
            start <= fields@.len(),
        ensures
            view_result(r) == spec_link::<N, T>(view_all(fields@).skip(start as int)),
    {
        let ghost f = view_all(fields@).skip(start as int);
        let ghost all = view_all(fields@);
        let n = fields.len();
        proof {
            assert(field_id::<N>(f, 0) == field_id::<N>(all, start as int));
            assert(field_orient(f, 1) == field_orient(all, start + 1));
            assert(field_id::<N>(f, 2) == field_id::<N>(all, start + 2));
            assert(field_orient(f, 3) == field_orient(all, start + 3));
        }
        let from_segment = match parse_next_id::<N>(fields, start) {
            Ok(x) => x,
            Err(e) => {
                return Err(e);
            },
        };
        let from_orient = parse_orientation(fields, start + 1)?;
        let to_segment = match parse_next_id::<N>(fields, start + 2) {
            Ok(x) => x,
            Err(e) => {
                return Err(e);
            },
        };
        let to_orient = parse_orientation(fields, start + 3)?;
        let ov = next_field(fields, start + 4)?;
        if !check_overlap(ov.as_slice()) {
            return Err(ParseFieldError::InvalidField(FieldName::Overlap));
        }
        let overlap = to_bytes(ov.as_slice());
        let optional = T::parse(fields, start + 5);
        proof {
            assert(all.skip(start + 5) =~= f.skip(5));
        }
        Ok(Link { from_segment, from_orient, to_segment, to_orient, overlap, optional })
    }
}

impl<N: SegmentId, T: OptFields> Containment<N, T> {
    pub fn parse_line(fields: &Vec<Vec<u8>>, start: usize) -> (r: Result<
        Containment<N, T>,
        ParseFieldError,
    >)
        requires
            start <= fields@.len(),
        ensures
            view_result(r) == spec_containment::<N, T>(view_all(fields@).skip(start as int)),
    {
        let ghost f = view_all(fields@).skip(start as int);
        let ghost all = view_all(fields@);
        let n = fields.len();
        proof {
            assert(field_id::<N>(f, 0) == field_id::<N>(all, start as int));
            assert(field_orient(f, 1) == field_orient(all, start + 1));
            assert(field_id::<N>(f, 2) == field_id::<N>(all, start + 2));
            assert(field_orient(f, 3) == field_orient(all, start + 3));
        }
        let container_name = match parse_next_id::<N>(fields, start) {
            Ok(x) => x,
            Err(e) => {
                return Err(e);
            },
        };
        let container_orient = parse_orientation(fields, start + 1)?;
        let contained_name = match parse_next_id::<N>(fields, start + 2) {
            Ok(x) => x,
            Err(e) => {
                return Err(e);
            },
        };
        let contained_orient = parse_orientation(fields, start + 3)?;
        let p = next_field(fields, start + 4)?;
        let pos = match parse_usize(p.as_slice()) {
            Some(n) => n,
            None => {
                return Err(ParseFieldError::IntParseError);
            },
        };
        let ov = next_field(fields, start + 5)?;
        if !check_overlap(ov.as_slice()) {
            return Err(ParseFieldError::InvalidField(FieldName::Overlap));
        }
        let overlap = to_bytes(ov.as_slice());
        let optional = T::parse(fields, start + 6);
        proof {
            assert(all.skip(start + 6) =~= f.skip(6));
        }
        Ok(
            Containment {
                container_name,
                container_orient,
                contained_name,
                contained_orient,
                pos,
                overlap,
                optional,
            },
        )
    }
}

impl<N: SegmentId, T: OptFields> Path<N, T> {
    /// The path name is always kept as bytes, whatever `N` is.
    pub fn parse_line(fields: &Vec<Vec<u8>>, start: usize) -> (r: Result<
        Path<N, T>,
        ParseFieldError,
    >)
        requires
            start <= fields@.len(),
        ensures
            view_result(r) == spec_path::<T>(view_all(fields@).skip(start as int)),
    {
        let ghost f = view_all(fields@).skip(start as int);
        let ghost all = view_all(fields@);
        let n = fields.len();
        proof {
            assert(field_id::<Vec<u8>>(f, 0) == field_id::<Vec<u8>>(all, start as int));
        }
        let path_name = match parse_next_id::<Vec<u8>>(fields, start) {
            Ok(x) => x,
            Err(e) => {
                return Err(e);
            },
        };
        let names = next_field(fields, start + 1)?;
        if !check_ref_list(names.as_slice(), 44) {
            return Err(ParseFieldError::InvalidField(FieldName::SegmentNames));
        }
        let ov = next_field(fields, start + 2)?;
        if !check_overlap_list(ov.as_slice()) {
            return Err(ParseFieldError::InvalidField(FieldName::Overlap));
        }
        let segment_names = to_bytes(names.as_slice());
        let overlaps = to_bytes(ov.as_slice());
        let optional = T::parse(fields, start + 3);
        proof {
            assert(all.skip(start + 3) =~= f.skip(3));
        }
        Ok(Path::new(path_name, segment_names, overlaps, optional))
    }
}

// ---- the line parser

/// Builder for `GFAParser`: which record kinds to read, and the tolerance.
#[derive(Debug, Clone, Copy, PartialEq, Eq)]
pub struct GFAParserBuilder {
    pub headers: bool,
    pub segments: bool,
    pub links: bool,
    pub containments: bool,
    pub paths: bool,
    pub tolerance: ParserTolerance,
}

impl GFAParserBuilder {
    /// Reads no kind of record; switch kinds on one by one.
    pub fn none() -> (r: GFAParserBuilder)
        ensures
            !r.headers && !r.segments && !r.links && !r.containments && !r.paths,
            r.tolerance == ParserTolerance::Safe,
    {
        GFAParserBuilder {
            headers: false,
            segments: false,
            links: false,
            containments: false,
            paths: false,
            tolerance: ParserTolerance::Safe,
        }
    }

    /// Reads every kind of record.
    pub fn all() -> (r: GFAParserBuilder)
        ensures
            r.headers && r.segments && r.links && r.containments && r.paths,
            r.tolerance == ParserTolerance::Safe,
    {
        GFAParserBuilder {
            headers: true,
            segments: true,
            links: true,
            containments: true,
            paths: true,
            tolerance: ParserTolerance::Safe,
        }
    }

    pub fn segments(&mut self, enabled: bool) -> (r: &mut Self)
        ensures
            *r == (GFAParserBuilder { segments: enabled, ..*old(self) }),
            *final(self) == *final(r),
    {
        self.segments = enabled;
        self
    }

    pub fn links(&mut self, enabled: bool) -> (r: &mut Self)
        ensures
            *r == (GFAParserBuilder { links: enabled, ..*old(self) }),
            *final(self) == *final(r),
    {
        self.links = enabled;
        self
    }

    pub fn error_tolerance(&mut self, tol: ParserTolerance) -> (r: &mut Self)
        ensures
            *r == (GFAParserBuilder { tolerance: tol, ..*old(self) }),
            *final(self) == *final(r),
    {
        self.tolerance = tol;
        self
    }

    pub fn ignore_errors(&mut self) -> (r: &mut Self)
        ensures
            *r == (GFAParserBuilder { tolerance: ParserTolerance::IgnoreAll, ..*old(self) }),
            *final(self) == *final(r),
    {
        self.tolerance = ParserTolerance::IgnoreAll;
        self
    }

    pub fn ignore_safe_errors(&mut self) -> (r: &mut Self)
        ensures
            *r == (GFAParserBuilder { tolerance: ParserTolerance::Safe, ..*old(self) }),
            *final(self) == *final(r),
    {
        self.tolerance = ParserTolerance::Safe;
        self
    }

    pub fn pedantic_errors(&mut self) -> (r: &mut Self)
        ensures
            *r == (GFAParserBuilder { tolerance: ParserTolerance::Pedantic, ..*old(self) }),
            *final(self) == *final(r),
    {
        self.tolerance = ParserTolerance::Pedantic;
        self
    }

    pub fn build<N: SegmentId, T: OptFields>(self) -> (r: GFAParser<N, T>)
        ensures
            r.headers == self.headers,
            r.segments == self.segments,
            r.links == self.links,
            r.containments == self.containments,
            r.paths == self.paths,
            r.tolerance == self.tolerance,
    {
        GFAParser {
            headers: self.headers,
            segments: self.segments,
            links: self.links,
            containments: self.containments,
            paths: self.paths,
            tolerance: self.tolerance,
            _optional_fields: std::marker::PhantomData,
            _segment_names: std::marker::PhantomData,
        }
    }

    /// A parser with dense integer identifiers.
    pub fn build_usize_id<T: OptFields>(self) -> (r: GFAParser<usize, T>)
        ensures
            r.headers == self.headers,
            r.segments == self.segments,
            r.links == self.links,
            r.containments == self.containments,
            r.paths == self.paths,
            r.tolerance == self.tolerance,
    {
        self.build()
    }

    /// A parser that keeps identifiers as bytes.
    pub fn build_bstr_id<T: OptFields>(self) -> (r: GFAParser<Vec<u8>, T>)
        ensures
            r.headers == self.headers,
            r.segments == self.segments,
            r.links == self.links,
            r.containments == self.containments,
            r.paths == self.paths,
            r.tolerance == self.tolerance,
    {
        self.build()
    }
}

/// A parser for the first dialect, with identifiers `N` and optional
/// fields `T`.
pub struct GFAParser<N, T> {
    pub headers: bool,
    pub segments: bool,
    pub links: bool,
    pub containments: bool,
    pub paths: bool,
    pub tolerance: ParserTolerance,
    pub _optional_fields: std::marker::PhantomData<T>,
    pub _segment_names: std::marker::PhantomData<N>,
}

impl<N: SegmentId, T: OptFields> Default for GFAParser<N, T> {
    fn default() -> (r: GFAParser<N, T>)
        ensures
            r.headers && r.segments && r.links && r.containments && r.paths,
            r.tolerance == ParserTolerance::Safe,
    {
        GFAParserBuilder::all().build()
    }
}

pub open spec fn lift<M, I>(r: Result<M, ParseFieldError>, wrap: spec_fn(M) -> LineModel<I>) -> Result<
    LineModel<I>,
    LineFailure,
> {
    match r {
        Ok(m) => Ok(wrap(m)),
        Err(e) => Err(LineFailure::Field(e)),
    }
}

/// What a trimmed line reads as: its first field names the kind of record,
/// the other fields follow that kind's grammar. A kind that is switched off
/// reads as unknown.
pub open spec fn spec_line<N: SegmentId, T: OptFields>(p: GFAParser<N, T>, line: Seq<u8>) -> Result<
    LineModel<N::V>,
    LineFailure,
> {
    if line.len() == 0 {
        Err(LineFailure::Empty)
    } else {
        let toks = split_spec(line, 9);
        let k = toks[0];
        let f = toks.drop_first();
        if k == seq![72u8] && p.headers {
            Ok(LineModel::Header(spec_header::<T>(f)))
        } else if k == seq![83u8] && p.segments {
            lift(spec_segment::<N, T>(f), |m: SegmentModel<N::V>| LineModel::Segment(m))
        } else if k == seq![76u8] && p.links {
            lift(spec_link::<N, T>(f), |m: LinkModel<N::V>| LineModel::Link(m))
        } else if k == seq![67u8] && p.containments {
            lift(spec_containment::<N, T>(f), |m: ContainmentModel<N::V>| LineModel::Containment(m))
        } else if k == seq![80u8] && p.paths {
            lift(spec_path::<T>(f), |m: PathModel| LineModel::<N::V>::Path(m))
        } else {
            Err(LineFailure::Unknown)
        }
    }
}

/// Whether the tolerance `tol` passes over a line that failed with `f`.
/// An identifier too long for its encoding is never passed over.
pub open spec fn spec_skippable(f: LineFailure, tol: ParserTolerance) -> bool {
    match f {
        LineFailure::Field(ParseFieldError::EncodingOverflow) => false,
        LineFailure::Empty | LineFailure::Unknown => tol != ParserTolerance::Pedantic,
        LineFailure::Field(_) => tol == ParserTolerance::IgnoreAll,
    }
}

/// The collection that a run of lines gives, or the first failure that the
/// tolerance does not pass over, with its raw line.
pub open spec fn spec_parse_lines<N: SegmentId, T: OptFields>(
    p: GFAParser<N, T>,
    lines: Seq<Seq<u8>>,
) -> Result<GfaModel<N::V>, (LineFailure, Seq<u8>)>
    decreases lines.len(),
{
    if lines.len() == 0 {
        Ok(empty_gfa())
    } else {
        match spec_parse_lines(p, lines.drop_last()) {
            Err(e) => Err(e),
            Ok(g) => match spec_line(p, trim_of(lines.last())) {
                Ok(m) => Ok(gfa_insert(g, m)),
                Err(f) => if spec_skippable(f, p.tolerance) {
                    Ok(g)
                } else {
                    Err((f, lines.last()))
                },
            },
        }
    }
}

impl<N: SegmentId, T: OptFields> GFAParser<N, T> {
    /// A parser that reads every kind of record, with the `Safe` tolerance.
    pub fn new() -> (r: GFAParser<N, T>)
        ensures
            r.headers && r.segments && r.links && r.containments && r.paths,
            r.tolerance == ParserTolerance::Safe,
    {
        GFAParserBuilder::all().build()
    }

    /// Reads a line whose surrounding whitespace is already removed; `raw`
    /// is the line as it came, kept in the error.
    #[verifier::rlimit(30)]
    pub fn parse_fields(&self, line: &[u8], raw: &[u8]) -> (r: Result<Line<N, T>, ParseError>)
        ensures
            match r {
                Ok(l) => spec_line(*self, line@) == Ok::<LineModel<N::V>, LineFailure>(l@),
                Err(e) => spec_line(*self, line@) is Err && e.spec_fails_as(
                    spec_line(*self, line@)->Err_0,
                    raw@,
                ),
            },
    {
        if line.len() == 0 {
            return Err(ParseError::EmptyLine);
        }
        let toks = split_bytes(line, 9);
        proof {
            lemma_split_nonempty(line@, 9);
            assert(view_all(toks@).skip(1) =~= split_spec(line@, 9).drop_first());
            assert(toks@[0]@ == split_spec(line@, 9)[0]);
        }
        let k = &toks[0];
        if single(k, 72) && self.headers {
            match Header::parse_line(&toks, 1) {
                Ok(h) => Ok(Line::Header(h)),
                Err(e) => Err(ParseError::invalid_line(e, raw)),
            }
        } else if single(k, 83) && self.segments {
            match Segment::parse_line(&toks, 1) {
                Ok(x) => Ok(Line::Segment(x)),
                Err(e) => Err(ParseError::invalid_line(e, raw)),
            }
        } else if single(k, 76) && self.links {
            match Link::parse_line(&toks, 1) {
                Ok(x) => Ok(Line::Link(x)),
                Err(e) => Err(ParseError::invalid_line(e, raw)),
            }
        } else if single(k, 67) && self.containments {
            match Containment::parse_line(&toks, 1) {
                Ok(x) => Ok(Line::Containment(x)),
                Err(e) => Err(ParseError::invalid_line(e, raw)),
            }
        } else if single(k, 80) && self.paths {
            match Path::parse_line(&toks, 1) {
                Ok(x) => Ok(Line::Path(x)),
                Err(e) => Err(ParseError::invalid_line(e, raw)),
            }
        } else {
            Err(ParseError::UnknownLineType)
        }
    }

    /// Reads one line: its surrounding whitespace is removed first.
    pub fn parse_gfa_line(&self, bytes: &[u8]) -> (r: Result<Line<N, T>, ParseError>)
        ensures
            match r {
                Ok(l) => spec_line(*self, trim_of(bytes@)) == Ok::<LineModel<N::V>, LineFailure>(
                    l@,
                ),
                Err(e) => spec_line(*self, trim_of(bytes@)) is Err && e.spec_fails_as(
                    spec_line(*self, trim_of(bytes@))->Err_0,
                    bytes@,
                ),
            },
            bytes@.len() > 0 && is_graphic(bytes@[0]) && is_graphic(bytes@.last()) ==> trim_of(
                bytes@,
            ) == bytes@,
    {
        let line = trim_line(bytes);
        self.parse_fields(line.as_slice(), bytes)
    }

    /// Reads one more line into `gfa`: a record is added, a failure that the
    /// tolerance passes over leaves `gfa` as it was, any other failure is
    /// returned and `gfa` is left as it was.
    pub fn parse_into(&self, gfa: &mut GFA<N, T>, bytes: &[u8]) -> (r: Result<(), ParseError>)
        ensures
            match spec_line(*self, trim_of(bytes@)) {
                Ok(m) => r is Ok && final(gfa)@ == gfa_insert(old(gfa)@, m),
                Err(f) => if spec_skippable(f, self.tolerance) {
                    r is Ok && final(gfa)@ == old(gfa)@
                } else {
                    r matches Err(e) && e.spec_fails_as(f, bytes@) && final(gfa)@ == old(gfa)@
                },
            },
    {
        match self.parse_gfa_line(bytes) {
            Ok(l) => {
                gfa.insert_line(l);
                Ok(())
            },
            Err(e) => {
                if e.can_safely_continue(&self.tolerance) {
                    Ok(())
                } else {
                    Err(e)
                }
            },
        }
    }

    /// Reads all the lines into a collection, stopping at the first failure
    /// that the tolerance does not pass over.
    pub fn parse_lines(&self, lines: &Vec<Vec<u8>>) -> (r: Result<GFA<N, T>, ParseError>)
        ensures
            match r {
                Ok(g) => spec_parse_lines(*self, view_all(lines@)) == Ok::<
                    GfaModel<N::V>,
                    (LineFailure, Seq<u8>),
                >(g@),
                Err(e) => spec_parse_lines(*self, view_all(lines@)) is Err && e.spec_fails_as(
                    spec_parse_lines(*self, view_all(lines@))->Err_0.0,
                    spec_parse_lines(*self, view_all(lines@))->Err_0.1,
                ),
            },
    {
        let mut gfa: GFA<N, T> = GFA::new();
        let ghost ls = view_all(lines@);
        let mut i: usize = 0;
        proof {
            assert(ls.take(0) =~= Seq::<Seq<u8>>::empty());
        }
        while i < lines.len()
            invariant
                0 <= i <= lines@.len(),
                ls == view_all(lines@),
                spec_parse_lines(*self, ls.take(i as int)) == Ok::<
                    GfaModel<N::V>,
                    (LineFailure, Seq<u8>),
                >(gfa@),
            decreases lines.len() - i,
        {
            proof {
                assert(ls.take(i + 1).drop_last() =~= ls.take(i as int));
                assert(ls.take(i + 1).last() == lines@[i as int]@);
            }
            match self.parse_into(&mut gfa, lines[i].as_slice()) {
                Ok(()) => {},
                Err(e) => {
                    proof {
                        lemma_failure_sticks(*self, ls, i + 1);
                    }
                    return Err(e);
                },
            }
            i += 1;
        }
        proof {
            assert(ls.take(i as int) =~= ls);
        }
        Ok(gfa)
    }
}

/// Reads lines one at a time with a parser.
pub struct GFAParserLineIter<N, T> {
    pub parser: GFAParser<N, T>,
    pub lines: Vec<Vec<u8>>,
    pub pos: usize,
}

impl<N: SegmentId, T: OptFields> GFAParserLineIter<N, T> {
    pub fn from_parser(parser: GFAParser<N, T>, lines: Vec<Vec<u8>>) -> (r: GFAParserLineIter<N, T>)
        ensures
            r.parser == parser,
            r.lines == lines,
            r.pos == 0,
    {
        GFAParserLineIter { parser, lines, pos: 0 }
    }

    /// The next line read, or `None` after the last.
    pub fn next_line(&mut self) -> (r: Option<Result<Line<N, T>, ParseError>>)
        ensures
            final(self).parser == old(self).parser,
            final(self).lines == old(self).lines,
            old(self).pos >= old(self).lines@.len() ==> r is None && final(self).pos == old(self).pos,
            old(self).pos < old(self).lines@.len() ==> final(self).pos == old(self).pos + 1 && match r {
                Some(Ok(l)) => spec_line(
                    old(self).parser,
                    trim_of(old(self).lines@[old(self).pos as int]@),
                ) == Ok::<LineModel<N::V>, LineFailure>(l@),
                Some(Err(e)) => spec_line(
                    old(self).parser,
                    trim_of(old(self).lines@[old(self).pos as int]@),
                ) is Err && e.spec_fails_as(
                    spec_line(
                        old(self).parser,
                        trim_of(old(self).lines@[old(self).pos as int]@),
                    )->Err_0,
                    old(self).lines@[old(self).pos as int]@,
                ),
                None => false,
            },
    {
        if self.pos >= self.lines.len() {
            return None;
        }
        let r = self.parser.parse_gfa_line(self.lines[self.pos].as_slice());
        self.pos = self.pos + 1;
        Some(r)
    }
}

/// Once a prefix of the lines fails, the whole run fails the same way.
pub proof fn lemma_failure_sticks<N: SegmentId, T: OptFields>(
    p: GFAParser<N, T>,
    lines: Seq<Seq<u8>>,
    j: int,
)
    requires
        0 <= j <= lines.len(),
        spec_parse_lines(p, lines.take(j)) is Err,
    ensures
        spec_parse_lines(p, lines) == spec_parse_lines(p, lines.take(j)),
    decreases lines.len() - j,
{
    if j < lines.len() {
        assert(lines.take(j + 1).drop_last() =~= lines.take(j));
        lemma_failure_sticks(p, lines, j + 1);
    } else {
        assert(lines.take(j) =~= lines);
    }
}

/// Lines that all read as records give a collection, whatever the tolerance.
pub proof fn lemma_all_records<N: SegmentId, T: OptFields>(p: GFAParser<N, T>, lines: Seq<Seq<u8>>)
    requires
        forall|i: int| 0 <= i < lines.len() ==> spec_line(p, trim_of(#[trigger] lines[i])) is Ok,
    ensures
        spec_parse_lines(p, lines) is Ok,
    decreases lines.len(),
{
    if lines.len() > 0 {
        let d = lines.drop_last();
        assert forall|i: int| 0 <= i < d.len() implies spec_line(p, trim_of(#[trigger] d[i])) is Ok by {
            assert(d[i] == lines[i]);
        }
        lemma_all_records(p, d);
        assert(spec_line(p, trim_of(lines[lines.len() - 1])) is Ok);
    }
}

/// With exactly one failing line, a tolerance that passes over its failure
/// gives the collection of the other lines; any other tolerance fails.
pub proof fn lemma_one_failure<N: SegmentId, T: OptFields>(
    p: GFAParser<N, T>,
    lines: Seq<Seq<u8>>,
    k: int,
)
    requires
        0 <= k < lines.len(),
        forall|i: int|
            0 <= i < lines.len() && i != k ==> spec_line(p, trim_of(#[trigger] lines[i])) is Ok,
        spec_line(p, trim_of(lines[k])) is Err,
    ensures
        spec_skippable(spec_line(p, trim_of(lines[k]))->Err_0, p.tolerance) ==> spec_parse_lines(
            p,
            lines,
        ) is Ok && spec_parse_lines(p, lines) == spec_parse_lines(p, lines.remove(k)),
        !spec_skippable(spec_line(p, trim_of(lines[k]))->Err_0, p.tolerance) ==> spec_parse_lines(
            p,
            lines,
        ) is Err,
    decreases lines.len(),
{
    let d = lines.drop_last();
    let n = lines.len() - 1;
    if k == n {
        assert forall|i: int| 0 <= i < d.len() implies spec_line(p, trim_of(#[trigger] d[i])) is Ok by {
            assert(d[i] == lines[i]);
        }
        lemma_all_records(p, d);
        assert(lines.remove(k) =~= d);
    } else {
        assert forall|i: int| 0 <= i < d.len() && i != k implies spec_line(
            p,
            trim_of(#[trigger] d[i]),
        ) is Ok by {
            assert(d[i] == lines[i]);
        }
        assert(d[k] == lines[k]);
        lemma_one_failure(p, d, k);
        assert(spec_line(p, trim_of(lines[n])) is Ok);
        let r = lines.remove(k);
        assert(r.drop_last() =~= d.remove(k));
        assert(r.last() == lines.last());
    }
}

/// Tolerance, on a run with exactly one failing line whose failure is not an
/// identifier overflow: `Pedantic` fails; `IgnoreAll` succeeds with exactly
/// the records of the other lines; `Safe` succeeds exactly when the failure
/// is an empty line or an unknown kind of record.
pub proof fn lemma_tolerance<N: SegmentId, T: OptFields>(
    p: GFAParser<N, T>,
    lines: Seq<Seq<u8>>,
    k: int,
)
    requires
        0 <= k < lines.len(),
        forall|i: int|
            0 <= i < lines.len() && i != k ==> spec_line(p, trim_of(#[trigger] lines[i])) is Ok,
        spec_line(p, trim_of(lines[k])) is Err,
        spec_line(p, trim_of(lines[k]))->Err_0 != LineFailure::Field(
            ParseFieldError::EncodingOverflow,
        ),
    ensures
        spec_parse_lines(GFAParser { tolerance: ParserTolerance::Pedantic, ..p }, lines) is Err,
        spec_parse_lines(GFAParser { tolerance: ParserTolerance::IgnoreAll, ..p }, lines) is Ok,
        spec_parse_lines(GFAParser { tolerance: ParserTolerance::IgnoreAll, ..p }, lines)
            == spec_parse_lines(
            GFAParser { tolerance: ParserTolerance::IgnoreAll, ..p },
            lines.remove(k),
        ),
        spec_parse_lines(GFAParser { tolerance: ParserTolerance::Safe, ..p }, lines) is Ok <==> (
        spec_line(p, trim_of(lines[k]))->Err_0 == LineFailure::Empty || spec_line(
            p,
            trim_of(lines[k]),
        )->Err_0 == LineFailure::Unknown),
{
    let f = spec_line(p, trim_of(lines[k]))->Err_0;
    let pp = GFAParser { tolerance: ParserTolerance::Pedantic, ..p };
    let pi = GFAParser { tolerance: ParserTolerance::IgnoreAll, ..p };
    let ps = GFAParser { tolerance: ParserTolerance::Safe, ..p };
    assert forall|x: Seq<u8>| spec_line(pp, x) == spec_line(p, x) && spec_line(pi, x) == spec_line(
        p,
        x,
    ) && #[trigger] spec_line(ps, x) == spec_line(p, x) by {}
    lemma_one_failure(pp, lines, k);
    lemma_one_failure(pi, lines, k);
    lemma_one_failure(ps, lines, k);
}

// ---- writing and reading back

pub proof fn lemma_sequence_graphic(s: Seq<u8>)
    requires
        is_sequence(s),
    ensures
        all_graphic(s),
{
    if !is_star(s) {
        assert forall|i: int| 0 <= i < s.len() implies is_graphic(#[trigger] s[i]) by {
            assert(is_seq_char(s[i]));
        }
    }
}

pub proof fn lemma_cigar_graphic(s: Seq<u8>, v2: bool)
    requires
        is_cigar(s, v2),
    ensures
        all_graphic(s),
{
    assert forall|i: int| 0 <= i < s.len() implies is_graphic(#[trigger] s[i]) by {
        assert(is_digit(s[i]) || is_op(s[i], v2));
    }
}

/// A list whose items are all graphic, under a graphic separator, is graphic.
pub proof fn lemma_list_graphic(s: Seq<u8>, d: u8)
    requires
        is_graphic(d),
        forall|i: int| 0 <= i < split_spec(s, d).len() ==> all_graphic(#[trigger] split_spec(s, d)[i]),
    ensures
        all_graphic(s),
{
    lemma_join_split(s, d);
    lemma_join_graphic(split_spec(s, d), d);
}

pub proof fn lemma_ref_list_graphic(s: Seq<u8>)
    requires
        is_ref_list(s, 44),
    ensures
        all_graphic(s),
{
    assert forall|i: int| 0 <= i < split_spec(s, 44).len() implies all_graphic(
        #[trigger] split_spec(s, 44)[i],
    ) by {
        assert(is_ref(split_spec(s, 44)[i]));
    }
    lemma_list_graphic(s, 44);
}

pub proof fn lemma_overlap_list_graphic(s: Seq<u8>)
    requires
        is_overlap_list(s),
    ensures
        all_graphic(s),
{
    if !is_star(s) {
        assert forall|i: int| 0 <= i < split_spec(s, 44).len() implies all_graphic(
            #[trigger] split_spec(s, 44)[i],
        ) by {
            lemma_cigar_graphic(split_spec(s, 44)[i], false);
        }
        lemma_list_graphic(s, 44);
    }
}

/// A line joined from fields starts with the first byte of the first field.
pub proof fn lemma_join_first(toks: Seq<Seq<u8>>)
    requires
        toks.len() >= 1,
        toks[0].len() >= 1,
    ensures
        join_spec(toks, 9).len() > 0,
        join_spec(toks, 9)[0] == toks[0][0],
{
    if toks.len() > 1 {
        assert(join_spec(toks, 9) == toks[0] + seq![9u8] + join_spec(toks.drop_first(), 9));
    }
}

/// A line written from fields without tabs splits back into those fields.
pub proof fn lemma_fields_split(toks: Seq<Seq<u8>>)
    requires
        toks.len() >= 1,
        toks[0].len() >= 1,
        forall|i: int| 0 <= i < toks.len() ==> !contains_byte(#[trigger] toks[i], 9),
    ensures
        split_spec(join_spec(toks, 9), 9) == toks,
        join_spec(toks, 9).len() > 0,
{
    lemma_split_join(toks, 9);
    if toks.len() > 1 {
        assert(join_spec(toks, 9) == toks[0] + seq![9u8] + join_spec(toks.drop_first(), 9));
    }
}

/// The tag tokens at the end of a run of fields hold no tab.
pub proof fn lemma_tail_tags(toks: Seq<Seq<u8>>, head: Seq<Seq<u8>>, tags: Seq<crate::tag::TagModel>)
    requires
        toks == head + tag_texts(tags),
        valid_tags(tags),
        forall|i: int| 0 <= i < head.len() ==> !contains_byte(#[trigger] head[i], 9),
    ensures
        forall|i: int| 0 <= i < toks.len() ==> !contains_byte(#[trigger] toks[i], 9),
{
    lemma_tags_round_trip(tags);
    assert forall|i: int| 0 <= i < toks.len() implies !contains_byte(#[trigger] toks[i], 9) by {
        if i >= head.len() {
            assert(toks[i] == tag_texts(tags)[i - head.len()]);
        }
    }
}

pub proof fn lemma_id_no_tab<N: SegmentId>(v: N::V)
    requires
        N::spec_valid_id(v),
    ensures
        !contains_byte(N::spec_render(v), 9),
        N::spec_parse_id(N::spec_render(v)) == Ok::<N::V, ParseFieldError>(v),
{
    N::lemma_id_round_trip(v);
    lemma_graphic_no_tab(N::spec_render(v));
}

/// The valid headers: a version is a `Z` field without a tab.
pub open spec fn valid_header<T: OptFields>(h: Header<T>) -> bool {
    &&& valid_tags(h.optional.spec_tags())
    &&& match h.version {
        Some(v) => is_version(v@) && !contains_byte(v@, 9),
        None => true,
    }
}

/// What a header reads back as: the same header, except that without a
/// version a first tag of type `Z` reads as the version.
pub open spec fn header_read_back(h: HeaderModel) -> HeaderModel {
    if h.version is None && h.tags.len() > 0 && h.tags[0].value is Z {
        HeaderModel { version: Some(tag_text(h.tags[0])), tags: h.tags.drop_first() }
    } else {
        h
    }
}

/// What a record reads back as; only a header can change, as
/// `header_read_back` says.
pub open spec fn read_back<I>(m: LineModel<I>) -> LineModel<I> {
    match m {
        LineModel::Header(h) => LineModel::Header(header_read_back(h)),
        _ => m,
    }
}

pub proof fn lemma_header_round_trip<N: SegmentId, T: OptFields>(p: GFAParser<N, T>, h: Header<T>)
    requires
        p.headers,
        valid_header(h),
    ensures
        spec_line(p, join_spec(header_tokens(h@), 9)) == Ok::<LineModel<N::V>, LineFailure>(
            LineModel::Header(header_read_back(h@)),
        ),
        header_tokens(header_read_back(h@)) == header_tokens(h@),
{
    let tags = h.optional.spec_tags();
    let toks = header_tokens(h@);
    h.optional.lemma_keep_own();
    T::lemma_keep(tags);
    lemma_tags_round_trip(tags);
    let head = seq![seq![72u8]] + (match h@.version {
        Some(v) => seq![v],
        None => Seq::<Seq<u8>>::empty(),
    });
    lemma_graphic_no_tab(seq![72u8]);
    lemma_tail_tags(toks, head, tags);
    lemma_fields_split(toks);
    let f = toks.drop_first();
    match h.version {
        Some(v) => {
            assert(f[0] == v@);
            assert(f.skip(1) =~= tag_texts(tags));
        },
        None => {
            assert(f =~= tag_texts(tags));
            if f.len() > 0 {
                crate::tag::lemma_tag_round_trip(tags[0]);
                if tags[0].value is Z {
                    let rest = tags.drop_first();
                    assert(valid_tags(rest)) by {
                        assert forall|i: int| 0 <= i < rest.len() implies crate::tag::valid_tag(
                            #[trigger] rest[i],
                        ) by {
                            assert(rest[i] == tags[i + 1]);
                        }
                    }
                    lemma_tags_round_trip(rest);
                    T::lemma_keep(rest);
                    assert(f.skip(1) =~= tag_texts(rest));
                    assert(T::spec_captures());
                    assert(header_tokens(header_read_back(h@)) =~= header_tokens(h@));
                }
            }
        },
    }
}

pub proof fn lemma_segment_round_trip<N: SegmentId, T: OptFields>(
    p: GFAParser<N, T>,
    s: Segment<N, T>,
)
    requires
        p.segments,
        N::spec_valid_id(s.name@),
        is_sequence(s.sequence@),
        valid_tags(s.optional.spec_tags()),
    ensures
        spec_line(p, join_spec(segment_tokens::<N>(s@), 9)) == Ok::<LineModel<N::V>, LineFailure>(
            LineModel::Segment(s@),
        ),
{
    let tags = s.optional.spec_tags();
    let toks = segment_tokens::<N>(s@);
    s.optional.lemma_keep_own();
    lemma_tags_round_trip(tags);
    lemma_id_no_tab::<N>(s.name@);
    lemma_sequence_graphic(s.sequence@);
    lemma_graphic_no_tab(s.sequence@);
    lemma_graphic_no_tab(seq![83u8]);
    let head = seq![seq![83u8], N::spec_render(s.name@), s.sequence@];
    lemma_tail_tags(toks, head, tags);
    lemma_fields_split(toks);
    let f = toks.drop_first();
    assert(f.skip(2) =~= tag_texts(tags));
}

pub proof fn lemma_link_round_trip<N: SegmentId, T: OptFields>(p: GFAParser<N, T>, l: Link<N, T>)
    requires
        p.links,
        N::spec_valid_id(l.from_segment@),
        N::spec_valid_id(l.to_segment@),
        is_overlap(l.overlap@),
        valid_tags(l.optional.spec_tags()),
    ensures
        spec_line(p, join_spec(link_tokens::<N>(l@), 9)) == Ok::<LineModel<N::V>, LineFailure>(
            LineModel::Link(l@),
        ),
{
    let tags = l.optional.spec_tags();
    let toks = link_tokens::<N>(l@);
    l.optional.lemma_keep_own();
    lemma_tags_round_trip(tags);
    lemma_id_no_tab::<N>(l.from_segment@);
    lemma_id_no_tab::<N>(l.to_segment@);
    if !is_star(l.overlap@) {
        lemma_cigar_graphic(l.overlap@, false);
    }
    lemma_graphic_no_tab(l.overlap@);
    lemma_graphic_no_tab(seq![76u8]);
    lemma_graphic_no_tab(orient_text(l.from_orient));
    lemma_graphic_no_tab(orient_text(l.to_orient));
    let head = seq![
        seq![76u8],
        N::spec_render(l@.from_segment),
        orient_text(l.from_orient),
        N::spec_render(l@.to_segment),
        orient_text(l.to_orient),
        l.overlap@,
    ];
    lemma_tail_tags(toks, head, tags);
    lemma_fields_split(toks);
    let f = toks.drop_first();
    assert(f.skip(5) =~= tag_texts(tags));
}

#[verifier::rlimit(30)]
pub proof fn lemma_containment_round_trip<N: SegmentId, T: OptFields>(
    p: GFAParser<N, T>,
    c: Containment<N, T>,
)
    requires
        p.containments,
        N::spec_valid_id(c.container_name@),
        N::spec_valid_id(c.contained_name@),
        is_overlap(c.overlap@),
        valid_tags(c.optional.spec_tags()),
    ensures
        spec_line(p, join_spec(containment_tokens::<N>(c@), 9)) == Ok::<
            LineModel<N::V>,
            LineFailure,
        >(LineModel::Containment(c@)),
{
    let tags = c.optional.spec_tags();
    let toks = containment_tokens::<N>(c@);
    c.optional.lemma_keep_own();
    lemma_tags_round_trip(tags);
    lemma_id_no_tab::<N>(c.container_name@);
    lemma_id_no_tab::<N>(c.contained_name@);
    if !is_star(c.overlap@) {
        lemma_cigar_graphic(c.overlap@, false);
    }
    lemma_graphic_no_tab(c.overlap@);
    lemma_graphic_no_tab(seq![67u8]);
    lemma_graphic_no_tab(orient_text(c.container_orient));
    lemma_graphic_no_tab(orient_text(c.contained_orient));
    let pos = decimal(c.pos as nat);
    lemma_decimal_digits(c.pos as nat);
    assert forall|i: int| 0 <= i < pos.len() implies is_graphic(#[trigger] pos[i]) by {
        assert(is_digit(pos[i]));
    }
    lemma_graphic_no_tab(pos);
    let head = seq![
        seq![67u8],
        N::spec_render(c@.container_name),
        orient_text(c.container_orient),
        N::spec_render(c@.contained_name),
        orient_text(c.contained_orient),
        pos,
        c.overlap@,
    ];
    lemma_tail_tags(toks, head, tags);
    lemma_fields_split(toks);
    let f = toks.drop_first();
    assert(f[4] == pos);
    assert(pos[0] != 43);
    assert(f.skip(6) =~= tag_texts(tags));
}

pub proof fn lemma_path_round_trip<N: SegmentId, T: OptFields>(p: GFAParser<N, T>, x: Path<N, T>)
    requires
        p.paths,
        is_name(x.path_name@),
        is_ref_list(x.segment_names@, 44),
        is_overlap_list(x.overlaps@),
        valid_tags(x.optional.spec_tags()),
    ensures
        spec_line(p, join_spec(path_tokens(x@), 9)) == Ok::<LineModel<N::V>, LineFailure>(
            LineModel::Path(x@),
        ),
{
    let tags = x.optional.spec_tags();
    let toks = path_tokens(x@);
    x.optional.lemma_keep_own();
    lemma_tags_round_trip(tags);
    lemma_graphic_no_tab(x.path_name@);
    lemma_ref_list_graphic(x.segment_names@);
    lemma_graphic_no_tab(x.segment_names@);
    lemma_overlap_list_graphic(x.overlaps@);
    lemma_graphic_no_tab(x.overlaps@);
    lemma_graphic_no_tab(seq![80u8]);
    let head = seq![seq![80u8], x.path_name@, x.segment_names@, x.overlaps@];
    lemma_tail_tags(toks, head, tags);
    lemma_fields_split(toks);
    let f = toks.drop_first();
    assert(f.skip(3) =~= tag_texts(tags));
}

/// The records whose fields all follow their grammar.
pub open spec fn valid_line<N: SegmentId, T: OptFields>(l: Line<N, T>) -> bool {
    match l {
        Line::Header(h) => valid_header(h),
        Line::Segment(s) => N::spec_valid_id(s.name@) && is_sequence(s.sequence@) && valid_tags(
            s.optional.spec_tags(),
        ),
        Line::Link(x) => N::spec_valid_id(x.from_segment@) && N::spec_valid_id(x.to_segment@)
            && is_overlap(x.overlap@) && valid_tags(x.optional.spec_tags()),
        Line::Containment(c) => N::spec_valid_id(c.container_name@) && N::spec_valid_id(
            c.contained_name@,
        ) && is_overlap(c.overlap@) && valid_tags(c.optional.spec_tags()),
        Line::Path(x) => is_name(x.path_name@) && is_ref_list(x.segment_names@, 44)
            && is_overlap_list(x.overlaps@) && valid_tags(x.optional.spec_tags()),
    }
}

/// Round trip: a valid record of any kind, written as its canonical line and
/// read back by a parser that reads every kind, gives the same record, but
/// for a header without version whose first tag is a `Z` field, which reads
/// back with that tag as its version; either way, writing it again gives the
/// same line.
#[verifier::rlimit(40)]
pub proof fn lemma_round_trip<N: SegmentId, T: OptFields>(p: GFAParser<N, T>, l: Line<N, T>)
    requires
        p.headers && p.segments && p.links && p.containments && p.paths,
        valid_line(l),
    ensures
        spec_line(p, line_text::<N>(l@)) == Ok::<LineModel<N::V>, LineFailure>(read_back(l@)),
        line_text::<N>(spec_line(p, line_text::<N>(l@))->Ok_0) == line_text::<N>(l@),
        read_back(l@) != l@ ==> (l@ matches LineModel::Header(h) && h.version is None
            && h.tags.len() > 0 && h.tags[0].value is Z),
        line_text::<N>(l@).len() > 0 && is_graphic(line_text::<N>(l@)[0]),
{
    match l {
        Line::Header(h) => lemma_header_round_trip(p, h),
        Line::Segment(s) => lemma_segment_round_trip(p, s),
        Line::Link(x) => lemma_link_round_trip(p, x),
        Line::Containment(c) => lemma_containment_round_trip(p, c),
        Line::Path(x) => lemma_path_round_trip(p, x),
    }
    let toks = line_tokens::<N>(l@);
    assert(toks.len() >= 1 && toks[0].len() == 1 && is_graphic(toks[0][0]));
    lemma_join_first(toks);
}

} // verus!
