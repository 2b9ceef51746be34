//! The records of the first dialect, their canonical text, and the
//! collection that holds them in file order.
use vstd::prelude::*;
use crate::grammar::slice_copy;
use crate::orientation::Orientation;
use crate::segment_id::{id_token, SegmentId};
use crate::tag::{tag_texts, OptFields, TagModel};
use crate::text::{
    decimal, join_bytes, join_spec, one_byte, opt_bytes, push_decimal, split_bytes, split_spec,
    to_bytes, view_all,
};

verus! {

// ---- models

pub struct HeaderModel {
    pub version: Option<Seq<u8>>,
    pub tags: Seq<TagModel>,
}

pub struct SegmentModel<I> {
    pub name: I,
    pub sequence: Seq<u8>,
    pub tags: Seq<TagModel>,
}

pub struct LinkModel<I> {
    pub from_segment: I,
    pub from_orient: Orientation,
    pub to_segment: I,
    pub to_orient: Orientation,
    pub overlap: Seq<u8>,
    pub tags: Seq<TagModel>,
}

pub struct ContainmentModel<I> {
    pub container_name: I,
    pub container_orient: Orientation,
    pub contained_name: I,
    pub contained_orient: Orientation,
    pub pos: usize,
    pub overlap: Seq<u8>,
    pub tags: Seq<TagModel>,
}

pub struct PathModel {
    pub path_name: Seq<u8>,
    pub segment_names: Seq<u8>,
    pub overlaps: Seq<u8>,
    pub tags: Seq<TagModel>,
}

pub enum LineModel<I> {
    Header(HeaderModel),
    Segment(SegmentModel<I>),
    Link(LinkModel<I>),
    Containment(ContainmentModel<I>),
    Path(PathModel),
}

// ---- records

/// The header line: a version field, `VN:Z:1.0` for instance, and tags.
#[derive(Debug, Clone, PartialEq)]
pub struct Header<T> {
    pub version: Option<Vec<u8>>,
    pub optional: T,
}

/// A segment: its name and its sequence.
#[derive(Debug, Clone, PartialEq)]
pub struct Segment<N, T> {
    pub name: N,
    pub sequence: Vec<u8>,
    pub optional: T,
}

/// A link between the ends of two segments.
#[derive(Debug, Clone, PartialEq)]
pub struct Link<N, T> {
    pub from_segment: N,
    pub from_orient: Orientation,
    pub to_segment: N,
    pub to_orient: Orientation,
    pub overlap: Vec<u8>,
    pub optional: T,
}

/// One segment contained in another at a position.
#[derive(Debug, Clone, PartialEq)]
pub struct Containment<N, T> {
    pub container_name: N,
    pub container_orient: Orientation,
    pub contained_name: N,
    pub contained_orient: Orientation,
    pub pos: usize,
    pub overlap: Vec<u8>,
    pub optional: T,
}

/// A path. Its steps are kept as the unparsed list `11+,12-`; `iter`
/// reads them on demand.
#[derive(Debug, PartialEq)]
pub struct Path<N, T> {
    pub path_name: Vec<u8>,
    pub segment_names: Vec<u8>,
    pub overlaps: Vec<u8>,
    pub optional: T,
    pub _segment_names: std::marker::PhantomData<N>,
}

/// One record of the first dialect.
#[derive(Debug, PartialEq)]
pub enum Line<N, T> {
    Header(Header<T>),
    Segment(Segment<N, T>),
    Link(Link<N, T>),
    Containment(Containment<N, T>),
    Path(Path<N, T>),
}

impl<T: OptFields> View for Header<T> {
    type V = HeaderModel;

    open spec fn view(&self) -> HeaderModel {
        HeaderModel { version: opt_bytes(self.version), tags: self.optional.spec_tags() }
    }
}

impl<N: SegmentId, T: OptFields> View for Segment<N, T> {
    type V = SegmentModel<N::V>;

    open spec fn view(&self) -> SegmentModel<N::V> {
        SegmentModel { name: self.name@, sequence: self.sequence@, tags: self.optional.spec_tags() }
    }
}

impl<N: SegmentId, T: OptFields> View for Link<N, T> {
    type V = LinkModel<N::V>;

    open spec fn view(&self) -> LinkModel<N::V> {
        LinkModel {
            from_segment: self.from_segment@,
            from_orient: self.from_orient,
            to_segment: self.to_segment@,
            to_orient: self.to_orient,
            overlap: self.overlap@,
            tags: self.optional.spec_tags(),
        }
    }
}

impl<N: SegmentId, T: OptFields> View for Containment<N, T> {
    type V = ContainmentModel<N::V>;

    open spec fn view(&self) -> ContainmentModel<N::V> {
        ContainmentModel {
            container_name: self.container_name@,
            container_orient: self.container_orient,
            contained_name: self.contained_name@,
            contained_orient: self.contained_orient,
            pos: self.pos,
            overlap: self.overlap@,
            tags: self.optional.spec_tags(),
        }
    }
}

impl<N, T: OptFields> View for Path<N, T> {
    type V = PathModel;

    open spec fn view(&self) -> PathModel {
        PathModel {
            path_name: self.path_name@,
            segment_names: self.segment_names@,
            overlaps: self.overlaps@,
            tags: self.optional.spec_tags(),
        }
    }
}

impl<N: SegmentId, T: OptFields> View for Line<N, T> {
    type V = LineModel<N::V>;

    open spec fn view(&self) -> LineModel<N::V> {
        match self {
            Line::Header(h) => LineModel::Header(h@),
            Line::Segment(s) => LineModel::Segment(s@),
            Line::Link(l) => LineModel::Link(l@),
            Line::Containment(c) => LineModel::Containment(c@),
            Line::Path(p) => LineModel::Path(p@),
        }
    }
}

// ---- text of the records

pub open spec fn orient_text(o: Orientation) -> Seq<u8> {
    seq![o.spec_byte()]
}

pub open spec fn header_tokens(m: HeaderModel) -> Seq<Seq<u8>> {
    seq![seq![72u8]] + (match m.version {
        Some(v) => seq![v],
        None => Seq::<Seq<u8>>::empty(),
    }) + tag_texts(m.tags)
}

pub open spec fn segment_tokens<N: SegmentId>(m: SegmentModel<N::V>) -> Seq<Seq<u8>> {
    seq![seq![83u8], N::spec_render(m.name), m.sequence] + tag_texts(m.tags)
}

pub open spec fn link_tokens<N: SegmentId>(m: LinkModel<N::V>) -> Seq<Seq<u8>> {
    seq![
        seq![76u8],
        N::spec_render(m.from_segment),
        orient_text(m.from_orient),
        N::spec_render(m.to_segment),
        orient_text(m.to_orient),
        m.overlap,
    ] + tag_texts(m.tags)
}

pub open spec fn containment_tokens<N: SegmentId>(m: ContainmentModel<N::V>) -> Seq<Seq<u8>> {
    seq![
        seq![67u8],
        N::spec_render(m.container_name),
        orient_text(m.container_orient),
        N::spec_render(m.contained_name),
        orient_text(m.contained_orient),
        decimal(m.pos as nat),
        m.overlap,
    ] + tag_texts(m.tags)
}

pub open spec fn path_tokens(m: PathModel) -> Seq<Seq<u8>> {
    seq![seq![80u8], m.path_name, m.segment_names, m.overlaps] + tag_texts(m.tags)
}

/// The fields of a record, the record kind first.
pub open spec fn line_tokens<N: SegmentId>(m: LineModel<N::V>) -> Seq<Seq<u8>> {
    match m {
        LineModel::Header(h) => header_tokens(h),
        LineModel::Segment(s) => segment_tokens::<N>(s),
        LineModel::Link(l) => link_tokens::<N>(l),
        LineModel::Containment(c) => containment_tokens::<N>(c),
        LineModel::Path(p) => path_tokens(p),
    }
}

/// The canonical text of a record: its fields separated by tabs.
pub open spec fn line_text<N: SegmentId>(m: LineModel<N::V>) -> Seq<u8> {
    join_spec(line_tokens::<N>(m), 9)
}

fn finish_tokens<T: OptFields>(toks: &mut Vec<Vec<u8>>, optional: &T)
    ensures
        view_all(final(toks)@) == view_all(old(toks)@) + tag_texts(optional.spec_tags()),
{
    optional.render(toks);
}

/// The version field `VN:Z:1.0`.
pub open spec fn version1() -> Seq<u8> {
    seq![86u8, 78u8, 58u8, 90u8, 58u8, 49u8, 46u8, 48u8]
}

impl<T: OptFields> Default for Header<T> {
    fn default() -> (r: Header<T>)
        ensures
            opt_bytes(r.version) == Some(version1()),
            r.optional.spec_tags() == Seq::<TagModel>::empty(),
    {
        let mut v: Vec<u8> = Vec::new();
        v.push(86);
        v.push(78);
        v.push(58);
        v.push(90);
        v.push(58);
        v.push(49);
        v.push(46);
        v.push(48);
        proof {
            assert(v@ =~= version1());
        }
        Header { version: Some(v), optional: T::empty() }
    }
}

impl<T: OptFields> Header<T> {
    pub fn new(version: Option<Vec<u8>>) -> (r: Header<T>)
        ensures
            r.version == version,
            r.optional.spec_tags() == Seq::<TagModel>::empty(),
    {
        Header { version, optional: T::empty() }
    }

    pub fn tokens(&self) -> (r: Vec<Vec<u8>>)
        ensures
            view_all(r@) == header_tokens(self@),
    {
        let mut toks: Vec<Vec<u8>> = Vec::new();
        toks.push(one_byte(72));
        match &self.version {
            Some(v) => {
                toks.push(to_bytes(v.as_slice()));
            },
            None => {},
        }
        finish_tokens(&mut toks, &self.optional);
        proof {
            assert(view_all(toks@) =~= header_tokens(self@));
        }
        toks
    }

    /// The canonical text of this record.
    pub fn to_bytes(&self) -> (r: Vec<u8>)
        ensures
            r@ == join_spec(header_tokens(self@), 9),
    {
        join_bytes(&self.tokens(), 9)
    }
}

impl<T: OptFields> Segment<Vec<u8>, T> {
    pub fn new(name: &[u8], sequence: &[u8]) -> (r: Segment<Vec<u8>, T>)
        ensures
            r.name@ == name@,
            r.sequence@ == sequence@,
            r.optional.spec_tags() == Seq::<TagModel>::empty(),
    {
        Segment { name: to_bytes(name), sequence: to_bytes(sequence), optional: T::empty() }
    }
}

impl<N: SegmentId, T: OptFields> Segment<N, T> {
    pub fn tokens(&self) -> (r: Vec<Vec<u8>>)
        ensures
            view_all(r@) == segment_tokens::<N>(self@),
    {
        let mut toks: Vec<Vec<u8>> = Vec::new();
        toks.push(one_byte(83));
        toks.push(id_token(&self.name));
        toks.push(to_bytes(self.sequence.as_slice()));
        finish_tokens(&mut toks, &self.optional);
        proof {
            assert(view_all(toks@) =~= segment_tokens::<N>(self@));
        }
        toks
    }

    /// The canonical text of this record.
    pub fn to_bytes(&self) -> (r: Vec<u8>)
        ensures
            r@ == join_spec(segment_tokens::<N>(self@), 9),
    {
        join_bytes(&self.tokens(), 9)
    }
}

impl<T: OptFields> Link<Vec<u8>, T> {
    pub fn new(
        from_segment: &[u8],
        from_orient: Orientation,
        to_segment: &[u8],
        to_orient: Orientation,
        overlap: &[u8],
    ) -> (r: Link<Vec<u8>, T>)
        ensures
            r.from_segment@ == from_segment@,
            r.from_orient == from_orient,
            r.to_segment@ == to_segment@,
            r.to_orient == to_orient,
            r.overlap@ == overlap@,
            r.optional.spec_tags() == Seq::<TagModel>::empty(),
    {
        Link {
            from_segment: to_bytes(from_segment),
            from_orient,
            to_segment: to_bytes(to_segment),
            to_orient,
            overlap: to_bytes(overlap),
            optional: T::empty(),
        }
    }
}

impl<N: SegmentId, T: OptFields> Link<N, T> {
    pub fn tokens(&self) -> (r: Vec<Vec<u8>>)
        ensures
            view_all(r@) == link_tokens::<N>(self@),
    {
        let mut toks: Vec<Vec<u8>> = Vec::new();
        toks.push(one_byte(76));
        toks.push(id_token(&self.from_segment));
        toks.push(one_byte(self.from_orient.to_byte()));
        toks.push(id_token(&self.to_segment));
        toks.push(one_byte(self.to_orient.to_byte()));
        toks.push(to_bytes(self.overlap.as_slice()));
        finish_tokens(&mut toks, &self.optional);
        proof {
            assert(view_all(toks@) =~= link_tokens::<N>(self@));
        }
        toks
    }

    /// The canonical text of this record.
    pub fn to_bytes(&self) -> (r: Vec<u8>)
        ensures
            r@ == join_spec(link_tokens::<N>(self@), 9),
    {
        join_bytes(&self.tokens(), 9)
    }
}

impl<N: SegmentId, T: OptFields> Containment<N, T> {
    pub fn tokens(&self) -> (r: Vec<Vec<u8>>)
        ensures
            view_all(r@) == containment_tokens::<N>(self@),
    {
        let mut toks: Vec<Vec<u8>> = Vec::new();
        toks.push(one_byte(67));
        toks.push(id_token(&self.container_name));
        toks.push(one_byte(self.container_orient.to_byte()));
        toks.push(id_token(&self.contained_name));
        toks.push(one_byte(self.contained_orient.to_byte()));
        let mut pos: Vec<u8> = Vec::new();
        push_decimal(&mut pos, self.pos as u64);
        proof {
            assert(pos@ =~= decimal(self.pos as nat));
        }
        toks.push(pos);
        toks.push(to_bytes(self.overlap.as_slice()));
        finish_tokens(&mut toks, &self.optional);
        proof {
            assert(view_all(toks@) =~= containment_tokens::<N>(self@));
        }
        toks
    }

    /// The canonical text of this record.
    pub fn to_bytes(&self) -> (r: Vec<u8>)
        ensures
            r@ == join_spec(containment_tokens::<N>(self@), 9),
    {
        join_bytes(&self.tokens(), 9)
    }
}

/// One step of a step list: the name before the last byte, read as an
/// identifier, and the orientation that the last byte gives.
pub open spec fn step_of<N: SegmentId>(item: Seq<u8>) -> Option<(N::V, Orientation)> {
    if item.len() >= 1 && Orientation::spec_from_byte(item.last()) is Some && N::spec_parse_id(
        item.drop_last(),
    ) is Ok {
        Some(
            (
                N::spec_parse_id(item.drop_last())->Ok_0,
                Orientation::spec_from_byte(item.last())->Some_0,
            ),
        )
    } else {
        None
    }
}

/// The steps of a list of items; an item that is no step is passed over.
pub open spec fn steps<N: SegmentId>(items: Seq<Seq<u8>>) -> Seq<(N::V, Orientation)>
    decreases items.len(),
{
    if items.len() == 0 {
        Seq::empty()
    } else {
        (match step_of::<N>(items[0]) {
            Some(x) => seq![x],
            None => Seq::empty(),
        }) + steps::<N>(items.drop_first())
    }
}

pub open spec fn view_steps<N: SegmentId>(v: Seq<(N, Orientation)>) -> Seq<(N::V, Orientation)> {
    v.map_values(|p: (N, Orientation)| (p.0@, p.1))
}

pub proof fn lemma_steps_push<N: SegmentId>(items: Seq<Seq<u8>>, x: Seq<u8>)
    ensures
        steps::<N>(items.push(x)) == steps::<N>(items) + (match step_of::<N>(x) {
            Some(s) => seq![s],
            None => Seq::empty(),
        }),
    decreases items.len(),
{
    let one = match step_of::<N>(x) {
        Some(s) => seq![s],
        None => Seq::<(N::V, Orientation)>::empty(),
    };
    let p = items.push(x);
    if items.len() == 0 {
        assert(p.drop_first() =~= Seq::<Seq<u8>>::empty());
        assert(p[0] == x);
        assert(steps::<N>(p.drop_first()) == Seq::<(N::V, Orientation)>::empty());
        assert(steps::<N>(items) == Seq::<(N::V, Orientation)>::empty());
        assert(one + Seq::<(N::V, Orientation)>::empty() =~= Seq::<(N::V, Orientation)>::empty()
            + one);
    } else {
        lemma_steps_push::<N>(items.drop_first(), x);
        assert(p.drop_first() =~= items.drop_first().push(x));
        assert(steps::<N>(p) =~= steps::<N>(items) + one);
    }
}

/// Reads the steps of a list whose items are separated by `sep`.
pub fn read_steps<N: SegmentId>(list: &[u8], sep: u8) -> (r: Vec<(N, Orientation)>)
    ensures
        view_steps(r@) == steps::<N>(split_spec(list@, sep)),
{
    let items = split_bytes(list, sep);
    let ghost sp = split_spec(list@, sep);
    let mut out: Vec<(N, Orientation)> = Vec::new();
    let mut i: usize = 0;
    proof {
        assert(sp.take(0) =~= Seq::<Seq<u8>>::empty());
        assert(view_steps(out@) =~= steps::<N>(sp.take(0)));
    }
    while i < items.len()
        invariant
            0 <= i <= items@.len(),
            view_all(items@) == sp,
            view_steps(out@) == steps::<N>(sp.take(i as int)),
        decreases items.len() - i,
    {
        let ghost before = view_steps(out@);
        let it = &items[i];
        let n = it.len();
        proof {
            assert(sp[i as int] == it@);
            assert(sp.take(i + 1) =~= sp.take(i as int).push(sp[i as int]));
            lemma_steps_push::<N>(sp.take(i as int), sp[i as int]);
        }
        if n >= 1 {
            match Orientation::from_byte(it[n - 1]) {
                Some(o) => {
                    let body = slice_copy(it.as_slice(), 0, n - 1);
                    proof {
                        assert(body@ =~= it@.drop_last());
                    }
                    match N::parse_id(body.as_slice()) {
                        Ok(id) => {
                            out.push((id, o));
                            proof {
                                assert(view_steps(out@) =~= before.push((id@, o)));
                            }
                        },
                        Err(_) => {},
                    }
                },
                None => {},
            }
        }
        proof {
            assert(view_steps(out@) =~= steps::<N>(sp.take(i + 1)));
        }
        i += 1;
    }
    proof {
        assert(sp.take(i as int) =~= sp);
    }
    out
}

impl<N: SegmentId, T: OptFields> Path<N, T> {
    pub fn new(path_name: Vec<u8>, segment_names: Vec<u8>, overlaps: Vec<u8>, optional: T) -> (r:
        Path<N, T>)
        ensures
            r.path_name == path_name,
            r.segment_names == segment_names,
            r.overlaps == overlaps,
            r.optional == optional,
    {
        Path {
            path_name,
            segment_names,
            overlaps,
            optional,
            _segment_names: std::marker::PhantomData,
        }
    }

    /// The steps of the path, read afresh from the stored list at each call.
    pub fn iter(&self) -> (r: Vec<(N, Orientation)>)
        ensures
            view_steps(r@) == steps::<N>(split_spec(self.segment_names@, 44)),
    {
        read_steps(self.segment_names.as_slice(), 44)
    }

    pub fn tokens(&self) -> (r: Vec<Vec<u8>>)
        ensures
            view_all(r@) == path_tokens(self@),
    {
        let mut toks: Vec<Vec<u8>> = Vec::new();
        toks.push(one_byte(80));
        toks.push(to_bytes(self.path_name.as_slice()));
        toks.push(to_bytes(self.segment_names.as_slice()));
        toks.push(to_bytes(self.overlaps.as_slice()));
        finish_tokens(&mut toks, &self.optional);
        proof {
            assert(view_all(toks@) =~= path_tokens(self@));
        }
        toks
    }

    /// The canonical text of this record.
    pub fn to_bytes(&self) -> (r: Vec<u8>)
        ensures
            r@ == join_spec(path_tokens(self@), 9),
    {
        join_bytes(&self.tokens(), 9)
    }
}

// ---- the collection

pub struct GfaModel<I> {
    pub headers: Seq<HeaderModel>,
    pub segments: Seq<SegmentModel<I>>,
    pub links: Seq<LinkModel<I>>,
    pub containments: Seq<ContainmentModel<I>>,
    pub paths: Seq<PathModel>,
}

pub open spec fn empty_gfa<I>() -> GfaModel<I> {
    GfaModel {
        headers: Seq::empty(),
        segments: Seq::empty(),
        links: Seq::empty(),
        containments: Seq::empty(),
        paths: Seq::empty(),
    }
}

/// The collection with one more record at the end of its kind.
pub open spec fn gfa_insert<I>(g: GfaModel<I>, l: LineModel<I>) -> GfaModel<I> {
    match l {
        LineModel::Header(h) => GfaModel { headers: g.headers.push(h), ..g },
        LineModel::Segment(x) => GfaModel { segments: g.segments.push(x), ..g },
        LineModel::Link(x) => GfaModel { links: g.links.push(x), ..g },
        LineModel::Containment(x) => GfaModel { containments: g.containments.push(x), ..g },
        LineModel::Path(x) => GfaModel { paths: g.paths.push(x), ..g },
    }
}

/// The records of a graph, each kind in file order.
#[derive(Debug, PartialEq)]
pub struct GFA<N, T> {
    pub headers: Vec<Header<T>>,
    pub segments: Vec<Segment<N, T>>,
    pub links: Vec<Link<N, T>>,
    pub containments: Vec<Containment<N, T>>,
    pub paths: Vec<Path<N, T>>,
}

impl<N: SegmentId, T: OptFields> View for GFA<N, T> {
    type V = GfaModel<N::V>;

    open spec fn view(&self) -> GfaModel<N::V> {
        GfaModel {
            headers: self.headers@.map_values(|h: Header<T>| h@),
            segments: self.segments@.map_values(|x: Segment<N, T>| x@),
            links: self.links@.map_values(|x: Link<N, T>| x@),
            containments: self.containments@.map_values(|x: Containment<N, T>| x@),
            paths: self.paths@.map_values(|x: Path<N, T>| x@),
        }
    }
}

impl<N: SegmentId, T: OptFields> Default for GFA<N, T> {
    fn default() -> (r: GFA<N, T>)
        ensures
            r@ == empty_gfa::<N::V>(),
    {
        GFA::new()
    }
}

impl<N: SegmentId, T: OptFields> GFA<N, T> {
    pub fn new() -> (r: GFA<N, T>)
        ensures
            r@ == empty_gfa::<N::V>(),
    {
        let r = GFA {
            headers: Vec::new(),
            segments: Vec::new(),
            links: Vec::new(),
            containments: Vec::new(),
            paths: Vec::new(),
        };
        proof {
            assert(r@.headers =~= Seq::<HeaderModel>::empty());
            assert(r@.segments =~= Seq::<SegmentModel<N::V>>::empty());
            assert(r@.links =~= Seq::<LinkModel<N::V>>::empty());
            assert(r@.containments =~= Seq::<ContainmentModel<N::V>>::empty());
            assert(r@.paths =~= Seq::<PathModel>::empty());
        }
        r
    }

    /// Pushes a record at the end of its kind; nothing is sorted or merged.
    pub fn insert_line(&mut self, line: Line<N, T>)
        ensures
            final(self)@ == gfa_insert(old(self)@, line@),
    {
        let ghost l = line@;
        match line {
            Line::Header(h) => {
                self.headers.push(h);
            },
            Line::Segment(s) => {
                self.segments.push(s);
            },
            Line::Link(s) => {
                self.links.push(s);
            },
            Line::Containment(s) => {
                self.containments.push(s);
            },
            Line::Path(s) => {
                self.paths.push(s);
            },
        }
        proof {
            let a = final(self)@;
            let b = gfa_insert(old(self)@, l);
            assert(a.headers =~= b.headers);
            assert(a.segments =~= b.segments);
            assert(a.links =~= b.links);
            assert(a.containments =~= b.containments);
            assert(a.paths =~= b.paths);
        }
    }

    /// All records, headers first, then segments, links, containments and paths.
    pub fn lines_into_iter(self) -> (r: Vec<Line<N, T>>)
        ensures
            r@ == self.headers@.map_values(|x: Header<T>| x.spec_into_line())
                + self.segments@.map_values(|x: Segment<N, T>| x.spec_into_line())
                + self.links@.map_values(|x: Link<N, T>| x.spec_into_line())
                + self.containments@.map_values(|x: Containment<N, T>| x.spec_into_line())
                + self.paths@.map_values(|x: Path<N, T>| x.spec_into_line()),
    {
        let GFA { headers, segments, links, containments, paths } = self;
        let mut out: Vec<Line<N, T>> = Vec::new();
        push_lines(&mut out, headers);
        push_lines(&mut out, segments);
        push_lines(&mut out, links);
        push_lines(&mut out, containments);
        push_lines(&mut out, paths);
        proof {
            assert(out@ =~= Seq::<Line<N, T>>::empty() + self.headers@.map_values(
                |x: Header<T>| x.spec_into_line(),
            ) + self.segments@.map_values(|x: Segment<N, T>| x.spec_into_line())
                + self.links@.map_values(|x: Link<N, T>| x.spec_into_line())
                + self.containments@.map_values(|x: Containment<N, T>| x.spec_into_line())
                + self.paths@.map_values(|x: Path<N, T>| x.spec_into_line()));
        }
        out
    }
}

/// A borrowed record of the first dialect.
#[derive(Debug, PartialEq)]
pub enum LineRef<'a, N, T> {
    Header(&'a Header<T>),
    Segment(&'a Segment<N, T>),
    Link(&'a Link<N, T>),
    Containment(&'a Containment<N, T>),
    Path(&'a Path<N, T>),
}

impl<'a, N: SegmentId, T: OptFields> View for LineRef<'a, N, T> {
    type V = LineModel<N::V>;

    open spec fn view(&self) -> LineModel<N::V> {
        match self {
            LineRef::Header(x) => LineModel::Header(x@),
            LineRef::Segment(x) => LineModel::Segment(x@),
            LineRef::Link(x) => LineModel::Link(x@),
            LineRef::Containment(x) => LineModel::Containment(x@),
            LineRef::Path(x) => LineModel::Path(x@),
        }
    }
}

impl<'a, N: SegmentId, T: OptFields> LineRef<'a, N, T> {
    /// The canonical text of the borrowed record.
    pub fn to_bytes(&self) -> (r: Vec<u8>)
        ensures
            r@ == line_text::<N>(self@),
    {
        match self {
            LineRef::Header(x) => x.to_bytes(),
            LineRef::Segment(x) => x.to_bytes(),
            LineRef::Link(x) => x.to_bytes(),
            LineRef::Containment(x) => x.to_bytes(),
            LineRef::Path(x) => x.to_bytes(),
        }
    }
}

/// All records of a collection: headers, segments, links, containments, paths.
pub open spec fn gfa_lines<I>(g: GfaModel<I>) -> Seq<LineModel<I>> {
    g.headers.map_values(|x: HeaderModel| LineModel::<I>::Header(x)) + g.segments.map_values(
        |x: SegmentModel<I>| LineModel::Segment(x),
    ) + g.links.map_values(|x: LinkModel<I>| LineModel::Link(x)) + g.containments.map_values(
        |x: ContainmentModel<I>| LineModel::Containment(x),
    ) + g.paths.map_values(|x: PathModel| LineModel::<I>::Path(x))
}

/// The text of a run of records: each canonical line ended by a newline.
pub open spec fn lines_text<N: SegmentId>(ls: Seq<LineModel<N::V>>) -> Seq<u8>
    decreases ls.len(),
{
    if ls.len() == 0 {
        Seq::empty()
    } else {
        lines_text::<N>(ls.drop_last()) + line_text::<N>(ls.last()) + seq![10u8]
    }
}

impl<N: SegmentId, T: OptFields> GFA<N, T> {
    /// The text of the whole collection, a record per line.
    pub fn to_bytes(&self) -> (r: Vec<u8>)
        ensures
            r@ == lines_text::<N>(gfa_lines(self@)),
    {
        let refs = self.lines_iter();
        let ghost ms = refs@.map_values(|l: LineRef<N, T>| l@);
        proof {
            let g = self@;
            let h = self.headers@.len() as int;
            let s = self.segments@.len() as int;
            let l = self.links@.len() as int;
            let c = self.containments@.len() as int;
            assert forall|j: int| 0 <= j < ms.len() implies ms[j] == gfa_lines(g)[j] by {
                if j < h {
                } else if j < h + s {
                    assert(refs@[h + (j - h)] == LineRef::<N, T>::Segment(&self.segments@[j - h]));
                } else if j < h + s + l {
                    assert(refs@[h + s + (j - h - s)] == LineRef::<N, T>::Link(
                        &self.links@[j - h - s],
                    ));
                } else if j < h + s + l + c {
                    assert(refs@[h + s + l + (j - h - s - l)] == LineRef::<N, T>::Containment(
                        &self.containments@[j - h - s - l],
                    ));
                } else {
                    assert(refs@[h + s + l + c + (j - h - s - l - c)] == LineRef::<N, T>::Path(
                        &self.paths@[j - h - s - l - c],
                    ));
                }
            }
            assert(ms =~= gfa_lines(g));
        }
        let mut out: Vec<u8> = Vec::new();
        let mut i: usize = 0;
        proof {
            assert(ms.take(0) =~= Seq::<LineModel<N::V>>::empty());
        }
        while i < refs.len()
            invariant
                0 <= i <= refs@.len(),
                ms == refs@.map_values(|l: LineRef<N, T>| l@),
                out@ == lines_text::<N>(ms.take(i as int)),
            decreases refs.len() - i,
        {
            let t = refs[i].to_bytes();
            let ghost before = out@;
            crate::text::push_all(&mut out, t.as_slice());
            out.push(10);
            proof {
                assert(ms.take(i + 1).drop_last() =~= ms.take(i as int));
                assert(ms.take(i + 1).last() == refs@[i as int]@);
                assert(out@ =~= lines_text::<N>(ms.take(i + 1)));
            }
            i += 1;
        }
        proof {
            assert(ms.take(i as int) =~= ms);
        }
        out
    }
}

impl<'a, N, T> LineRef<'a, N, T> {
    pub fn some_segment(self) -> (r: Option<&'a Segment<N, T>>)
        ensures
            match self {
                LineRef::Segment(x) => r == Some(x),
                _ => r is None,
            },
    {
        match self {
            LineRef::Segment(x) => Some(x),
            _ => None,
        }
    }
}

impl<N, T> GFA<N, T> {
    /// Borrows all records, in the order of `lines_into_iter`.
    pub fn lines_iter(&self) -> (r: Vec<LineRef<'_, N, T>>)
        ensures
            r@.len() == self.headers@.len() + self.segments@.len() + self.links@.len()
                + self.containments@.len() + self.paths@.len(),
            forall|i: int|
                0 <= i < self.headers@.len() ==> r@[0 + i] == LineRef::<N, T>::Header(&self.headers@[i]),
            forall|i: int|
                0 <= i < self.segments@.len() ==> r@[self.headers@.len() + i] == LineRef::<N, T>::Segment(&self.segments@[i]),
            forall|i: int|
                0 <= i < self.links@.len() ==> r@[self.headers@.len() + self.segments@.len() + i] == LineRef::<N, T>::Link(&self.links@[i]),
            forall|i: int|
                0 <= i < self.containments@.len() ==> r@[self.headers@.len() + self.segments@.len() + self.links@.len() + i] == LineRef::<N, T>::Containment(&self.containments@[i]),
            forall|i: int|
                0 <= i < self.paths@.len() ==> r@[self.headers@.len() + self.segments@.len() + self.links@.len() + self.containments@.len() + i] == LineRef::<N, T>::Path(&self.paths@[i]),
    {
        let mut out: Vec<LineRef<'_, N, T>> = Vec::new();
        let mut i: usize = 0;
        while i < self.headers.len()
            invariant
                0 <= i <= self.headers@.len(),
                out@.len() == 0 + i,

                forall|j: int|
                    0 <= j < i ==> out@[0 + j] == LineRef::<N, T>::Header(&self.headers@[j]),
            decreases self.headers.len() - i,
        {
            out.push(LineRef::Header(&self.headers[i]));
            i += 1;
        }
        let mut i: usize = 0;
        while i < self.segments.len()
            invariant
                0 <= i <= self.segments@.len(),
                out@.len() == self.headers@.len() + i,
                forall|j: int|
                    0 <= j < self.headers@.len() ==> out@[0 + j] == LineRef::<N, T>::Header(
                        &self.headers@[j],
                    ),
                forall|j: int|
                    0 <= j < i ==> out@[self.headers@.len() + j] == LineRef::<N, T>::Segment(&self.segments@[j]),
            decreases self.segments.len() - i,
        {
            out.push(LineRef::Segment(&self.segments[i]));
            i += 1;
        }
        let mut i: usize = 0;
        while i < self.links.len()
            invariant
                0 <= i <= self.links@.len(),
                out@.len() == self.headers@.len() + self.segments@.len() + i,
                forall|j: int|
                    0 <= j < self.headers@.len() ==> out@[0 + j] == LineRef::<N, T>::Header(
                        &self.headers@[j],
                    ),
                forall|j: int|
                    0 <= j < self.segments@.len() ==> out@[self.headers@.len() + j] == LineRef::<N, T>::Segment(
                        &self.segments@[j],
                    ),
                forall|j: int|
                    0 <= j < i ==> out@[self.headers@.len() + self.segments@.len() + j] == LineRef::<N, T>::Link(&self.links@[j]),
            decreases self.links.len() - i,
        {
            out.push(LineRef::Link(&self.links[i]));
            i += 1;
        }
        let mut i: usize = 0;
        while i < self.containments.len()
            invariant
                0 <= i <= self.containments@.len(),
                out@.len() == self.headers@.len() + self.segments@.len() + self.links@.len() + i,
                forall|j: int|
                    0 <= j < self.headers@.len() ==> out@[0 + j] == LineRef::<N, T>::Header(
                        &self.headers@[j],
                    ),
                forall|j: int|
                    0 <= j < self.segments@.len() ==> out@[self.headers@.len() + j] == LineRef::<N, T>::Segment(
                        &self.segments@[j],
                    ),
                forall|j: int|
                    0 <= j < self.links@.len() ==> out@[self.headers@.len() + self.segments@.len() + j] == LineRef::<N, T>::Link(
                        &self.links@[j],
                    ),
                forall|j: int|
                    0 <= j < i ==> out@[self.headers@.len() + self.segments@.len() + self.links@.len() + j] == LineRef::<N, T>::Containment(&self.containments@[j]),
            decreases self.containments.len() - i,
        {
            out.push(LineRef::Containment(&self.containments[i]));
            i += 1;
        }
        let mut i: usize = 0;
        while i < self.paths.len()
            invariant
                0 <= i <= self.paths@.len(),
                out@.len() == self.headers@.len() + self.segments@.len() + self.links@.len() + self.containments@.len() + i,
                forall|j: int|
                    0 <= j < self.headers@.len() ==> out@[0 + j] == LineRef::<N, T>::Header(
                        &self.headers@[j],
                    ),
                forall|j: int|
                    0 <= j < self.segments@.len() ==> out@[self.headers@.len() + j] == LineRef::<N, T>::Segment(
                        &self.segments@[j],
                    ),
                forall|j: int|
                    0 <= j < self.links@.len() ==> out@[self.headers@.len() + self.segments@.len() + j] == LineRef::<N, T>::Link(
                        &self.links@[j],
                    ),
                forall|j: int|
                    0 <= j < self.containments@.len() ==> out@[self.headers@.len() + self.segments@.len() + self.links@.len() + j] == LineRef::<N, T>::Containment(
                        &self.containments@[j],
                    ),
                forall|j: int|
                    0 <= j < i ==> out@[self.headers@.len() + self.segments@.len() + self.links@.len() + self.containments@.len() + j] == LineRef::<N, T>::Path(&self.paths@[j]),
            decreases self.paths.len() - i,
        {
            out.push(LineRef::Path(&self.paths[i]));
            i += 1;
        }
        out
    }
}

/// A record that can stand as a line of type `L`.
pub trait IntoLine<L>: Sized {
    spec fn spec_into_line(self) -> L;

    fn into_line(self) -> (r: L)
        ensures
            r == self.spec_into_line(),
    ;
}

impl<N, T> IntoLine<Line<N, T>> for Header<T> {
    open spec fn spec_into_line(self) -> Line<N, T> {
        Line::Header(self)
    }

    fn into_line(self) -> (r: Line<N, T>) {
        Line::Header(self)
    }
}

impl<N, T> IntoLine<Line<N, T>> for Segment<N, T> {
    open spec fn spec_into_line(self) -> Line<N, T> {
        Line::Segment(self)
    }

    fn into_line(self) -> (r: Line<N, T>) {
        Line::Segment(self)
    }
}

impl<N, T> IntoLine<Line<N, T>> for Link<N, T> {
    open spec fn spec_into_line(self) -> Line<N, T> {
        Line::Link(self)
    }

    fn into_line(self) -> (r: Line<N, T>) {
        Line::Link(self)
    }
}

impl<N, T> IntoLine<Line<N, T>> for Containment<N, T> {
    open spec fn spec_into_line(self) -> Line<N, T> {
        Line::Containment(self)
    }

    fn into_line(self) -> (r: Line<N, T>) {
        Line::Containment(self)
    }
}

impl<N, T> IntoLine<Line<N, T>> for Path<N, T> {
    open spec fn spec_into_line(self) -> Line<N, T> {
        Line::Path(self)
    }

    fn into_line(self) -> (r: Line<N, T>) {
        Line::Path(self)
    }
}

/// The items of `v` in the opposite order.
pub fn into_reversed<A>(v: Vec<A>) -> (r: Vec<A>)
    ensures
        r@.len() == v@.len(),
        forall|i: int| 0 <= i < v@.len() ==> r@[i] == v@[v@.len() - 1 - i],
{
    let ghost orig = v@;
    let mut src = v;
    let mut out: Vec<A> = Vec::new();
    while src.len() > 0
        invariant
            src@ == orig.take(src@.len() as int),
            src@.len() + out@.len() == orig.len(),
            forall|i: int| 0 <= i < out@.len() ==> out@[i] == orig[orig.len() - 1 - i],
        decreases src@.len(),
    {
        let ghost before = src@;
        match src.pop() {
            Some(x) => {
                out.push(x);
                proof {
                    assert(src@ =~= orig.take(src@.len() as int));
                }
            },
            None => {},
        }
    }
    out
}

/// Appends the items of `v`, each as a `Line`, in order.
pub fn push_lines<L, R: IntoLine<L>>(out: &mut Vec<L>, v: Vec<R>)
    ensures
        final(out)@ == old(out)@ + v@.map_values(|x: R| x.spec_into_line()),
{
    let ghost orig = v@;
    let n = v.len();
    let mut rev = into_reversed(v);
    while rev.len() > 0
        invariant
            rev@.len() <= n,
            n == orig.len(),
            forall|i: int| 0 <= i < rev@.len() ==> rev@[i] == orig[n - 1 - i],
            out@ == old(out)@ + orig.take(n - rev@.len()).map_values(|x: R| x.spec_into_line()),
        decreases rev@.len(),
    {
        let ghost k = n - rev@.len();
        match rev.pop() {
            Some(x) => {
                proof {
                    assert(x == orig[k]);
                }
                out.push(x.into_line());
                proof {
                    assert(orig.take(k + 1).map_values(|x: R| x.spec_into_line()) =~= orig.take(
                        k,
                    ).map_values(|x: R| x.spec_into_line()).push(orig[k].spec_into_line()));
                }
            },
            None => {},
        }
    }
    proof {
        assert(orig.take(n as int) =~= orig);
    }
}

impl<N: SegmentId, T: OptFields> Line<N, T> {
    /// The canonical text of this record: its fields separated by tabs.
    pub fn to_bytes(&self) -> (r: Vec<u8>)
        ensures
            r@ == line_text::<N>(self@),
    {
        match self {
            Line::Header(x) => x.to_bytes(),
            Line::Segment(x) => x.to_bytes(),
            Line::Link(x) => x.to_bytes(),
            Line::Containment(x) => x.to_bytes(),
            Line::Path(x) => x.to_bytes(),
        }
    }
}

impl<N, T> Line<N, T> {
    pub fn some_header(self) -> (r: Option<Header<T>>)
        ensures
            match self {
                Line::Header(x) => r == Some(x),
                _ => r is None,
            },
    {
        match self {
            Line::Header(x) => Some(x),
            _ => None,
        }
    }

    pub fn some_segment(self) -> (r: Option<Segment<N, T>>)
        ensures
            match self {
                Line::Segment(x) => r == Some(x),
                _ => r is None,
            },
    {
        match self {
            Line::Segment(x) => Some(x),
            _ => None,
        }
    }

    pub fn some_link(self) -> (r: Option<Link<N, T>>)
        ensures
            match self {
                Line::Link(x) => r == Some(x),
                _ => r is None,
            },
    {
        match self {
            Line::Link(x) => Some(x),
            _ => None,
        }
    }

    pub fn some_containment(self) -> (r: Option<Containment<N, T>>)
        ensures
            match self {
                Line::Containment(x) => r == Some(x),
                _ => r is None,
            },
    {
        match self {
            Line::Containment(x) => Some(x),
            _ => None,
        }
    }

    pub fn some_path(self) -> (r: Option<Path<N, T>>)
        ensures
            match self {
                Line::Path(x) => r == Some(x),
                _ => r is None,
            },
    {
        match self {
            Line::Path(x) => Some(x),
            _ => None,
        }
    }
}

} // verus!
