//! The records of the second dialect, their canonical text, and the
//! collection that holds them in file order.
use vstd::prelude::*;
use crate::gfa1::{push_lines, read_steps, steps, view_steps, IntoLine};
use crate::orientation::Orientation;
use crate::segment_id::{id_token, ref_token, SegmentId};
use crate::tag::{tag_texts, OptFields, TagModel};
use crate::text::{
    join_bytes, join_spec, one_byte, opt_bytes, split_bytes, split_spec, to_bytes, view_all,
};

verus! {

// ---- models

pub struct Header2Model {
    pub version: Option<Seq<u8>>,
    pub tags: Seq<TagModel>,
}

pub struct Segment2Model<I> {
    pub id: I,
    pub len: Seq<u8>,
    pub sequence: Seq<u8>,
    pub tags: Seq<TagModel>,
}

pub struct FragmentModel<I> {
    pub id: I,
    pub ext_ref: I,
    pub sbeg: Seq<u8>,
    pub send: Seq<u8>,
    pub fbeg: Seq<u8>,
    pub fend: Seq<u8>,
    pub alignment: Seq<u8>,
    pub tags: Seq<TagModel>,
}

pub struct EdgeModel<I> {
    pub id: I,
    pub sid1: I,
    pub sid2: I,
    pub beg1: Seq<u8>,
    pub end1: Seq<u8>,
    pub beg2: Seq<u8>,
    pub end2: Seq<u8>,
    pub alignment: Seq<u8>,
    pub tags: Seq<TagModel>,
}

pub struct GapModel<I> {
    pub id: I,
    pub sid1: I,
    pub sid2: I,
    pub dist: Seq<u8>,
    pub var: Seq<u8>,
    pub tags: Seq<TagModel>,
}

pub struct GroupModel {
    pub id: Seq<u8>,
    pub var_field: Seq<u8>,
    pub tags: Seq<TagModel>,
}

pub enum Line2Model<I> {
    Header(Header2Model),
    Segment(Segment2Model<I>),
    Fragment(FragmentModel<I>),
    Edge(EdgeModel<I>),
    Gap(GapModel<I>),
    GroupO(GroupModel),
    GroupU(GroupModel),
}

// ---- records

/// The header line: a version field, `VN:Z:2.0` for instance, and tags.
#[derive(Debug, Clone, PartialEq)]
pub struct Header<T> {
    pub version: Option<Vec<u8>>,
    pub tag: T,
}

/// A segment with its declared length.
#[derive(Debug, Clone, PartialEq)]
pub struct Segment<N, T> {
    pub id: N,
    pub len: Vec<u8>,
    pub sequence: Vec<u8>,
    pub tag: T,
}

/// A fragment of an external sequence aligned to a segment; `ext_ref`
/// carries its orientation.
#[derive(Debug, Clone, PartialEq)]
pub struct Fragment<N, T> {
    pub id: N,
    pub ext_ref: N,
    pub sbeg: Vec<u8>,
    pub send: Vec<u8>,
    pub fbeg: Vec<u8>,
    pub fend: Vec<u8>,
    pub alignment: Vec<u8>,
    pub tag: T,
}

/// An edge between two oriented segments; the identifier may be `*`.
#[derive(Debug, Clone, PartialEq)]
pub struct Edge<N, T> {
    pub id: N,
    pub sid1: N,
    pub sid2: N,
    pub beg1: Vec<u8>,
    pub end1: Vec<u8>,
    pub beg2: Vec<u8>,
    pub end2: Vec<u8>,
    pub alignment: Vec<u8>,
    pub tag: T,
}

/// A gap of estimated length between two oriented segments.
#[derive(Debug, Clone, PartialEq)]
pub struct Gap<N, T> {
    pub id: N,
    pub sid1: N,
    pub sid2: N,
    pub dist: Vec<u8>,
    pub var: Vec<u8>,
    pub tag: T,
}

/// An ordered group: oriented references separated by spaces, kept unparsed.
#[derive(Debug, PartialEq)]
pub struct GroupO<N, T> {
    pub id: Vec<u8>,
    pub var_field: Vec<u8>,
    pub tag: T,
    pub _segment_names: std::marker::PhantomData<N>,
}

/// An unordered group: identifiers separated by spaces, kept unparsed.
#[derive(Debug, PartialEq)]
pub struct GroupU<N, T> {
    pub id: Vec<u8>,
    pub var_field: Vec<u8>,
    pub tag: T,
    pub _segment_names: std::marker::PhantomData<N>,
}

/// One record of the second dialect.
#[derive(Debug, PartialEq)]
pub enum Line<N, T> {
    Header(Header<T>),
    Segment(Segment<N, T>),
    Fragment(Fragment<N, T>),
    Edge(Edge<N, T>),
    Gap(Gap<N, T>),
    GroupO(GroupO<N, T>),
    GroupU(GroupU<N, T>),
}

impl<T: OptFields> View for Header<T> {
    type V = Header2Model;

    open spec fn view(&self) -> Header2Model {
        Header2Model { version: opt_bytes(self.version), tags: self.tag.spec_tags() }
    }
}

impl<N: SegmentId, T: OptFields> View for Segment<N, T> {
    type V = Segment2Model<N::V>;

    open spec fn view(&self) -> Segment2Model<N::V> {
        Segment2Model {
            id: self.id@,
            len: self.len@,
            sequence: self.sequence@,
            tags: self.tag.spec_tags(),
        }
    }
}

impl<N: SegmentId, T: OptFields> View for Fragment<N, T> {
    type V = FragmentModel<N::V>;

    open spec fn view(&self) -> FragmentModel<N::V> {
        FragmentModel {
            id: self.id@,
            ext_ref: self.ext_ref@,
            sbeg: self.sbeg@,
            send: self.send@,
            fbeg: self.fbeg@,
            fend: self.fend@,
            alignment: self.alignment@,
            tags: self.tag.spec_tags(),
        }
    }
}

impl<N: SegmentId, T: OptFields> View for Edge<N, T> {
    type V = EdgeModel<N::V>;

    open spec fn view(&self) -> EdgeModel<N::V> {
        EdgeModel {
            id: self.id@,
            sid1: self.sid1@,
            sid2: self.sid2@,
            beg1: self.beg1@,
            end1: self.end1@,
            beg2: self.beg2@,
            end2: self.end2@,
            alignment: self.alignment@,
            tags: self.tag.spec_tags(),
        }
    }
}

impl<N: SegmentId, T: OptFields> View for Gap<N, T> {
    type V = GapModel<N::V>;

    open spec fn view(&self) -> GapModel<N::V> {
        GapModel {
            id: self.id@,
            sid1: self.sid1@,
            sid2: self.sid2@,
            dist: self.dist@,
            var: self.var@,
            tags: self.tag.spec_tags(),
        }
    }
}

impl<N, T: OptFields> View for GroupO<N, T> {
    type V = GroupModel;

    open spec fn view(&self) -> GroupModel {
        GroupModel { id: self.id@, var_field: self.var_field@, tags: self.tag.spec_tags() }
    }
}

impl<N, T: OptFields> View for GroupU<N, T> {
    type V = GroupModel;

    open spec fn view(&self) -> GroupModel {
        GroupModel { id: self.id@, var_field: self.var_field@, tags: self.tag.spec_tags() }
    }
}

impl<N: SegmentId, T: OptFields> View for Line<N, T> {
    type V = Line2Model<N::V>;

    open spec fn view(&self) -> Line2Model<N::V> {
        match self {
            Line::Header(x) => Line2Model::Header(x@),
            Line::Segment(x) => Line2Model::Segment(x@),
            Line::Fragment(x) => Line2Model::Fragment(x@),
            Line::Edge(x) => Line2Model::Edge(x@),
            Line::Gap(x) => Line2Model::Gap(x@),
            Line::GroupO(x) => Line2Model::GroupO(x@),
            Line::GroupU(x) => Line2Model::GroupU(x@),
        }
    }
}

// ---- text of the records

pub open spec fn header2_tokens(m: Header2Model) -> Seq<Seq<u8>> {
    seq![seq![72u8]] + (match m.version {
        Some(v) => seq![v],
        None => Seq::<Seq<u8>>::empty(),
    }) + tag_texts(m.tags)
}

pub open spec fn segment2_tokens<N: SegmentId>(m: Segment2Model<N::V>) -> Seq<Seq<u8>> {
    seq![seq![83u8], N::spec_render(m.id), m.len, m.sequence] + tag_texts(m.tags)
}

pub open spec fn fragment_tokens<N: SegmentId>(m: FragmentModel<N::V>) -> Seq<Seq<u8>> {
    seq![
        seq![70u8],
        N::spec_render(m.id),
        N::spec_render_ref(m.ext_ref),
        m.sbeg,
        m.send,
        m.fbeg,
        m.fend,
        m.alignment,
    ] + tag_texts(m.tags)
}

pub open spec fn edge_tokens<N: SegmentId>(m: EdgeModel<N::V>) -> Seq<Seq<u8>> {
    seq![
        seq![69u8],
        N::spec_render(m.id),
        N::spec_render_ref(m.sid1),
        N::spec_render_ref(m.sid2),
        m.beg1,
        m.end1,
        m.beg2,
        m.end2,
        m.alignment,
    ] + tag_texts(m.tags)
}

pub open spec fn gap_tokens<N: SegmentId>(m: GapModel<N::V>) -> Seq<Seq<u8>> {
    seq![
        seq![71u8],
        N::spec_render(m.id),
        N::spec_render_ref(m.sid1),
        N::spec_render_ref(m.sid2),
        m.dist,
        m.var,
    ] + tag_texts(m.tags)
}

pub open spec fn group_tokens(kind: u8, m: GroupModel) -> Seq<Seq<u8>> {
    seq![seq![kind], m.id, m.var_field] + tag_texts(m.tags)
}

/// The fields of a record, the record kind first.
pub open spec fn line2_tokens<N: SegmentId>(m: Line2Model<N::V>) -> Seq<Seq<u8>> {
    match m {
        Line2Model::Header(x) => header2_tokens(x),
        Line2Model::Segment(x) => segment2_tokens::<N>(x),
        Line2Model::Fragment(x) => fragment_tokens::<N>(x),
        Line2Model::Edge(x) => edge_tokens::<N>(x),
        Line2Model::Gap(x) => gap_tokens::<N>(x),
        Line2Model::GroupO(x) => group_tokens(79, x),
        Line2Model::GroupU(x) => group_tokens(85, x),
    }
}

/// The canonical text of a record: its fields separated by tabs.
pub open spec fn line2_text<N: SegmentId>(m: Line2Model<N::V>) -> Seq<u8> {
    join_spec(line2_tokens::<N>(m), 9)
}

impl<N: SegmentId, T: OptFields> Line<N, T> {
    /// Borrows the record.
    pub fn as_line_ref(&self) -> (r: LineRef<'_, N, T>)
        ensures
            r@ == self@,
    {
        match self {
            Line::Header(x) => LineRef::Header(x),
            Line::Segment(x) => LineRef::Segment(x),
            Line::Fragment(x) => LineRef::Fragment(x),
            Line::Edge(x) => LineRef::Edge(x),
            Line::Gap(x) => LineRef::Gap(x),
            Line::GroupO(x) => LineRef::GroupO(x),
            Line::GroupU(x) => LineRef::GroupU(x),
        }
    }

    pub fn tokens(&self) -> (r: Vec<Vec<u8>>)
        ensures
            view_all(r@) == line2_tokens::<N>(self@),
    {
        self.as_line_ref().tokens()
    }

    /// The canonical text of this record.
    pub fn to_bytes(&self) -> (r: Vec<u8>)
        ensures
            r@ == line2_text::<N>(self@),
    {
        join_bytes(&self.tokens(), 9)
    }
}

impl<'a, N: SegmentId, T: OptFields> View for LineRef<'a, N, T> {
    type V = Line2Model<N::V>;

    open spec fn view(&self) -> Line2Model<N::V> {
        match self {
            LineRef::Header(x) => Line2Model::Header(x@),
            LineRef::Segment(x) => Line2Model::Segment(x@),
            LineRef::Fragment(x) => Line2Model::Fragment(x@),
            LineRef::Edge(x) => Line2Model::Edge(x@),
            LineRef::Gap(x) => Line2Model::Gap(x@),
            LineRef::GroupO(x) => Line2Model::GroupO(x@),
            LineRef::GroupU(x) => Line2Model::GroupU(x@),
        }
    }
}

impl<'a, N: SegmentId, T: OptFields> LineRef<'a, N, T> {
    pub fn tokens(&self) -> (r: Vec<Vec<u8>>)
        ensures
            view_all(r@) == line2_tokens::<N>(self@),
    {
        let mut toks: Vec<Vec<u8>> = Vec::new();
        match self {
            LineRef::Header(x) => {
                toks.push(one_byte(72));
                match &x.version {
                    Some(v) => {
                        toks.push(to_bytes(v.as_slice()));
                    },
                    None => {},
                }
                x.tag.render(&mut toks);
            },
            LineRef::Segment(x) => {
                toks.push(one_byte(83));
                toks.push(id_token(&x.id));
                toks.push(to_bytes(x.len.as_slice()));
                toks.push(to_bytes(x.sequence.as_slice()));
                x.tag.render(&mut toks);
            },
            LineRef::Fragment(x) => {
                toks.push(one_byte(70));
                toks.push(id_token(&x.id));
                toks.push(ref_token(&x.ext_ref));
                toks.push(to_bytes(x.sbeg.as_slice()));
                toks.push(to_bytes(x.send.as_slice()));
                toks.push(to_bytes(x.fbeg.as_slice()));
                toks.push(to_bytes(x.fend.as_slice()));
                toks.push(to_bytes(x.alignment.as_slice()));
                x.tag.render(&mut toks);
            },
            LineRef::Edge(x) => {
                toks.push(one_byte(69));
                toks.push(id_token(&x.id));
                toks.push(ref_token(&x.sid1));
                toks.push(ref_token(&x.sid2));
                toks.push(to_bytes(x.beg1.as_slice()));
                toks.push(to_bytes(x.end1.as_slice()));
                toks.push(to_bytes(x.beg2.as_slice()));
                toks.push(to_bytes(x.end2.as_slice()));
                toks.push(to_bytes(x.alignment.as_slice()));
                x.tag.render(&mut toks);
            },
            LineRef::Gap(x) => {
                toks.push(one_byte(71));
                toks.push(id_token(&x.id));
                toks.push(ref_token(&x.sid1));
                toks.push(ref_token(&x.sid2));
                toks.push(to_bytes(x.dist.as_slice()));
                toks.push(to_bytes(x.var.as_slice()));
                x.tag.render(&mut toks);
            },
            LineRef::GroupO(x) => {
                toks.push(one_byte(79));
                toks.push(to_bytes(x.id.as_slice()));
                toks.push(to_bytes(x.var_field.as_slice()));
                x.tag.render(&mut toks);
            },
            LineRef::GroupU(x) => {
                toks.push(one_byte(85));
                toks.push(to_bytes(x.id.as_slice()));
                toks.push(to_bytes(x.var_field.as_slice()));
                x.tag.render(&mut toks);
            },
        }
        proof {
            assert(view_all(toks@) =~= line2_tokens::<N>(self@));
        }
        toks
    }

    /// The canonical text of the borrowed record.
    pub fn to_bytes(&self) -> (r: Vec<u8>)
        ensures
            r@ == line2_text::<N>(self@),
    {
        join_bytes(&self.tokens(), 9)
    }
}

/// The version field `VN:Z:2.0`.
pub open spec fn version2() -> Seq<u8> {
    seq![86u8, 78u8, 58u8, 90u8, 58u8, 50u8, 46u8, 48u8]
}

impl<T: OptFields> Default for Header<T> {
    fn default() -> (r: Header<T>)
        ensures
            opt_bytes(r.version) == Some(version2()),
            r.tag.spec_tags() == Seq::<TagModel>::empty(),
    {
        let mut v: Vec<u8> = Vec::new();
        v.push(86);
        v.push(78);
        v.push(58);
        v.push(90);
        v.push(58);
        v.push(50);
        v.push(46);
        v.push(48);
        proof {
            assert(v@ =~= version2());
        }
        Header { version: Some(v), tag: T::empty() }
    }
}

impl<T: OptFields> Header<T> {
    pub fn new(version: Option<Vec<u8>>) -> (r: Header<T>)
        ensures
            r.version == version,
            r.tag.spec_tags() == Seq::<TagModel>::empty(),
    {
        Header { version, tag: T::empty() }
    }
}

impl<T: OptFields> Segment<Vec<u8>, T> {
    pub fn new(id: &[u8], len: &[u8], sequence: &[u8]) -> (r: Segment<Vec<u8>, T>)
        ensures
            r.id@ == id@,
            r.len@ == len@,
            r.sequence@ == sequence@,
            r.tag.spec_tags() == Seq::<TagModel>::empty(),
    {
        Segment { id: to_bytes(id), len: to_bytes(len), sequence: to_bytes(sequence), tag: T::empty() }
    }
}

impl<T: OptFields> Fragment<Vec<u8>, T> {
    pub fn new(
        id: &[u8],
        ext_ref: &[u8],
        sbeg: &[u8],
        send: &[u8],
        fbeg: &[u8],
        fend: &[u8],
        alignment: &[u8],
    ) -> (r: Fragment<Vec<u8>, T>)
        ensures
            r.id@ == id@,
            r.ext_ref@ == ext_ref@,
            r.sbeg@ == sbeg@,
            r.send@ == send@,
            r.fbeg@ == fbeg@,
            r.fend@ == fend@,
            r.alignment@ == alignment@,
            r.tag.spec_tags() == Seq::<TagModel>::empty(),
    {
        Fragment {
            id: to_bytes(id),
            ext_ref: to_bytes(ext_ref),
            sbeg: to_bytes(sbeg),
            send: to_bytes(send),
            fbeg: to_bytes(fbeg),
            fend: to_bytes(fend),
            alignment: to_bytes(alignment),
            tag: T::empty(),
        }
    }
}

impl<T: OptFields> Edge<Vec<u8>, T> {
    pub fn new(
        id: &[u8],
        sid1: &[u8],
        sid2: &[u8],
        beg1: &[u8],
        end1: &[u8],
        beg2: &[u8],
        end2: &[u8],
        alignment: &[u8],
    ) -> (r: Edge<Vec<u8>, T>)
        ensures
            r.id@ == id@,
            r.sid1@ == sid1@,
            r.sid2@ == sid2@,
            r.beg1@ == beg1@,
            r.end1@ == end1@,
            r.beg2@ == beg2@,
            r.end2@ == end2@,
            r.alignment@ == alignment@,
            r.tag.spec_tags() == Seq::<TagModel>::empty(),
    {
        Edge {
            id: to_bytes(id),
            sid1: to_bytes(sid1),
            sid2: to_bytes(sid2),
            beg1: to_bytes(beg1),
            end1: to_bytes(end1),
            beg2: to_bytes(beg2),
            end2: to_bytes(end2),
            alignment: to_bytes(alignment),
            tag: T::empty(),
        }
    }
}

impl<T: OptFields> Gap<Vec<u8>, T> {
    pub fn new(id: &[u8], sid1: &[u8], sid2: &[u8], dist: &[u8], var: &[u8]) -> (r: Gap<Vec<u8>, T>)
        ensures
            r.id@ == id@,
            r.sid1@ == sid1@,
            r.sid2@ == sid2@,
            r.dist@ == dist@,
            r.var@ == var@,
            r.tag.spec_tags() == Seq::<TagModel>::empty(),
    {
        Gap {
            id: to_bytes(id),
            sid1: to_bytes(sid1),
            sid2: to_bytes(sid2),
            dist: to_bytes(dist),
            var: to_bytes(var),
            tag: T::empty(),
        }
    }
}

/// The identifiers of a list whose items are separated by `sep`; an item
/// that is no identifier is passed over.
pub open spec fn ids_of<N: SegmentId>(items: Seq<Seq<u8>>) -> Seq<N::V>
    decreases items.len(),
{
    if items.len() == 0 {
        Seq::empty()
    } else {
        (match N::spec_parse_opt_id(items[0]) {
            Ok(x) => seq![x],
            Err(_) => Seq::empty(),
        }) + ids_of::<N>(items.drop_first())
    }
}

pub proof fn lemma_ids_push<N: SegmentId>(items: Seq<Seq<u8>>, x: Seq<u8>)
    ensures
        ids_of::<N>(items.push(x)) == ids_of::<N>(items) + (match N::spec_parse_opt_id(x) {
            Ok(v) => seq![v],
            Err(_) => Seq::empty(),
        }),
    decreases items.len(),
{
    let one = match N::spec_parse_opt_id(x) {
        Ok(v) => seq![v],
        Err(_) => Seq::<N::V>::empty(),
    };
    let p = items.push(x);
    if items.len() == 0 {
        assert(p.drop_first() =~= Seq::<Seq<u8>>::empty());
        assert(p[0] == x);
        assert(ids_of::<N>(p.drop_first()) == Seq::<N::V>::empty());
        assert(ids_of::<N>(items) == Seq::<N::V>::empty());
        assert(one + Seq::<N::V>::empty() =~= Seq::<N::V>::empty() + one);
    } else {
        lemma_ids_push::<N>(items.drop_first(), x);
        assert(p.drop_first() =~= items.drop_first().push(x));
        assert(ids_of::<N>(p) =~= ids_of::<N>(items) + one);
    }
}

impl<N: SegmentId, T: OptFields> GroupO<N, T> {
    pub fn new(id: Vec<u8>, var_field: Vec<u8>, tag: T) -> (r: GroupO<N, T>)
        ensures
            r.id == id,
            r.var_field == var_field,
            r.tag == tag,
    {
        GroupO { id, var_field, tag, _segment_names: std::marker::PhantomData }
    }

    /// The oriented references of the group, read afresh at each call.
    pub fn iter(&self) -> (r: Vec<(N, Orientation)>)
        ensures
            view_steps(r@) == steps::<N>(split_spec(self.var_field@, 32)),
    {
        read_steps(self.var_field.as_slice(), 32)
    }
}

impl<N: SegmentId, T: OptFields> GroupU<N, T> {
    pub fn new(id: Vec<u8>, var_field: Vec<u8>, tag: T) -> (r: GroupU<N, T>)
        ensures
            r.id == id,
            r.var_field == var_field,
            r.tag == tag,
    {
        GroupU { id, var_field, tag, _segment_names: std::marker::PhantomData }
    }

    /// The identifiers of the group, read afresh at each call.
    pub fn iter(&self) -> (r: Vec<N>)
        ensures
            r@.map_values(|x: N| x@) == ids_of::<N>(split_spec(self.var_field@, 32)),
    {
        let items = split_bytes(self.var_field.as_slice(), 32);
        let ghost sp = split_spec(self.var_field@, 32);
        let mut out: Vec<N> = Vec::new();
        let mut i: usize = 0;
        proof {
            assert(sp.take(0) =~= Seq::<Seq<u8>>::empty());
            assert(out@.map_values(|x: N| x@) =~= ids_of::<N>(sp.take(0)));
        }
        while i < items.len()
            invariant
                0 <= i <= items@.len(),
                view_all(items@) == sp,
                out@.map_values(|x: N| x@) == ids_of::<N>(sp.take(i as int)),
            decreases items.len() - i,
        {
            let ghost before = out@.map_values(|x: N| x@);
            proof {
                assert(sp[i as int] == items@[i as int]@);
                assert(sp.take(i + 1) =~= sp.take(i as int).push(sp[i as int]));
                lemma_ids_push::<N>(sp.take(i as int), sp[i as int]);
            }
            match N::parse_opt_id(items[i].as_slice()) {
                Ok(x) => {
                    out.push(x);
                    proof {
                        assert(out@.map_values(|x: N| x@) =~= before.push(x@));
                    }
                },
                Err(_) => {},
            }
            proof {
                assert(out@.map_values(|x: N| x@) =~= ids_of::<N>(sp.take(i + 1)));
            }
            i += 1;
        }
        proof {
            assert(sp.take(i as int) =~= sp);
        }
        out
    }
}

// ---- the collection

pub struct Gfa2Model<I> {
    pub headers: Seq<Header2Model>,
    pub segments: Seq<Segment2Model<I>>,
    pub fragments: Seq<FragmentModel<I>>,
    pub edges: Seq<EdgeModel<I>>,
    pub gaps: Seq<GapModel<I>>,
    pub groups_o: Seq<GroupModel>,
    pub groups_u: Seq<GroupModel>,
}

pub open spec fn empty_gfa2<I>() -> Gfa2Model<I> {
    Gfa2Model {
        headers: Seq::empty(),
        segments: Seq::empty(),
        fragments: Seq::empty(),
        edges: Seq::empty(),
        gaps: Seq::empty(),
        groups_o: Seq::empty(),
        groups_u: Seq::empty(),
    }
}

/// The collection with one more record at the end of its kind.
pub open spec fn gfa2_insert<I>(g: Gfa2Model<I>, l: Line2Model<I>) -> Gfa2Model<I> {
    match l {
        Line2Model::Header(x) => Gfa2Model { headers: g.headers.push(x), ..g },
        Line2Model::Segment(x) => Gfa2Model { segments: g.segments.push(x), ..g },
        Line2Model::Fragment(x) => Gfa2Model { fragments: g.fragments.push(x), ..g },
        Line2Model::Edge(x) => Gfa2Model { edges: g.edges.push(x), ..g },
        Line2Model::Gap(x) => Gfa2Model { gaps: g.gaps.push(x), ..g },
        Line2Model::GroupO(x) => Gfa2Model { groups_o: g.groups_o.push(x), ..g },
        Line2Model::GroupU(x) => Gfa2Model { groups_u: g.groups_u.push(x), ..g },
    }
}

/// The records of a graph in the second dialect, each kind in file order.
#[derive(Debug, PartialEq)]
pub struct GFA2<N, T> {
    pub headers: Vec<Header<T>>,
    pub segments: Vec<Segment<N, T>>,
    pub fragments: Vec<Fragment<N, T>>,
    pub edges: Vec<Edge<N, T>>,
    pub gaps: Vec<Gap<N, T>>,
    pub groups_o: Vec<GroupO<N, T>>,
    pub groups_u: Vec<GroupU<N, T>>,
}

impl<N: SegmentId, T: OptFields> View for GFA2<N, T> {
    type V = Gfa2Model<N::V>;

    open spec fn view(&self) -> Gfa2Model<N::V> {
        Gfa2Model {
            headers: self.headers@.map_values(|x: Header<T>| x@),
            segments: self.segments@.map_values(|x: Segment<N, T>| x@),
            fragments: self.fragments@.map_values(|x: Fragment<N, T>| x@),
            edges: self.edges@.map_values(|x: Edge<N, T>| x@),
            gaps: self.gaps@.map_values(|x: Gap<N, T>| x@),
            groups_o: self.groups_o@.map_values(|x: GroupO<N, T>| x@),
            groups_u: self.groups_u@.map_values(|x: GroupU<N, T>| x@),
        }
    }
}

impl<N: SegmentId, T: OptFields> Default for GFA2<N, T> {
    fn default() -> (r: GFA2<N, T>)
        ensures
            r@ == empty_gfa2::<N::V>(),
    {
        GFA2::new()
    }
}

impl<N: SegmentId, T: OptFields> GFA2<N, T> {
    pub fn new() -> (r: GFA2<N, T>)
        ensures
            r@ == empty_gfa2::<N::V>(),
    {
        let r = GFA2 {
            headers: Vec::new(),
            segments: Vec::new(),
            fragments: Vec::new(),
            edges: Vec::new(),
            gaps: Vec::new(),
            groups_o: Vec::new(),
            groups_u: Vec::new(),
        };
        proof {
            assert(r@.headers =~= Seq::<Header2Model>::empty());
            assert(r@.segments =~= Seq::<Segment2Model<N::V>>::empty());
            assert(r@.fragments =~= Seq::<FragmentModel<N::V>>::empty());
            assert(r@.edges =~= Seq::<EdgeModel<N::V>>::empty());
            assert(r@.gaps =~= Seq::<GapModel<N::V>>::empty());
            assert(r@.groups_o =~= Seq::<GroupModel>::empty());
            assert(r@.groups_u =~= Seq::<GroupModel>::empty());
        }
        r
    }

    /// Pushes a record at the end of its kind; nothing is sorted or merged.
    pub fn insert_line(&mut self, line: Line<N, T>)
        ensures
            final(self)@ == gfa2_insert(old(self)@, line@),
    {
        let ghost l = line@;
        match line {
            Line::Header(x) => {
                self.headers.push(x);
            },
            Line::Segment(x) => {
                self.segments.push(x);
            },
            Line::Fragment(x) => {
                self.fragments.push(x);
            },
            Line::Edge(x) => {
                self.edges.push(x);
            },
            Line::Gap(x) => {
                self.gaps.push(x);
            },
            Line::GroupO(x) => {
                self.groups_o.push(x);
            },
            Line::GroupU(x) => {
                self.groups_u.push(x);
            },
        }
        proof {
            let a = final(self)@;
            let b = gfa2_insert(old(self)@, l);
            assert(a.headers =~= b.headers);
            assert(a.segments =~= b.segments);
            assert(a.fragments =~= b.fragments);
            assert(a.edges =~= b.edges);
            assert(a.gaps =~= b.gaps);
            assert(a.groups_o =~= b.groups_o);
            assert(a.groups_u =~= b.groups_u);
        }
    }

    /// All records: headers, segments, fragments, edges, gaps, then groups.
    pub fn lines_into_iter(self) -> (r: Vec<Line<N, T>>)
        ensures
            r@ == self.headers@.map_values(|x: Header<T>| x.spec_into_line())
                + self.segments@.map_values(|x: Segment<N, T>| x.spec_into_line())
                + self.fragments@.map_values(|x: Fragment<N, T>| x.spec_into_line())
                + self.edges@.map_values(|x: Edge<N, T>| x.spec_into_line())
                + self.gaps@.map_values(|x: Gap<N, T>| x.spec_into_line())
                + self.groups_o@.map_values(|x: GroupO<N, T>| x.spec_into_line())
                + self.groups_u@.map_values(|x: GroupU<N, T>| x.spec_into_line()),
    {
        let GFA2 { headers, segments, fragments, edges, gaps, groups_o, groups_u } = self;
        let mut out: Vec<Line<N, T>> = Vec::new();
        push_lines(&mut out, headers);
        push_lines(&mut out, segments);
        push_lines(&mut out, fragments);
        push_lines(&mut out, edges);
        push_lines(&mut out, gaps);
        push_lines(&mut out, groups_o);
        push_lines(&mut out, groups_u);
        proof {
            assert(out@ =~= Seq::<Line<N, T>>::empty() + self.headers@.map_values(
                |x: Header<T>| x.spec_into_line(),
            ) + self.segments@.map_values(|x: Segment<N, T>| x.spec_into_line())
                + self.fragments@.map_values(|x: Fragment<N, T>| x.spec_into_line())
                + self.edges@.map_values(|x: Edge<N, T>| x.spec_into_line())
                + self.gaps@.map_values(|x: Gap<N, T>| x.spec_into_line())
                + self.groups_o@.map_values(|x: GroupO<N, T>| x.spec_into_line())
                + self.groups_u@.map_values(|x: GroupU<N, T>| x.spec_into_line()));
        }
        out
    }
}

/// A borrowed record of the second dialect.
#[derive(Debug, PartialEq)]
pub enum LineRef<'a, N, T> {
    Header(&'a Header<T>),
    Segment(&'a Segment<N, T>),
    Fragment(&'a Fragment<N, T>),
    Edge(&'a Edge<N, T>),
    Gap(&'a Gap<N, T>),
    GroupO(&'a GroupO<N, T>),
    GroupU(&'a GroupU<N, T>),
}

impl<N, T> GFA2<N, T> {
    /// Borrows all records, in the order of `lines_into_iter`.
    pub fn lines_iter(&self) -> (r: Vec<LineRef<'_, N, T>>)
        ensures
            r@.len() == self.headers@.len() + self.segments@.len() + self.fragments@.len() + self.edges@.len() + self.gaps@.len() + self.groups_o@.len() + self.groups_u@.len(),
            forall|i: int|
                0 <= i < self.headers@.len() ==> r@[0 + i] == LineRef::<N, T>::Header(&self.headers@[i]),
            forall|i: int|
                0 <= i < self.segments@.len() ==> r@[self.headers@.len() + i] == LineRef::<N, T>::Segment(&self.segments@[i]),
            forall|i: int|
                0 <= i < self.fragments@.len() ==> r@[self.headers@.len() + self.segments@.len() + i] == LineRef::<N, T>::Fragment(&self.fragments@[i]),
            forall|i: int|
                0 <= i < self.edges@.len() ==> r@[self.headers@.len() + self.segments@.len() + self.fragments@.len() + i] == LineRef::<N, T>::Edge(&self.edges@[i]),
            forall|i: int|
                0 <= i < self.gaps@.len() ==> r@[self.headers@.len() + self.segments@.len() + self.fragments@.len() + self.edges@.len() + i] == LineRef::<N, T>::Gap(&self.gaps@[i]),
            forall|i: int|
                0 <= i < self.groups_o@.len() ==> r@[self.headers@.len() + self.segments@.len() + self.fragments@.len() + self.edges@.len() + self.gaps@.len() + i] == LineRef::<N, T>::GroupO(&self.groups_o@[i]),
            forall|i: int|
                0 <= i < self.groups_u@.len() ==> r@[self.headers@.len() + self.segments@.len() + self.fragments@.len() + self.edges@.len() + self.gaps@.len() + self.groups_o@.len() + i] == LineRef::<N, T>::GroupU(&self.groups_u@[i]),
    {
        let mut out: Vec<LineRef<'_, N, T>> = Vec::new();
        let mut i: usize = 0;
        while i < self.headers.len()
            invariant
                0 <= i <= self.headers@.len(),
                out@.len() == 0 + i,

                forall|j: int|
                    0 <= j < i ==> out@[0 + j] == LineRef::<N, T>::Header(&self.headers@[j]),
            decreases self.headers.len() - i,
        {
            out.push(LineRef::Header(&self.headers[i]));
            i += 1;
        }
        let mut i: usize = 0;
        while i < self.segments.len()
            invariant
                0 <= i <= self.segments@.len(),
                out@.len() == self.headers@.len() + i,
                forall|j: int|
                    0 <= j < self.headers@.len() ==> out@[0 + j] == LineRef::<N, T>::Header(
                        &self.headers@[j],
                    ),
                forall|j: int|
                    0 <= j < i ==> out@[self.headers@.len() + j] == LineRef::<N, T>::Segment(&self.segments@[j]),
            decreases self.segments.len() - i,
        {
            out.push(LineRef::Segment(&self.segments[i]));
            i += 1;
        }
        let mut i: usize = 0;
        while i < self.fragments.len()
            invariant
                0 <= i <= self.fragments@.len(),
                out@.len() == self.headers@.len() + self.segments@.len() + i,
                forall|j: int|
                    0 <= j < self.headers@.len() ==> out@[0 + j] == LineRef::<N, T>::Header(
                        &self.headers@[j],
                    ),
                forall|j: int|
                    0 <= j < self.segments@.len() ==> out@[self.headers@.len() + j] == LineRef::<N, T>::Segment(
                        &self.segments@[j],
                    ),
                forall|j: int|
                    0 <= j < i ==> out@[self.headers@.len() + self.segments@.len() + j] == LineRef::<N, T>::Fragment(&self.fragments@[j]),
            decreases self.fragments.len() - i,
        {
            out.push(LineRef::Fragment(&self.fragments[i]));
            i += 1;
        }
        let mut i: usize = 0;
        while i < self.edges.len()
            invariant
                0 <= i <= self.edges@.len(),
                out@.len() == self.headers@.len() + self.segments@.len() + self.fragments@.len() + i,
                forall|j: int|
                    0 <= j < self.headers@.len() ==> out@[0 + j] == LineRef::<N, T>::Header(
                        &self.headers@[j],
                    ),
                forall|j: int|
                    0 <= j < self.segments@.len() ==> out@[self.headers@.len() + j] == LineRef::<N, T>::Segment(
                        &self.segments@[j],
                    ),
                forall|j: int|
                    0 <= j < self.fragments@.len() ==> out@[self.headers@.len() + self.segments@.len() + j] == LineRef::<N, T>::Fragment(
                        &self.fragments@[j],
                    ),
                forall|j: int|
                    0 <= j < i ==> out@[self.headers@.len() + self.segments@.len() + self.fragments@.len() + j] == LineRef::<N, T>::Edge(&self.edges@[j]),
            decreases self.edges.len() - i,
        {
            out.push(LineRef::Edge(&self.edges[i]));
            i += 1;
        }
        let mut i: usize = 0;
        while i < self.gaps.len()
            invariant
                0 <= i <= self.gaps@.len(),
                out@.len() == self.headers@.len() + self.segments@.len() + self.fragments@.len() + self.edges@.len() + i,
                forall|j: int|
                    0 <= j < self.headers@.len() ==> out@[0 + j] == LineRef::<N, T>::Header(
                        &self.headers@[j],
                    ),
                forall|j: int|
                    0 <= j < self.segments@.len() ==> out@[self.headers@.len() + j] == LineRef::<N, T>::Segment(
                        &self.segments@[j],
                    ),
                forall|j: int|
                    0 <= j < self.fragments@.len() ==> out@[self.headers@.len() + self.segments@.len() + j] == LineRef::<N, T>::Fragment(
                        &self.fragments@[j],
                    ),
                forall|j: int|
                    0 <= j < self.edges@.len() ==> out@[self.headers@.len() + self.segments@.len() + self.fragments@.len() + j] == LineRef::<N, T>::Edge(
                        &self.edges@[j],
                    ),
                forall|j: int|
                    0 <= j < i ==> out@[self.headers@.len() + self.segments@.len() + self.fragments@.len() + self.edges@.len() + j] == LineRef::<N, T>::Gap(&self.gaps@[j]),
            decreases self.gaps.len() - i,
        {
            out.push(LineRef::Gap(&self.gaps[i]));
            i += 1;
        }
        let mut i: usize = 0;
        while i < self.groups_o.len()
            invariant
                0 <= i <= self.groups_o@.len(),
                out@.len() == self.headers@.len() + self.segments@.len() + self.fragments@.len() + self.edges@.len() + self.gaps@.len() + i,
                forall|j: int|
                    0 <= j < self.headers@.len() ==> out@[0 + j] == LineRef::<N, T>::Header(
                        &self.headers@[j],
                    ),
                forall|j: int|
                    0 <= j < self.segments@.len() ==> out@[self.headers@.len() + j] == LineRef::<N, T>::Segment(
                        &self.segments@[j],
                    ),
                forall|j: int|
                    0 <= j < self.fragments@.len() ==> out@[self.headers@.len() + self.segments@.len() + j] == LineRef::<N, T>::Fragment(
                        &self.fragments@[j],
                    ),
                forall|j: int|
                    0 <= j < self.edges@.len() ==> out@[self.headers@.len() + self.segments@.len() + self.fragments@.len() + j] == LineRef::<N, T>::Edge(
                        &self.edges@[j],
                    ),
                forall|j: int|
                    0 <= j < self.gaps@.len() ==> out@[self.headers@.len() + self.segments@.len() + self.fragments@.len() + self.edges@.len() + j] == LineRef::<N, T>::Gap(
                        &self.gaps@[j],
                    ),
                forall|j: int|
                    0 <= j < i ==> out@[self.headers@.len() + self.segments@.len() + self.fragments@.len() + self.edges@.len() + self.gaps@.len() + j] == LineRef::<N, T>::GroupO(&self.groups_o@[j]),
            decreases self.groups_o.len() - i,
        {
            out.push(LineRef::GroupO(&self.groups_o[i]));
            i += 1;
        }
        let mut i: usize = 0;
        while i < self.groups_u.len()
            invariant
                0 <= i <= self.groups_u@.len(),
                out@.len() == self.headers@.len() + self.segments@.len() + self.fragments@.len() + self.edges@.len() + self.gaps@.len() + self.groups_o@.len() + i,
                forall|j: int|
                    0 <= j < self.headers@.len() ==> out@[0 + j] == LineRef::<N, T>::Header(
                        &self.headers@[j],
                    ),
                forall|j: int|
                    0 <= j < self.segments@.len() ==> out@[self.headers@.len() + j] == LineRef::<N, T>::Segment(
                        &self.segments@[j],
                    ),
                forall|j: int|
                    0 <= j < self.fragments@.len() ==> out@[self.headers@.len() + self.segments@.len() + j] == LineRef::<N, T>::Fragment(
                        &self.fragments@[j],
                    ),
                forall|j: int|
                    0 <= j < self.edges@.len() ==> out@[self.headers@.len() + self.segments@.len() + self.fragments@.len() + j] == LineRef::<N, T>::Edge(
                        &self.edges@[j],
                    ),
                forall|j: int|
                    0 <= j < self.gaps@.len() ==> out@[self.headers@.len() + self.segments@.len() + self.fragments@.len() + self.edges@.len() + j] == LineRef::<N, T>::Gap(
                        &self.gaps@[j],
                    ),
                forall|j: int|
                    0 <= j < self.groups_o@.len() ==> out@[self.headers@.len() + self.segments@.len() + self.fragments@.len() + self.edges@.len() + self.gaps@.len() + j] == LineRef::<N, T>::GroupO(
                        &self.groups_o@[j],
                    ),
                forall|j: int|
                    0 <= j < i ==> out@[self.headers@.len() + self.segments@.len() + self.fragments@.len() + self.edges@.len() + self.gaps@.len() + self.groups_o@.len() + j] == LineRef::<N, T>::GroupU(&self.groups_u@[j]),
            decreases self.groups_u.len() - i,
        {
            out.push(LineRef::GroupU(&self.groups_u[i]));
            i += 1;
        }
        out
    }
}

/// All records of a collection: headers, segments, fragments, edges, gaps,
/// then groups.
pub open spec fn gfa2_lines<I>(g: Gfa2Model<I>) -> Seq<Line2Model<I>> {
    g.headers.map_values(|x: Header2Model| Line2Model::<I>::Header(x)) + g.segments.map_values(
        |x: Segment2Model<I>| Line2Model::Segment(x),
    ) + g.fragments.map_values(|x: FragmentModel<I>| Line2Model::Fragment(x))
        + g.edges.map_values(|x: EdgeModel<I>| Line2Model::Edge(x)) + g.gaps.map_values(
        |x: GapModel<I>| Line2Model::Gap(x),
    ) + g.groups_o.map_values(|x: GroupModel| Line2Model::<I>::GroupO(x))
        + g.groups_u.map_values(|x: GroupModel| Line2Model::<I>::GroupU(x))
}

/// The text of a run of records: each canonical line ended by a newline.
pub open spec fn lines2_text<N: SegmentId>(ls: Seq<Line2Model<N::V>>) -> Seq<u8>
    decreases ls.len(),
{
    if ls.len() == 0 {
        Seq::empty()
    } else {
        lines2_text::<N>(ls.drop_last()) + line2_text::<N>(ls.last()) + seq![10u8]
    }
}

impl<N: SegmentId, T: OptFields> GFA2<N, T> {
    /// The text of the whole collection, a record per line.
    #[verifier::rlimit(30)]
    pub fn to_bytes(&self) -> (r: Vec<u8>)
        ensures
            r@ == lines2_text::<N>(gfa2_lines(self@)),
    {
        let refs = self.lines_iter();
        let ghost ms = refs@.map_values(|l: LineRef<N, T>| l@);
        proof {
            let g = self@;
            let h = self.headers@.len() as int;
            let s = self.segments@.len() as int;
            let f = self.fragments@.len() as int;
            let e = self.edges@.len() as int;
            let gp = self.gaps@.len() as int;
            let o = self.groups_o@.len() as int;
            assert forall|j: int| 0 <= j < ms.len() implies ms[j] == gfa2_lines(g)[j] by {
                if j < h {
                } else if j < h + s {
                    assert(refs@[h + (j - h)] == LineRef::<N, T>::Segment(&self.segments@[j - h]));
                } else if j < h + s + f {
                    assert(refs@[h + s + (j - h - s)] == LineRef::<N, T>::Fragment(
                        &self.fragments@[j - h - s],
                    ));
                } else if j < h + s + f + e {
                    assert(refs@[h + s + f + (j - h - s - f)] == LineRef::<N, T>::Edge(
                        &self.edges@[j - h - s - f],
                    ));
                } else if j < h + s + f + e + gp {
                    assert(refs@[h + s + f + e + (j - h - s - f - e)] == LineRef::<N, T>::Gap(
                        &self.gaps@[j - h - s - f - e],
                    ));
                } else if j < h + s + f + e + gp + o {
                    assert(refs@[h + s + f + e + gp + (j - h - s - f - e - gp)]
                        == LineRef::<N, T>::GroupO(&self.groups_o@[j - h - s - f - e - gp]));
                } else {
                    assert(refs@[h + s + f + e + gp + o + (j - h - s - f - e - gp - o)]
                        == LineRef::<N, T>::GroupU(&self.groups_u@[j - h - s - f - e - gp - o]));
                }
            }
            assert(ms =~= gfa2_lines(g));
        }
        let mut out: Vec<u8> = Vec::new();
        let mut i: usize = 0;
        proof {
            assert(ms.take(0) =~= Seq::<Line2Model<N::V>>::empty());
        }
        while i < refs.len()
            invariant
                0 <= i <= refs@.len(),
                ms == refs@.map_values(|l: LineRef<N, T>| l@),
                out@ == lines2_text::<N>(ms.take(i as int)),
            decreases refs.len() - i,
        {
            let t = refs[i].to_bytes();
            crate::text::push_all(&mut out, t.as_slice());
            out.push(10);
            proof {
                assert(ms.take(i + 1).drop_last() =~= ms.take(i as int));
                assert(ms.take(i + 1).last() == refs@[i as int]@);
                assert(out@ =~= lines2_text::<N>(ms.take(i + 1)));
            }
            i += 1;
        }
        proof {
            assert(ms.take(i as int) =~= ms);
        }
        out
    }
}

impl<N, T> IntoLine<Line<N, T>> for Header<T> {
    open spec fn spec_into_line(self) -> Line<N, T> {
        Line::Header(self)
    }

    fn into_line(self) -> (r: Line<N, T>) {
        Line::Header(self)
    }
}

impl<N, T> IntoLine<Line<N, T>> for Segment<N, T> {
    open spec fn spec_into_line(self) -> Line<N, T> {
        Line::Segment(self)
    }

    fn into_line(self) -> (r: Line<N, T>) {
        Line::Segment(self)
    }
}

impl<N, T> IntoLine<Line<N, T>> for Fragment<N, T> {
    open spec fn spec_into_line(self) -> Line<N, T> {
        Line::Fragment(self)
    }

    fn into_line(self) -> (r: Line<N, T>) {
        Line::Fragment(self)
    }
}

impl<N, T> IntoLine<Line<N, T>> for Edge<N, T> {
    open spec fn spec_into_line(self) -> Line<N, T> {
        Line::Edge(self)
    }

    fn into_line(self) -> (r: Line<N, T>) {
        Line::Edge(self)
    }
}

impl<N, T> IntoLine<Line<N, T>> for Gap<N, T> {
    open spec fn spec_into_line(self) -> Line<N, T> {
        Line::Gap(self)
    }

    fn into_line(self) -> (r: Line<N, T>) {
        Line::Gap(self)
    }
}

impl<N, T> IntoLine<Line<N, T>> for GroupO<N, T> {
    open spec fn spec_into_line(self) -> Line<N, T> {
        Line::GroupO(self)
    }

    fn into_line(self) -> (r: Line<N, T>) {
        Line::GroupO(self)
    }
}

impl<N, T> IntoLine<Line<N, T>> for GroupU<N, T> {
    open spec fn spec_into_line(self) -> Line<N, T> {
        Line::GroupU(self)
    }

    fn into_line(self) -> (r: Line<N, T>) {
        Line::GroupU(self)
    }
}

impl<N, T> Line<N, T> {
    pub fn some_segment(self) -> (r: Option<Segment<N, T>>)
        ensures
            match self {
                Line::Segment(x) => r == Some(x),
                _ => r is None,
            },
    {
        match self {
            Line::Segment(x) => Some(x),
            _ => None,
        }
    }

    pub fn some_edge(self) -> (r: Option<Edge<N, T>>)
        ensures
            match self {
                Line::Edge(x) => r == Some(x),
                _ => r is None,
            },
    {
        match self {
            Line::Edge(x) => Some(x),
            _ => None,
        }
    }
}

} // verus!
