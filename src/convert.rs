//! Turning records of the first dialect into the second, and the file
//! extensions that the parsers accept.
use vstd::prelude::*;
use crate::gfa1;
use crate::gfa2;
use crate::tag::{OptFields, OptionalFields};
use crate::text::{decimal, one_byte, push_decimal, to_bytes};

verus! {

/// `gfa` or `gfa2`: the file extensions that the parsers accept.
pub open spec fn is_supported_extension(ext: Seq<u8>) -> bool {
    ext == seq![103u8, 102u8, 97u8] || ext == seq![103u8, 102u8, 97u8, 50u8]
}

pub fn extension_supported(ext: &[u8]) -> (r: bool)
    ensures
        r == is_supported_extension(ext@),
{
    let n = ext.len();
    let r = (n == 3 || (n == 4 && ext[3] == 50)) && ext[0] == 103 && ext[1] == 102 && ext[2] == 97;
    proof {
        if n == 3 && r {
            assert(ext@ =~= seq![103u8, 102u8, 97u8]);
        }
        if n == 4 && r {
            assert(ext@ =~= seq![103u8, 102u8, 97u8, 50u8]);
        }
    }
    r
}

/// `s` with every comma turned into a space.
pub open spec fn commas_to_spaces(s: Seq<u8>) -> Seq<u8> {
    Seq::new(s.len(), |i: int| if s[i] == 44 { 32u8 } else { s[i] })
}

/// What a record of the first dialect becomes in the second: a header becomes
/// the version 2.0 header without tags; a segment keeps its name, sequence and
/// tags and gets its length; a link becomes an edge without identifier whose
/// ends are placeholders; a path becomes an ordered group; a containment has
/// no counterpart.
pub open spec fn spec_convert(l: gfa1::Line<Vec<u8>, OptionalFields>) -> Option<
    gfa2::Line2Model<Seq<u8>>,
> {
    match l {
        gfa1::Line::Header(_) => Some(
            gfa2::Line2Model::Header(
                gfa2::Header2Model { version: Some(gfa2::version2()), tags: Seq::empty() },
            ),
        ),
        gfa1::Line::Segment(s) => Some(
            gfa2::Line2Model::Segment(
                gfa2::Segment2Model {
                    id: s.name@,
                    len: decimal(s.sequence@.len()),
                    sequence: s.sequence@,
                    tags: s.optional.spec_tags(),
                },
            ),
        ),
        gfa1::Line::Link(x) => Some(
            gfa2::Line2Model::Edge(
                gfa2::EdgeModel {
                    id: seq![42u8],
                    sid1: x.from_segment@.push(x.from_orient.spec_byte()),
                    sid2: x.to_segment@.push(x.to_orient.spec_byte()),
                    beg1: seq![48u8],
                    end1: seq![48u8, 36u8],
                    beg2: seq![48u8],
                    end2: seq![48u8, 36u8],
                    alignment: x.overlap@,
                    tags: x.optional.spec_tags(),
                },
            ),
        ),
        gfa1::Line::Containment(_) => None,
        gfa1::Line::Path(p) => Some(
            gfa2::Line2Model::GroupO(
                gfa2::GroupModel {
                    id: p.path_name@,
                    var_field: commas_to_spaces(p.segment_names@),
                    tags: p.optional.spec_tags(),
                },
            ),
        ),
    }
}

fn bytes_of(a: u8, b: u8) -> (r: Vec<u8>)
    ensures
        r@ == seq![a, b],
{
    let mut v: Vec<u8> = Vec::new();
    v.push(a);
    v.push(b);
    proof {
        assert(v@ =~= seq![a, b]);
    }
    v
}

fn with_orient(id: &Vec<u8>, o: &crate::orientation::Orientation) -> (r: Vec<u8>)
    ensures
        r@ == id@.push(o.spec_byte()),
{
    let mut v = to_bytes(id.as_slice());
    v.push(o.to_byte());
    v
}

fn spaces(s: &Vec<u8>) -> (r: Vec<u8>)
    ensures
        r@ == commas_to_spaces(s@),
{
    let mut out: Vec<u8> = Vec::new();
    let mut i: usize = 0;
    while i < s.len()
        invariant
            0 <= i <= s@.len(),
            out@ == commas_to_spaces(s@).take(i as int),
        decreases s.len() - i,
    {
        out.push(if s[i] == 44 { 32 } else { s[i] });
        proof {
            assert(out@ =~= commas_to_spaces(s@).take(i + 1));
        }
        i += 1;
    }
    proof {
        assert(out@ =~= commas_to_spaces(s@));
    }
    out
}

/// Converts one record of the first dialect into the second.
pub fn convert_line(l: gfa1::Line<Vec<u8>, OptionalFields>) -> (r: Option<
    gfa2::Line<Vec<u8>, OptionalFields>,
>)
    ensures
        match r {
            Some(x) => spec_convert(l) == Some(x@),
            None => spec_convert(l) is None,
        },
{
    match l {
        gfa1::Line::Header(_) => {
            Some(gfa2::Line::Header(gfa2::Header::default()))
        },
        gfa1::Line::Segment(s) => {
            let mut len: Vec<u8> = Vec::new();
            push_decimal(&mut len, s.sequence.len() as u64);
            proof {
                assert(len@ =~= decimal(s.sequence@.len()));
            }
            Some(
                gfa2::Line::Segment(
                    gfa2::Segment { id: s.name, len, sequence: s.sequence, tag: s.optional },
                ),
            )
        },
        gfa1::Line::Link(x) => {
            let sid1 = with_orient(&x.from_segment, &x.from_orient);
            let sid2 = with_orient(&x.to_segment, &x.to_orient);
            Some(
                gfa2::Line::Edge(
                    gfa2::Edge {
                        id: one_byte(42),
                        sid1,
                        sid2,
                        beg1: one_byte(48),
                        end1: bytes_of(48, 36),
                        beg2: one_byte(48),
                        end2: bytes_of(48, 36),
                        alignment: x.overlap,
                        tag: x.optional,
                    },
                ),
            )
        },
        gfa1::Line::Containment(_) => None,
        gfa1::Line::Path(p) => {
            let members = spaces(&p.segment_names);
            Some(gfa2::Line::GroupO(gfa2::GroupO::new(p.path_name, members, p.optional)))
        },
    }
}

} // verus!
