use gfa2::error::{FieldName, ParseError, ParseFieldError, ParserTolerance};
use gfa2::gfa1::{Containment, Header, Line, Link, Path, Segment, GFA};
use gfa2::orientation::Orientation;
use gfa2::parser_gfa1::{GFAParser, GFAParserBuilder, GFAParserLineIter};
use gfa2::tag::{IntArrayType, OptField, OptFieldVal, OptionalFields};

fn fields(s: &str) -> Vec<Vec<u8>> {
    s.split('\t').map(|x| x.as_bytes().to_vec()).collect()
}

fn lines(s: &[&str]) -> Vec<Vec<u8>> {
    s.iter().map(|x| x.as_bytes().to_vec()).collect()
}

#[test]
fn path_iter() {
    let path: Path<Vec<u8>, ()> =
        Path::new(b"14".to_vec(), b"11+,12-,13+".to_vec(), b"4M,5M".to_vec(), ());

    let steps = path.iter();
    let mut path_iter = steps.into_iter();
    assert_eq!(Some((b"11".to_vec(), Orientation::Forward)), path_iter.next());
    assert_eq!(Some((b"12".to_vec(), Orientation::Backward)), path_iter.next());
    assert_eq!(Some((b"13".to_vec(), Orientation::Forward)), path_iter.next());
    assert_eq!(None, path_iter.next());
}

#[test]
fn can_parse_header() {
    let hdr = fields("VN:Z:1.0");
    let hdr_: Header<()> = Header {
        version: Some(b"VN:Z:1.0".to_vec()),
        optional: (),
    };

    let result = Header::<()>::parse_line(&hdr, 0);

    match result {
        Err(_) => {
            panic!("Error parsing header");
        }
        Ok(h) => assert_eq!(h, hdr_),
    }
}

#[test]
fn can_parse_link() {
    let link = "11	+	12	-	4M";
    let link_: Link<Vec<u8>, ()> = Link {
        from_segment: b"11".to_vec(),
        from_orient: Orientation::Forward,
        to_segment: b"12".to_vec(),
        to_orient: Orientation::Backward,
        overlap: b"4M".to_vec(),
        optional: (),
    };

    let result = Link::<Vec<u8>, ()>::parse_line(&fields(link), 0);

    match result {
        Err(_) => {
            panic!("Error parsing link");
        }
        Ok(l) => assert_eq!(l, link_),
    }
}

#[test]
fn can_parse_containment() {
    let cont = "1\t-\t2\t+\t110\t100M";

    let cont_: Containment<Vec<u8>, ()> = Containment {
        container_name: b"1".to_vec(),
        container_orient: Orientation::Backward,
        contained_name: b"2".to_vec(),
        contained_orient: Orientation::Forward,
        overlap: b"100M".to_vec(),
        pos: 110,
        optional: (),
    };

    let result = Containment::<Vec<u8>, ()>::parse_line(&fields(cont), 0);
    match result {
        Err(_) => {
            panic!("Error parsing containment");
        }
        Ok(c) => assert_eq!(c, cont_),
    }
}

#[test]
fn can_parse_path() {
    let path = "14\t11+,12-,13+\t4M,5M";

    let path_: Path<Vec<u8>, ()> =
        Path::new(b"14".to_vec(), b"11+,12-,13+".to_vec(), b"4M,5M".to_vec(), ());

    let result = Path::<Vec<u8>, ()>::parse_line(&fields(path), 0);
    match result {
        Err(_) => {
            panic!("Error parsing path");
        }
        Ok(p) => {
            println!("{}", String::from_utf8_lossy(&p.to_bytes()));
            assert_eq!(p, path_)
        }
    }
}

#[test]
fn segment_parser() {
    let name = "11";
    let seq = "ACCTT";
    let segment_bytes = "11\tACCTT\tLN:i:123\tSH:H:AACCFF05\tRC:i:123\tUR:Z:http://test.com/\tIJ:A:x\tAB:B:I1,2,3,52124";
    let f = fields(segment_bytes);

    let optional_fields: Vec<_> = vec![
        OptField::new(b"LN", OptFieldVal::Int(123)),
        OptField::new(b"SH", OptFieldVal::H(vec![0xAA, 0xCC, 0xFF, 0x05])),
        OptField::new(b"RC", OptFieldVal::Int(123)),
        OptField::new(b"UR", OptFieldVal::Z(b"http://test.com/".to_vec())),
        OptField::new(b"IJ", OptFieldVal::A(b'x')),
        OptField::new(b"AB", OptFieldVal::BInt(IntArrayType::U32, vec![1, 2, 3, 52124])),
    ];

    let segment_1 = Segment::<Vec<u8>, ()>::parse_line(&f, 0);

    assert!(segment_1.is_ok());
    assert_eq!(
        Segment {
            name: name.as_bytes().to_vec(),
            sequence: seq.as_bytes().to_vec(),
            optional: ()
        },
        segment_1.unwrap(),
    );

    let segment_2: Segment<Vec<u8>, OptionalFields> =
        Segment::parse_line(&f, 0).unwrap();

    assert_eq!(segment_2.name, name.as_bytes().to_vec());
    assert_eq!(segment_2.sequence, seq.as_bytes().to_vec());
    assert_eq!(segment_2.optional, optional_fields);
}

#[test]
fn segment_line_fields() {
    let parser: GFAParser<Vec<u8>, OptionalFields> = GFAParser::new();
    let line = parser.parse_gfa_line(b"S\t11\tACCTT").unwrap();
    let seg = line.some_segment().unwrap();
    assert_eq!(seg.name, b"11".to_vec());
    assert_eq!(seg.sequence, b"ACCTT".to_vec());
    assert!(seg.optional.is_empty());
}

#[test]
fn link_line_fields() {
    let parser: GFAParser<Vec<u8>, ()> = GFAParser::new();
    let line = parser.parse_gfa_line(b"L\t11\t+\t12\t-\t4M").unwrap();
    let l = line.some_link().unwrap();
    assert_eq!(l.from_segment, b"11".to_vec());
    assert_eq!(l.from_orient, Orientation::Forward);
    assert_eq!(l.to_segment, b"12".to_vec());
    assert_eq!(l.to_orient, Orientation::Backward);
    assert_eq!(l.overlap, b"4M".to_vec());
}

#[test]
fn path_line_steps() {
    let parser: GFAParser<Vec<u8>, ()> = GFAParser::new();
    let line = parser.parse_gfa_line(b"P\t14\t11+,12-,13+\t4M,5M").unwrap();
    let p = line.some_path().unwrap();
    assert_eq!(
        p.iter(),
        vec![
            (b"11".to_vec(), Orientation::Forward),
            (b"12".to_vec(), Orientation::Backward),
            (b"13".to_vec(), Orientation::Forward),
        ]
    );
    // reading the steps again gives the same steps
    assert_eq!(p.iter().len(), 3);
}

#[test]
fn path_steps_with_dense_ids() {
    let p: Path<usize, ()> = Path::new(b"p".to_vec(), b"11+,12-".to_vec(), b"*".to_vec(), ());
    assert_eq!(
        p.iter(),
        vec![(11, Orientation::Forward), (12, Orientation::Backward)]
    );
}

#[test]
fn trailing_whitespace_is_trimmed() {
    let parser: GFAParser<Vec<u8>, ()> = GFAParser::new();
    let line = parser.parse_gfa_line(b"  S\t11\tACCTT\r\n").unwrap();
    assert_eq!(line.some_segment().unwrap().sequence, b"ACCTT".to_vec());
}

#[test]
fn field_errors() {
    let parser: GFAParser<Vec<u8>, ()> = GFAParser::new();
    let e = parser.parse_gfa_line(b"S\t11").unwrap_err();
    assert_eq!(e, ParseError::InvalidLine(ParseFieldError::MissingFields, b"S\t11".to_vec()));
    let e = parser.parse_gfa_line(b"S\t11\tAC1T").unwrap_err();
    assert_eq!(
        e,
        ParseError::InvalidLine(
            ParseFieldError::InvalidField(FieldName::Sequence),
            b"S\t11\tAC1T".to_vec()
        )
    );
    let e = parser.parse_gfa_line(b"L\t11\tx\t12\t-\t4M").unwrap_err();
    assert_eq!(
        e,
        ParseError::InvalidLine(
            ParseFieldError::InvalidField(FieldName::Orientation),
            b"L\t11\tx\t12\t-\t4M".to_vec()
        )
    );
    let e = parser.parse_gfa_line(b"L\t11\t+\t12\t-\t4Q").unwrap_err();
    assert_eq!(
        e,
        ParseError::InvalidLine(
            ParseFieldError::InvalidField(FieldName::Overlap),
            b"L\t11\t+\t12\t-\t4Q".to_vec()
        )
    );
    let e = parser.parse_gfa_line(b"C\t1\t-\t2\t+\tx10\t100M").unwrap_err();
    assert_eq!(
        e,
        ParseError::InvalidLine(ParseFieldError::IntParseError, b"C\t1\t-\t2\t+\tx10\t100M".to_vec())
    );
    let e = parser.parse_gfa_line(b"P\t14\t11,12-\t4M").unwrap_err();
    assert_eq!(
        e,
        ParseError::InvalidLine(
            ParseFieldError::InvalidField(FieldName::SegmentNames),
            b"P\t14\t11,12-\t4M".to_vec()
        )
    );
    assert_eq!(parser.parse_gfa_line(b"").unwrap_err(), ParseError::EmptyLine);
    assert_eq!(parser.parse_gfa_line(b"X\tfoo").unwrap_err(), ParseError::UnknownLineType);
}

#[test]
fn dense_overflow_is_fatal_for_every_tolerance() {
    let data = lines(&["S\tabcdefghijk\tA", "S\t1\tA"]);
    let mut b = GFAParserBuilder::all();
    b.ignore_errors();
    let parser: GFAParser<usize, ()> = b.build();
    let r = parser.parse_lines(&data);
    assert_eq!(
        r.unwrap_err(),
        ParseError::InvalidLine(ParseFieldError::EncodingOverflow, b"S\tabcdefghijk\tA".to_vec())
    );
}

#[test]
fn unknown_kind_skipped_or_fatal() {
    let data = lines(&["S\t1\tA", "X\tfoo", "S\t2\tC"]);
    let mut b = GFAParserBuilder::all();
    b.ignore_errors();
    let ignore: GFAParser<Vec<u8>, ()> = b.build();
    let g = ignore.parse_lines(&data).unwrap();
    assert_eq!(g.segments.len(), 2);

    let mut b = GFAParserBuilder::all();
    b.pedantic_errors();
    let pedantic: GFAParser<Vec<u8>, ()> = b.build();
    assert_eq!(pedantic.parse_lines(&data).unwrap_err(), ParseError::UnknownLineType);
}

#[test]
fn tolerance_with_one_malformed_line() {
    let data = lines(&["S\t1\tA", "L\t1\t+\t2\t-\tbad", "S\t2\tC"]);
    let mut b = GFAParserBuilder::all();
    b.error_tolerance(ParserTolerance::Pedantic);
    let pedantic: GFAParser<Vec<u8>, ()> = b.build();
    assert!(pedantic.parse_lines(&data).is_err());

    b.error_tolerance(ParserTolerance::IgnoreAll);
    let ignore: GFAParser<Vec<u8>, ()> = b.build();
    let g = ignore.parse_lines(&data).unwrap();
    assert_eq!(g.segments.len(), 2);
    assert_eq!(g.links.len(), 0);

    // a bad field is not a safe error
    b.error_tolerance(ParserTolerance::Safe);
    let safe: GFAParser<Vec<u8>, ()> = b.build();
    assert!(safe.parse_lines(&data).is_err());

    // an empty line is
    let data = lines(&["S\t1\tA", "   ", "S\t2\tC"]);
    assert_eq!(safe.parse_lines(&data).unwrap().segments.len(), 2);
}

#[test]
fn switched_off_kind_reads_as_unknown() {
    let mut b = GFAParserBuilder::none();
    b.segments(true);
    let parser: GFAParser<Vec<u8>, ()> = b.build();
    assert!(parser.parse_gfa_line(b"S\t1\tA").is_ok());
    assert_eq!(
        parser.parse_gfa_line(b"L\t1\t+\t2\t-\t*").unwrap_err(),
        ParseError::UnknownLineType
    );
    let mut b = GFAParserBuilder::all();
    b.links(false);
    let parser: GFAParser<Vec<u8>, ()> = b.build_bstr_id();
    assert_eq!(
        parser.parse_gfa_line(b"L\t1\t+\t2\t-\t*").unwrap_err(),
        ParseError::UnknownLineType
    );
}

#[test]
fn lines_keep_file_order() {
    let data = lines(&[
        "H\tVN:Z:1.0",
        "S\t11\tACCTT",
        "S\t12\tTCAAGG",
        "L\t11\t+\t12\t-\t4M",
        "C\t11\t+\t12\t-\t2\t3M",
        "P\t14\t11+,12-\t4M",
    ]);
    let parser: GFAParser<Vec<u8>, OptionalFields> = GFAParser::new();
    let g: GFA<Vec<u8>, OptionalFields> = parser.parse_lines(&data).unwrap();
    assert_eq!(g.headers.len(), 1);
    assert_eq!(g.segments[1].name, b"12".to_vec());
    let all = g.lines_into_iter();
    assert_eq!(all.len(), 6);
    let texts: Vec<Vec<u8>> = all.iter().map(|l| l.to_bytes()).collect();
    assert_eq!(texts, data);
}

#[test]
fn usize_line_iter_gives_dense_names() {
    let data = lines(&["S\t1\tA", "S\t2\tC", "L\t1\t+\t2\t+\t*", "S\t3\tG"]);
    let parser: GFAParser<usize, ()> = GFAParserBuilder::all().build_usize_id();
    let mut it = GFAParserLineIter::from_parser(parser, data);
    let mut names = Vec::new();
    while let Some(r) = it.next_line() {
        if let Some(s) = r.unwrap().some_segment() {
            names.push(s.name);
        }
    }
    assert_eq!(names, vec![1, 2, 3]);
}

#[test]
fn round_trip_every_first_dialect_kind() {
    let data = lines(&[
        "H\tVN:Z:1.0\tab:i:-3",
        "S\t11\tACCTT\tLN:i:5\tSH:H:0AFF",
        "L\t11\t+\t12\t-\t4M\tRC:B:I1,2",
        "C\t1\t-\t2\t+\t110\t100M",
        "P\t14\t11+,12-,13+\t4M,5M\tfl:f:1.5",
    ]);
    let parser: GFAParser<Vec<u8>, OptionalFields> = GFAParser::new();
    for raw in &data {
        let line = parser.parse_gfa_line(raw).unwrap();
        let text = line.to_bytes();
        assert_eq!(&text, raw);
        let again = parser.parse_gfa_line(&text).unwrap();
        assert_eq!(again, line);
        assert_eq!(again.to_bytes(), text);
    }
}

#[test]
fn round_trip_dense_ids() {
    let parser: GFAParser<usize, ()> = GFAParser::new();
    let line = parser.parse_gfa_line(b"L\tA\t+\t12\t-\t*").unwrap();
    let text = line.to_bytes();
    assert_eq!(text, b"L\t65\t+\t12\t-\t*".to_vec());
    assert_eq!(parser.parse_gfa_line(&text).unwrap(), line);
}

#[test]
fn header_without_version() {
    let parser: GFAParser<Vec<u8>, OptionalFields> = GFAParser::new();
    let line = parser.parse_gfa_line(b"H\tab:i:1").unwrap();
    match line {
        Line::Header(h) => {
            assert_eq!(h.version, None);
            assert_eq!(h.optional.len(), 1);
        }
        _ => panic!("not a header"),
    }
    let h: Header<()> = Header::new(None);
    assert_eq!(h.to_bytes(), b"H".to_vec());
}

#[test]
fn insert_line_pushes_in_order() {
    let mut g: GFA<Vec<u8>, ()> = GFA::new();
    g.insert_line(Line::Segment(Segment::new(b"a", b"AC")));
    g.insert_line(Line::Segment(Segment::new(b"b", b"GT")));
    g.insert_line(Line::Link(Link::new(b"a", Orientation::Forward, b"b", Orientation::Backward, b"*")));
    assert_eq!(g.segments.len(), 2);
    assert_eq!(g.segments[0].name, b"a".to_vec());
    assert_eq!(g.links.len(), 1);
}

#[test]
fn lines_iter_borrows_in_order() {
    let data = lines(&["S\t1\tA", "H\tVN:Z:1.0", "L\t1\t+\t2\t-\t*", "S\t2\tC"]);
    let parser: GFAParser<usize, ()> = GFAParser::new();
    let g = parser.parse_lines(&data).unwrap();
    let refs = g.lines_iter();
    assert_eq!(refs.len(), 4);
    let names: Vec<usize> = refs
        .into_iter()
        .filter_map(|l| l.some_segment())
        .map(|s| s.name)
        .collect();
    assert_eq!(names, vec![1, 2]);
}

fn small_graph() -> Vec<Vec<u8>> {
    let mut text: Vec<String> = vec!["H\tVN:Z:1.0".to_string()];
    for i in 1..=15 {
        text.push(format!("S\t{}\tACGT", i));
        if i > 1 {
            text.push(format!("L\t{}\t+\t{}\t-\t4M", i - 1, i));
        }
    }
    text.push("P\t14\t1+,2-,3+\t4M,5M".to_string());
    text.iter().map(|x| x.as_bytes().to_vec()).collect()
}

#[test]
fn gfa_line_ref_iter() {
    let parser: GFAParser<usize, ()> = GFAParser::new();
    let gfa = parser.parse_lines(&small_graph()).unwrap();
    let gfa_lineref = gfa.lines_iter();

    for line in gfa_lineref {
        let seg = line.some_segment();
        println!("{:?}", seg);
    }
}

#[test]
fn gfa_parser_line_iter() {
    let parser: GFAParser<usize, ()> = GFAParser::new();
    let parser_iter = GFAParserLineIter::from_parser(parser, small_graph());
    let mut it = parser_iter;
    let mut segment_names = Vec::new();
    while let Some(line) = it.next_line() {
        if let Ok(line) = line {
            if let Some(seg) = line.some_segment() {
                segment_names.push(seg.name);
            }
        }
    }

    assert_eq!(segment_names, (1..=15).into_iter().collect::<Vec<_>>());
}

#[test]
fn collection_text_groups_kinds() {
    let data = lines(&["S\t1\tA", "H\tVN:Z:1.0", "L\t1\t+\t2\t-\t*", "S\t2\tC"]);
    let parser: GFAParser<Vec<u8>, ()> = GFAParser::new();
    let g = parser.parse_lines(&data).unwrap();
    assert_eq!(
        g.to_bytes(),
        b"H\tVN:Z:1.0\nS\t1\tA\nS\t2\tC\nL\t1\t+\t2\t-\t*\n".to_vec()
    );
}

#[test]
fn header_without_version_reads_first_text_tag_as_version() {
    let parser: GFAParser<Vec<u8>, OptionalFields> = GFAParser::new();
    let h: Header<OptionalFields> = Header {
        version: None,
        optional: vec![
            OptField::parse(b"VN:Z:1.0").unwrap(),
            OptField::parse(b"ab:i:2").unwrap(),
        ],
    };
    let text = h.to_bytes();
    assert_eq!(text, b"H\tVN:Z:1.0\tab:i:2".to_vec());
    let back = parser.parse_gfa_line(&text).unwrap();
    match &back {
        Line::Header(b) => {
            assert_eq!(b.version, Some(b"VN:Z:1.0".to_vec()));
            assert_eq!(b.optional.len(), 1);
        }
        _ => panic!("not a header"),
    }
    assert_eq!(back.to_bytes(), text);
}

#[test]
fn trailing_space_of_text_tag_is_trimmed_only_by_line_reading() {
    let parser: GFAParser<Vec<u8>, OptionalFields> = GFAParser::new();
    let raw = b"S\t11\tACCTT\tUR:Z:a ";
    let kept = parser.parse_fields(raw, raw).unwrap();
    assert_eq!(kept.to_bytes(), raw.to_vec());
    let trimmed = parser.parse_gfa_line(raw).unwrap();
    assert_eq!(trimmed.to_bytes(), b"S\t11\tACCTT\tUR:Z:a".to_vec());
}
