use gfa2::convert::{convert_line, extension_supported};
use gfa2::parser_gfa1::GFAParser;
use gfa2::error::{FieldName, ParseError, ParseFieldError, ParserTolerance};
use gfa2::gfa2::{Edge, GroupO, GroupU, Line, GFA2};
use gfa2::orientation::Orientation;
use gfa2::parser_gfa2::GFA2Parser;
use gfa2::tag::OptionalFields;

fn lines(s: &[&str]) -> Vec<Vec<u8>> {
    s.iter().map(|x| x.as_bytes().to_vec()).collect()
}

#[test]
fn u_group_usize_iter() {
    let ugroup_: GroupU<usize, ()> = GroupU::new(b"1".to_vec(), b"16 24".to_vec(), ());
    for name in ugroup_.iter() {
        println!("{}", name);
    }
    assert_eq!(ugroup_.iter(), vec![16, 24]);
}

#[test]
fn u_group_usize_iter_compound() {
    let ugroup_: GroupU<usize, ()> =
        GroupU::new(b"SG1".to_vec(), b"16 24 SG2 51_24 16_24".to_vec(), ());
    for name in ugroup_.iter() {
        println!("{}", name);
    }
    assert_eq!(ugroup_.iter(), vec![16, 24, 83712, 519524, 169524]);
}

#[test]
fn o_group_usize_iter_compound() {
    let ogroup_: GroupO<usize, ()> = GroupO::new(
        b"P1".to_vec(),
        b"36+ 53+ 53_38+ 38_13+ 13+ 14+ 50-".to_vec(),
        (),
    );
    for (name, orientation) in ogroup_.iter() {
        println!("{}{:?}", name, orientation);
    }
    assert_eq!(ogroup_.iter().len(), 7);
    assert_eq!(ogroup_.iter()[6], (50, Orientation::Backward));
}

#[test]
fn o_group_usize_iter() {
    let ogroup_: GroupO<usize, ()> = GroupO::new(b"1".to_vec(), b"A+ X+ B+".to_vec(), ());
    for (name, orientation) in ogroup_.iter() {
        println!("{}{:?}", name, orientation);
    }
    assert_eq!(
        ogroup_.iter(),
        vec![
            (65, Orientation::Forward),
            (88, Orientation::Forward),
            (66, Orientation::Forward)
        ]
    );
}

#[test]
fn second_dialect_every_kind() {
    let data = lines(&[
        "H\tVN:Z:2.0",
        "S\tA\t10\tAAAAAAACGT",
        "F\t15\tr1-\t10\t10$\t20\t20\t*",
        "E\t*\t2+\t45+\t2531\t2591$\t0\t60\t60M",
        "G\tg1\t7+\t22+\t10\t*",
        "O\tP1\t36+ 53+ 53_38+",
        "U\tSG1\t16 24 SG2",
    ]);
    let parser: GFA2Parser<Vec<u8>, OptionalFields> = GFA2Parser::new();
    let g: GFA2<Vec<u8>, OptionalFields> = parser.parse_lines(&data).unwrap();
    assert_eq!(g.headers.len(), 1);
    assert_eq!(g.segments.len(), 1);
    assert_eq!(g.fragments.len(), 1);
    assert_eq!(g.edges.len(), 1);
    assert_eq!(g.gaps.len(), 1);
    assert_eq!(g.groups_o.len(), 1);
    assert_eq!(g.groups_u.len(), 1);
    assert_eq!(g.edges[0].sid1, b"2+".to_vec());
    let texts: Vec<Vec<u8>> = g.lines_into_iter().iter().map(|l| l.to_bytes()).collect();
    assert_eq!(texts, data);
}

#[test]
fn second_dialect_round_trip_dense() {
    let parser: GFA2Parser<usize, ()> = GFA2Parser::new();
    let line = parser
        .parse_gfa_line(b"E\t*\t2+\t45-\t2531\t2591$\t0\t60\t60M")
        .unwrap();
    match &line {
        Line::Edge(e) => {
            assert_eq!(e.id, usize::MAX);
            assert_eq!(e.sid1, 20);
            assert_eq!(e.sid2, 451);
        }
        _ => panic!("not an edge"),
    }
    let text = line.to_bytes();
    assert_eq!(text, b"E\t*\t2+\t45-\t2531\t2591$\t0\t60\t60M".to_vec());
    assert_eq!(parser.parse_gfa_line(&text).unwrap(), line);
}

#[test]
fn second_dialect_errors() {
    let parser: GFA2Parser<Vec<u8>, ()> = GFA2Parser::with_tolerance(ParserTolerance::Pedantic);
    assert_eq!(
        parser.parse_gfa_line(b"S\tA\tten\tACGT").unwrap_err(),
        ParseError::InvalidLine(
            ParseFieldError::InvalidField(FieldName::Length),
            b"S\tA\tten\tACGT".to_vec()
        )
    );
    assert_eq!(
        parser.parse_gfa_line(b"E\t*\t2\t45+\t0\t1\t0\t1\t*").unwrap_err(),
        ParseError::InvalidLine(
            ParseFieldError::InvalidField(FieldName::Id),
            b"E\t*\t2\t45+\t0\t1\t0\t1\t*".to_vec()
        )
    );
    assert_eq!(
        parser.parse_gfa_line(b"E\t*\t2+\t45+\t0\tx\t0\t1\t*").unwrap_err(),
        ParseError::InvalidLine(
            ParseFieldError::InvalidField(FieldName::Position),
            b"E\t*\t2+\t45+\t0\tx\t0\t1\t*".to_vec()
        )
    );
    assert_eq!(
        parser.parse_gfa_line(b"G\tg\t7+\t22+\t1.5\t*").unwrap_err(),
        ParseError::InvalidLine(
            ParseFieldError::InvalidField(FieldName::Distance),
            b"G\tg\t7+\t22+\t1.5\t*".to_vec()
        )
    );
    assert_eq!(
        parser.parse_gfa_line(b"O\tP1\t36 53+").unwrap_err(),
        ParseError::InvalidLine(
            ParseFieldError::InvalidField(FieldName::References),
            b"O\tP1\t36 53+".to_vec()
        )
    );
    let data = lines(&["S\tA\t1\tA", "Q\tx", "S\tB\t1\tC"]);
    assert!(parser.parse_lines(&data).is_err());
    let ignore: GFA2Parser<Vec<u8>, ()> = GFA2Parser::with_tolerance(ParserTolerance::IgnoreAll);
    assert_eq!(ignore.parse_lines(&data).unwrap().segments.len(), 2);
}

#[test]
fn edge_constructor() {
    let e: Edge<Vec<u8>, ()> = Edge::new(b"*", b"2+", b"45+", b"2531", b"2591$", b"0", b"60", b"60M");
    assert_eq!(
        Line::Edge(e).to_bytes(),
        b"E\t*\t2+\t45+\t2531\t2591$\t0\t60\t60M".to_vec()
    );
}

#[test]
fn convert_first_dialect_records() {
    let parser: GFAParser<Vec<u8>, OptionalFields> = GFAParser::new();
    let conv = |s: &[u8]| convert_line(parser.parse_gfa_line(s).unwrap()).map(|l| l.to_bytes());
    assert_eq!(conv(b"H\tVN:Z:1.0"), Some(b"H\tVN:Z:2.0".to_vec()));
    assert_eq!(conv(b"S\t11\tACCTT\tLN:i:5"), Some(b"S\t11\t5\tACCTT\tLN:i:5".to_vec()));
    assert_eq!(
        conv(b"L\t11\t+\t12\t-\t4M"),
        Some(b"E\t*\t11+\t12-\t0\t0$\t0\t0$\t4M".to_vec())
    );
    assert_eq!(conv(b"C\t1\t-\t2\t+\t110\t100M"), None);
    assert_eq!(conv(b"P\t14\t11+,12-,13+\t4M,5M"), Some(b"O\t14\t11+ 12- 13+".to_vec()));
}

#[test]
fn file_extensions() {
    assert!(extension_supported(b"gfa"));
    assert!(extension_supported(b"gfa2"));
    assert!(!extension_supported(b"gfa3"));
    assert!(!extension_supported(b"txt"));
    assert!(!extension_supported(b""));
}

#[test]
fn second_collection_text() {
    let data = lines(&["U\tSG1\t16 24", "S\tA\t4\tACGT", "H\tVN:Z:2.0"]);
    let parser: GFA2Parser<Vec<u8>, ()> = GFA2Parser::new();
    let g = parser.parse_lines(&data).unwrap();
    assert_eq!(
        g.to_bytes(),
        b"H\tVN:Z:2.0\nS\tA\t4\tACGT\nU\tSG1\t16 24\n".to_vec()
    );
}
