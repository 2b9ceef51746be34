use gfa2::tag::{IntArrayType, OptField, OptFieldVal, OptFields, OptionalFields};

fn render(f: &OptField) -> Vec<u8> {
    let mut out = Vec::new();
    f.render(&mut out);
    out
}

#[test]
fn tag_int_value() {
    let f = OptField::parse(b"LN:i:123").unwrap();
    assert_eq!(f.tag, *b"LN");
    assert_eq!(f.value, OptFieldVal::Int(123));
}

#[test]
fn tag_uint_array_value() {
    let f = OptField::parse(b"AB:B:I1,2,3").unwrap();
    assert_eq!(f.tag, *b"AB");
    assert_eq!(f.value, OptFieldVal::BInt(IntArrayType::U32, vec![1, 2, 3]));
}

#[test]
fn tag_each_type() {
    assert_eq!(OptField::parse(b"IJ:A:x").unwrap().value, OptFieldVal::A(b'x'));
    assert_eq!(
        OptField::parse(b"SH:H:AACCFF05").unwrap().value,
        OptFieldVal::H(vec![0xAA, 0xCC, 0xFF, 0x05])
    );
    assert_eq!(
        OptField::parse(b"UR:Z:http://test.com/").unwrap().value,
        OptFieldVal::Z(b"http://test.com/".to_vec())
    );
    assert_eq!(
        OptField::parse(b"fl:f:-1.5e10").unwrap().value,
        OptFieldVal::Float(b"-1.5e10".to_vec())
    );
    assert_eq!(
        OptField::parse(b"js:J:{\"a\": 1}").unwrap().value,
        OptFieldVal::J(b"{\"a\": 1}".to_vec())
    );
    assert_eq!(
        OptField::parse(b"ar:B:c-128,127").unwrap().value,
        OptFieldVal::BInt(IntArrayType::I8, vec![-128, 127])
    );
    assert_eq!(
        OptField::parse(b"ar:B:f1.0,.5").unwrap().value,
        OptFieldVal::BFloat(vec![b"1.0".to_vec(), b".5".to_vec()])
    );
    assert_eq!(
        OptField::parse(b"ng:i:-9223372036854775808").unwrap().value,
        OptFieldVal::Int(i64::MIN)
    );
}

#[test]
fn tag_rejects_malformed() {
    assert!(OptField::parse(b"LN:i:12a").is_none());
    assert!(OptField::parse(b"LN:i:").is_none());
    assert!(OptField::parse(b"L:i:1").is_none());
    assert!(OptField::parse(b"LN:q:1").is_none());
    assert!(OptField::parse(b"LN-i:1").is_none());
    assert!(OptField::parse(b"AA:A:xy").is_none());
    assert!(OptField::parse(b"HH:H:ABC").is_none());
    assert!(OptField::parse(b"HH:H:AG").is_none());
    assert!(OptField::parse(b"ar:B:c128").is_none());
    assert!(OptField::parse(b"ar:B:C-1").is_none());
    assert!(OptField::parse(b"ar:B:I").is_none());
    assert!(OptField::parse(b"ar:B:q1").is_none());
    assert!(OptField::parse(b"fl:f:1.").is_none());
    assert!(OptField::parse(b"fl:f:1e").is_none());
    assert!(OptField::parse(b"ZZ:Z:").is_none());
    assert!(OptField::parse(b"LN:i:9223372036854775808").is_none());
}

#[test]
fn tag_round_trip_each_type() {
    let tokens: Vec<&[u8]> = vec![
        b"LN:i:123",
        b"LN:i:-7",
        b"IJ:A:x",
        b"SH:H:AACCFF05",
        b"UR:Z:http://test.com/",
        b"fl:f:-1.5e10",
        b"js:J:[1,2]",
        b"AB:B:I1,2,3,52124",
        b"ar:B:s-5,6",
        b"ar:B:f1.0,2.5",
    ];
    for t in tokens {
        let f = OptField::parse(t).unwrap();
        let text = render(&f);
        assert_eq!(text, t.to_vec());
        assert_eq!(OptField::parse(&text), Some(f));
    }
}

#[test]
fn tag_canonical_form() {
    // a leading plus sign and lower-case hex come back canonical
    let f = OptField::parse(b"LN:i:+5").unwrap();
    assert_eq!(render(&f), b"LN:i:5".to_vec());
    let h = OptField::parse(b"SH:H:0aff").unwrap();
    assert_eq!(render(&h), b"SH:H:0AFF".to_vec());
    assert_eq!(OptField::parse(&render(&h)), Some(h));
}

#[test]
fn captured_fields_keep_order_and_duplicates() {
    let tokens: Vec<Vec<u8>> = vec![
        b"LN:i:1".to_vec(),
        b"bad".to_vec(),
        b"LN:i:2".to_vec(),
    ];
    let tags: OptionalFields = OptFields::parse(&tokens, 0);
    assert_eq!(tags.len(), 2);
    assert_eq!(tags[0].value, OptFieldVal::Int(1));
    assert_eq!(tags[1].value, OptFieldVal::Int(2));
    let mut out = Vec::new();
    tags.render(&mut out);
    assert_eq!(out, vec![b"LN:i:1".to_vec(), b"LN:i:2".to_vec()]);
}

#[test]
fn discarded_fields_render_nothing() {
    let tokens: Vec<Vec<u8>> = vec![b"LN:i:1".to_vec()];
    let tags: () = OptFields::parse(&tokens, 0);
    let mut out: Vec<Vec<u8>> = Vec::new();
    tags.render(&mut out);
    assert!(out.is_empty());
}
