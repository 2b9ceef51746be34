use gfa2::error::{FieldName, ParseFieldError};
use gfa2::segment_id::{get_char_from_code, get_code_from_char, SegmentId};

#[test]
fn can_print_char() {
    let a: &str = "a";
    let a_: i32 = 97;

    assert_eq!(a, get_char_from_code(a_));
    assert_eq!(
        a_,
        get_code_from_char(a).to_string().parse::<i32>().unwrap()
    );
    println!("{} = {}", a, get_char_from_code(a_));
    println!("{} = {}", a_, get_code_from_char(a));
}

#[test]
fn can_parse_string_to_usize() {
    let s = "texthree";
    let my_vec: Vec<char> = s.chars().collect();
    let mut res: String = "".to_string();
    let len = s.len();
    let mut x = 0;
    while x < len {
        res = format!(
            "{}{}",
            res,
            &get_code_from_char(&my_vec[x].to_string()).to_string()
        );
        x += 1;
    }
    match res.len() {
        1..=20 => println!("{}\n{}", res, res.len()),
        _ => println!("Error! the conversion of the string into usize exceeds the maximum length (20 digits)"),
    }
}

#[test]
fn can_parse_big_id() {
    let s = "s148227";
    let my_vec: Vec<char> = s.chars().collect();
    let mut res: String = "".to_string();
    let len = s.len();
    let mut x = 0;
    while x < len {
        res = format!(
            "{}{}",
            res,
            &get_code_from_char(&my_vec[x].to_string()).to_string()
        );
        x += 1;
    }
    match res.len() {
        1..=20 => println!("{}\n{}", res, res.len()),
        _ => println!("Error! the conversion of the string into usize exceeds the maximum length (20 digits)"),
    }
}

#[test]
fn code_of_digit_is_its_value() {
    assert_eq!(get_code_from_char("7"), 7);
    assert_eq!(get_code_from_char("*"), 42);
    assert_eq!(get_code_from_char("A"), 65);
    assert_eq!(get_code_from_char("12"), 12);
    assert_eq!(get_code_from_char("+5"), 5);
    assert_eq!(get_code_from_char("+"), 43);
    assert_eq!(get_code_from_char("NUL"), 0);
    assert_eq!(get_code_from_char("US"), 31);
    assert_eq!(get_code_from_char("DEL"), 127);
}

#[test]
fn char_of_code_printable_control_and_out_of_range() {
    assert_eq!(get_char_from_code(65), "A");
    assert_eq!(get_char_from_code(32), " ");
    assert_eq!(get_char_from_code(126), "~");
    assert_eq!(get_char_from_code(0), "NUL");
    assert_eq!(get_char_from_code(127), "DEL");
    assert_eq!(get_char_from_code(31), "US");
    assert_eq!(get_char_from_code(10), "LF");
    assert_eq!(get_char_from_code(200), "");
    assert_eq!(get_char_from_code(-1), "");
}

#[test]
fn dense_id_of_digits_is_the_number() {
    assert_eq!(<usize as SegmentId>::parse_id(b"11"), Ok(11));
    assert_eq!(<usize as SegmentId>::parse_id(b"0"), Ok(0));
}

#[test]
fn dense_id_of_letters_uses_ascii_codes() {
    // s = 115, then the digits themselves
    assert_eq!(<usize as SegmentId>::parse_id(b"s148227"), Ok(115148227));
    assert_eq!(<usize as SegmentId>::parse_id(b"A1"), Ok(651));
}

#[test]
fn dense_id_is_deterministic() {
    let a = <usize as SegmentId>::parse_id(b"ctg_12");
    let b = <usize as SegmentId>::parse_id(b"ctg_12");
    assert_eq!(a, b);
    assert!(a.is_ok());
}

#[test]
fn dense_placeholder_is_reserved() {
    assert_eq!(<usize as SegmentId>::parse_opt_id(b"*"), Ok(usize::MAX));
    assert_eq!(<usize as SegmentId>::parse_opt_id(b"*"), Ok(usize::MAX));
    // the name 42 keeps its own number
    assert_eq!(<usize as SegmentId>::parse_opt_id(b"42"), Ok(42));
    assert_eq!(<usize as SegmentId>::parse_id(b"*"), Ok(42));
    // the name that would reach the placeholder's number is refused
    assert_eq!(
        <usize as SegmentId>::parse_opt_id(b"18446744073709551615"),
        Err(ParseFieldError::EncodingOverflow)
    );
    let mut out = Vec::new();
    usize::MAX.render(&mut out);
    assert_eq!(out, b"*".to_vec());
}

#[test]
fn dense_id_too_long_overflows() {
    // eleven letters take at least twenty-two digits
    assert_eq!(
        <usize as SegmentId>::parse_id(b"abcdefghijk"),
        Err(ParseFieldError::EncodingOverflow)
    );
    // twenty-one digits
    assert_eq!(
        <usize as SegmentId>::parse_id(b"123456789012345678901"),
        Err(ParseFieldError::EncodingOverflow)
    );
}

#[test]
fn dense_id_twenty_digits_past_the_word_overflows() {
    assert_eq!(
        <usize as SegmentId>::parse_id(b"99999999999999999999"),
        Err(ParseFieldError::EncodingOverflow)
    );
}

#[test]
fn dense_id_below_placeholder_fits() {
    assert_eq!(
        <usize as SegmentId>::parse_id(b"18446744073709551614"),
        Ok(18446744073709551614usize)
    );
    assert_eq!(
        <usize as SegmentId>::parse_id(b"18446744073709551615"),
        Err(ParseFieldError::EncodingOverflow)
    );
}

#[test]
fn dense_ref_appends_orientation_digit() {
    assert_eq!(<usize as SegmentId>::parse_ref(b"12+"), Ok(120));
    assert_eq!(<usize as SegmentId>::parse_ref(b"12-"), Ok(121));
    assert_eq!(
        <usize as SegmentId>::parse_ref(b"12"),
        Err(ParseFieldError::InvalidField(FieldName::Id))
    );
}

#[test]
fn dense_render_reads_back() {
    let mut out = Vec::new();
    121usize.render_ref(&mut out);
    assert_eq!(out, b"12-".to_vec());
    let mut out = Vec::new();
    651usize.render(&mut out);
    assert_eq!(<usize as SegmentId>::parse_id(&out), Ok(651));
}

#[test]
fn opaque_id_rejects_empty_and_spaces() {
    assert_eq!(
        <Vec<u8> as SegmentId>::parse_id(b""),
        Err(ParseFieldError::InvalidField(FieldName::Id))
    );
    assert_eq!(
        <Vec<u8> as SegmentId>::parse_id(b"a b"),
        Err(ParseFieldError::InvalidField(FieldName::Id))
    );
    assert_eq!(<Vec<u8> as SegmentId>::parse_id(b"seg_1"), Ok(b"seg_1".to_vec()));
    assert_eq!(<Vec<u8> as SegmentId>::parse_ref(b"2+"), Ok(b"2+".to_vec()));
}

#[test]
fn field_names_read_as_text() {
    assert_eq!(FieldName::SegmentNames.as_str(), "Segment names");
    assert_eq!(FieldName::Id.as_str(), "Id");
    assert_eq!(FieldName::References.as_str(), "References");
}
