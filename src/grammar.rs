//! The grammars of single fields: sequences, CIGAR strings, reference
//! lists, positions, alignments and decimal numbers.
use vstd::prelude::*;
use crate::segment_id::is_ref;
use crate::text::{
    check_name, check_number, digits_value, is_digit, is_name, is_number, parse_digits,
    split_bytes, split_spec, view_all,
};

verus! {

/// The placeholder `*`.
pub open spec fn is_star(s: Seq<u8>) -> bool {
    s.len() == 1 && s[0] == 42
}

pub open spec fn is_seq_char(b: u8) -> bool {
    (65 <= b <= 90) || (97 <= b <= 122) || b == 61 || b == 46
}

/// `*` or `[A-Za-z=.]+`
pub open spec fn is_sequence(s: Seq<u8>) -> bool {
    is_star(s) || (s.len() > 0 && forall|i: int| 0 <= i < s.len() ==> is_seq_char(#[trigger] s[i]))
}

/// A CIGAR operation: `[MIDNSHPX=]`, or `[MDIP]` in the second dialect.
pub open spec fn is_op(b: u8, v2: bool) -> bool {
    if v2 {
        b == 77 || b == 68 || b == 73 || b == 80
    } else {
        b == 77 || b == 73 || b == 68 || b == 78 || b == 83 || b == 72 || b == 80 || b == 88 || b
            == 61
    }
}

/// `([0-9]+<op>)+`: digits and operations only, starting with a digit,
/// ending with an operation, every operation right after a digit.
pub open spec fn is_cigar(s: Seq<u8>, v2: bool) -> bool {
    &&& s.len() > 0
    &&& is_digit(s[0])
    &&& is_op(s.last(), v2)
    &&& forall|i: int| 0 <= i < s.len() ==> is_digit(#[trigger] s[i]) || is_op(s[i], v2)
    &&& forall|i: int| 0 < i < s.len() && is_op(#[trigger] s[i], v2) ==> is_digit(s[i - 1])
}

/// `*` or a CIGAR string.
pub open spec fn is_overlap(s: Seq<u8>) -> bool {
    is_star(s) || is_cigar(s, false)
}

/// `*` or CIGAR strings separated by commas.
pub open spec fn is_overlap_list(s: Seq<u8>) -> bool {
    is_star(s) || forall|i: int|
        0 <= i < split_spec(s, 44).len() ==> is_cigar(#[trigger] split_spec(s, 44)[i], false)
}

/// Oriented references separated by `sep`.
pub open spec fn is_ref_list(s: Seq<u8>, sep: u8) -> bool {
    forall|i: int| 0 <= i < split_spec(s, sep).len() ==> is_ref(#[trigger] split_spec(s, sep)[i])
}

/// Names separated by `sep`.
pub open spec fn is_name_list(s: Seq<u8>, sep: u8) -> bool {
    forall|i: int| 0 <= i < split_spec(s, sep).len() ==> is_name(#[trigger] split_spec(s, sep)[i])
}

/// `-?[0-9]+`
pub open spec fn is_int_field(s: Seq<u8>) -> bool {
    if s.len() > 0 && s[0] == 45 {
        is_number(s.drop_first())
    } else {
        is_number(s)
    }
}

/// `-?[0-9]+\$?`: a position, `$` marking the end of the segment.
pub open spec fn is_pos(s: Seq<u8>) -> bool {
    if s.len() > 0 && s.last() == 36 {
        is_int_field(s.drop_last())
    } else {
        is_int_field(s)
    }
}

/// `*` or `-?[0-9]+`
pub open spec fn is_variance(s: Seq<u8>) -> bool {
    is_star(s) || is_int_field(s)
}

/// `*`, a CIGAR string, or a trace: integers separated by commas.
pub open spec fn is_alignment(s: Seq<u8>) -> bool {
    is_star(s) || is_cigar(s, true) || forall|i: int|
        0 <= i < split_spec(s, 44).len() ==> is_int_field(#[trigger] split_spec(s, 44)[i])
}

/// `\+?[0-9]+` read as a `usize`, as `str::parse` does.
pub open spec fn spec_parse_usize(s: Seq<u8>) -> Option<usize> {
    let d = if s.len() > 0 && s[0] == 43 {
        s.drop_first()
    } else {
        s
    };
    if is_number(d) && digits_value(d) <= usize::MAX {
        Some(digits_value(d) as usize)
    } else {
        None
    }
}

pub fn check_star(s: &[u8]) -> (r: bool)
    ensures
        r == is_star(s@),
{
    s.len() == 1 && s[0] == 42
}

pub fn check_sequence(s: &[u8]) -> (r: bool)
    ensures
        r == is_sequence(s@),
{
    if check_star(s) {
        return true;
    }
    if s.len() == 0 {
        return false;
    }
    let mut i: usize = 0;
    while i < s.len()
        invariant
            0 <= i <= s@.len(),
            !is_star(s@),
            forall|j: int| 0 <= j < i ==> is_seq_char(#[trigger] s@[j]),
        decreases s.len() - i,
    {
        let c = s[i];
        if !((c >= 65 && c <= 90) || (c >= 97 && c <= 122) || c == 61 || c == 46) {
            proof {
                assert(!is_seq_char(s@[i as int]));
            }
            return false;
        }
        i += 1;
    }
    true
}

fn op_exec(b: u8, v2: bool) -> (r: bool)
    ensures
        r == is_op(b, v2),
{
    if v2 {
        b == 77 || b == 68 || b == 73 || b == 80
    } else {
        b == 77 || b == 73 || b == 68 || b == 78 || b == 83 || b == 72 || b == 80 || b == 88 || b
            == 61
    }
}

pub fn check_cigar(s: &[u8], v2: bool) -> (r: bool)
    ensures
        r == is_cigar(s@, v2),
{
    let n = s.len();
    if n == 0 || s[0] < 48 || s[0] > 57 || !op_exec(s[n - 1], v2) {
        return false;
    }
    let mut i: usize = 0;
    while i < n
        invariant
            0 <= i <= n,
            n == s@.len(),
            n > 0,
            forall|j: int| 0 <= j < i ==> is_digit(#[trigger] s@[j]) || is_op(s@[j], v2),
            forall|j: int| 0 < j < i && is_op(#[trigger] s@[j], v2) ==> is_digit(s@[j - 1]),
        decreases n - i,
    {
        let c = s[i];
        let digit = c >= 48 && c <= 57;
        let op = op_exec(c, v2);
        if !digit && !op {
            return false;
        }
        if op && i > 0 && (s[i - 1] < 48 || s[i - 1] > 57) {
            return false;
        }
        i += 1;
    }
    true
}

pub fn check_overlap(s: &[u8]) -> (r: bool)
    ensures
        r == is_overlap(s@),
{
    check_star(s) || check_cigar(s, false)
}

pub fn check_overlap_list(s: &[u8]) -> (r: bool)
    ensures
        r == is_overlap_list(s@),
{
    if check_star(s) {
        return true;
    }
    let items = split_bytes(s, 44);
    let ghost sp = split_spec(s@, 44);
    let mut i: usize = 0;
    while i < items.len()
        invariant
            0 <= i <= items@.len(),
            view_all(items@) == sp,
            sp == split_spec(s@, 44),
            !is_star(s@),
            forall|j: int| 0 <= j < i ==> is_cigar(#[trigger] sp[j], false),
        decreases items.len() - i,
    {
        proof {
            assert(sp[i as int] == items@[i as int]@);
        }
        if !check_cigar(items[i].as_slice(), false) {
            return false;
        }
        i += 1;
    }
    true
}

pub fn check_ref_list(s: &[u8], sep: u8) -> (r: bool)
    ensures
        r == is_ref_list(s@, sep),
{
    let items = split_bytes(s, sep);
    let ghost sp = split_spec(s@, sep);
    let mut i: usize = 0;
    while i < items.len()
        invariant
            0 <= i <= items@.len(),
            view_all(items@) == sp,
            sp == split_spec(s@, sep),
            forall|j: int| 0 <= j < i ==> is_ref(#[trigger] sp[j]),
        decreases items.len() - i,
    {
        proof {
            assert(sp[i as int] == items@[i as int]@);
        }
        let it = &items[i];
        let n = it.len();
        if n < 2 || !check_name(it.as_slice()) || (it[n - 1] != 43 && it[n - 1] != 45) {
            return false;
        }
        i += 1;
    }
    true
}

pub fn check_name_list(s: &[u8], sep: u8) -> (r: bool)
    ensures
        r == is_name_list(s@, sep),
{
    let items = split_bytes(s, sep);
    let ghost sp = split_spec(s@, sep);
    let mut i: usize = 0;
    while i < items.len()
        invariant
            0 <= i <= items@.len(),
            view_all(items@) == sp,
            sp == split_spec(s@, sep),
            forall|j: int| 0 <= j < i ==> is_name(#[trigger] sp[j]),
        decreases items.len() - i,
    {
        proof {
            assert(sp[i as int] == items@[i as int]@);
        }
        if !check_name(items[i].as_slice()) {
            return false;
        }
        i += 1;
    }
    true
}

/// The bytes of `s` from `a` to `b`.
pub fn slice_copy(s: &[u8], a: usize, b: usize) -> (r: Vec<u8>)
    requires
        a <= b <= s@.len(),
    ensures
        r@ == s@.subrange(a as int, b as int),
{
    let mut out: Vec<u8> = Vec::new();
    let mut i: usize = a;
    while i < b
        invariant
            a <= i <= b,
            b <= s@.len(),
            out@ == s@.subrange(a as int, i as int),
        decreases b - i,
    {
        out.push(s[i]);
        proof {
            assert(s@.subrange(a as int, i + 1) =~= s@.subrange(a as int, i as int).push(
                s@[i as int],
            ));
        }
        i += 1;
    }
    out
}

pub fn check_int_field(s: &[u8]) -> (r: bool)
    ensures
        r == is_int_field(s@),
{
    if s.len() > 0 && s[0] == 45 {
        let t = slice_copy(s, 1, s.len());
        proof {
            assert(t@ =~= s@.drop_first());
        }
        check_number(t.as_slice())
    } else {
        check_number(s)
    }
}

pub fn check_pos(s: &[u8]) -> (r: bool)
    ensures
        r == is_pos(s@),
{
    let n = s.len();
    if n > 0 && s[n - 1] == 36 {
        let t = slice_copy(s, 0, n - 1);
        proof {
            assert(t@ =~= s@.drop_last());
        }
        check_int_field(t.as_slice())
    } else {
        check_int_field(s)
    }
}

pub fn check_variance(s: &[u8]) -> (r: bool)
    ensures
        r == is_variance(s@),
{
    check_star(s) || check_int_field(s)
}

pub fn check_alignment(s: &[u8]) -> (r: bool)
    ensures
        r == is_alignment(s@),
{
    if check_star(s) || check_cigar(s, true) {
        return true;
    }
    let items = split_bytes(s, 44);
    let ghost sp = split_spec(s@, 44);
    let mut i: usize = 0;
    while i < items.len()
        invariant
            0 <= i <= items@.len(),
            view_all(items@) == sp,
            sp == split_spec(s@, 44),
            !is_star(s@),
            !is_cigar(s@, true),
            forall|j: int| 0 <= j < i ==> is_int_field(#[trigger] sp[j]),
        decreases items.len() - i,
    {
        proof {
            assert(sp[i as int] == items@[i as int]@);
        }
        if !check_int_field(items[i].as_slice()) {
            return false;
        }
        i += 1;
    }
    true
}

/// Reads a decimal `usize` as `str::parse` does: an optional `+`, then digits.
pub fn parse_usize(s: &[u8]) -> (r: Option<usize>)
    ensures
        r == spec_parse_usize(s@),
{
    let d = if s.len() > 0 && s[0] == 43 {
        slice_copy(s, 1, s.len())
    } else {
        slice_copy(s, 0, s.len())
    };
    proof {
        if s@.len() > 0 && s@[0] == 43 {
            assert(d@ =~= s@.drop_first());
        } else {
            assert(d@ =~= s@);
        }
    }
    if !check_number(d.as_slice()) {
        return None;
    }
    match parse_digits(d.as_slice()) {
        None => None,
        Some(v) => {
            if v > usize::MAX as u64 {
                None
            } else {
                Some(v as usize)
            }
        },
    }
}

} // verus!
