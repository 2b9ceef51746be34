//! Identifier strategies: the name kept as bytes, or a dense integer made
//! from the codes of its bytes; each reads bare names, names that may be
//! `*`, and references with an orientation.
use vstd::prelude::*;
use crate::error::{FieldName, ParseFieldError};
use crate::grammar::{parse_usize, spec_parse_usize};
use vstd::string::StringSliceAdditionalSpecFns;
use crate::text::{
    all_digits, check_name, decimal, digits_value, is_digit, is_graphic, is_name, is_number,
    lemma_decimal_digits, lemma_decimal_len, parse_digits, pow10, push_all, push_decimal,
};

verus! {

/// The most digits that a dense identifier may take.
pub const MAX_CODE_DIGITS: usize = 20;

/// The code of one byte: a digit stands for itself, any other byte for the
/// decimal digits of its ASCII value. Distinct names may share a code
/// (`A` and `65` both give 65), so dense identifiers can collide.
pub open spec fn code_of(b: u8) -> Seq<u8> {
    if is_digit(b) {
        seq![b]
    } else {
        decimal(b as nat)
    }
}

/// The codes of the bytes of `s`, one after another.
pub open spec fn code_seq(s: Seq<u8>) -> Seq<u8>
    decreases s.len(),
{
    if s.len() == 0 {
        Seq::empty()
    } else {
        code_seq(s.drop_last()) + code_of(s.last())
    }
}

/// The dense identifier of the placeholder `*`. No name reaches it: a name
/// whose code would stand for it is refused like any code too long.
pub open spec fn placeholder_id() -> usize {
    usize::MAX
}

/// The number that a run of code digits stands for, unless it is too long
/// or reaches the placeholder's number.
pub open spec fn dense_from_code(c: Seq<u8>) -> Result<usize, ParseFieldError> {
    if c.len() > MAX_CODE_DIGITS || digits_value(c) >= placeholder_id() {
        Err(ParseFieldError::EncodingOverflow)
    } else {
        Ok(digits_value(c) as usize)
    }
}

/// `[!-~]+[+-]`: a name with its orientation as the last byte.
pub open spec fn is_ref(s: Seq<u8>) -> bool {
    s.len() >= 2 && is_name(s) && (s.last() == 43 || s.last() == 45)
}

/// The digit that a dense reference ends in: `0` for `+`, `1` for `-`.
pub open spec fn orient_digit(b: u8) -> u8 {
    if b == 43 {
        48u8
    } else {
        49u8
    }
}

pub open spec fn dense_id(s: Seq<u8>) -> Result<usize, ParseFieldError> {
    if !is_name(s) {
        Err(ParseFieldError::InvalidField(FieldName::Id))
    } else {
        dense_from_code(code_seq(s))
    }
}

/// An identifier that may be the placeholder `*`.
pub open spec fn dense_opt_id(s: Seq<u8>) -> Result<usize, ParseFieldError> {
    if s == seq![42u8] {
        Ok(placeholder_id())
    } else {
        dense_id(s)
    }
}

pub open spec fn dense_ref(s: Seq<u8>) -> Result<usize, ParseFieldError> {
    if !is_ref(s) {
        Err(ParseFieldError::InvalidField(FieldName::Id))
    } else {
        dense_from_code(code_seq(s.drop_last()).push(orient_digit(s.last())))
    }
}

pub open spec fn opaque_id(s: Seq<u8>) -> Result<Seq<u8>, ParseFieldError> {
    if is_name(s) {
        Ok(s)
    } else {
        Err(ParseFieldError::InvalidField(FieldName::Id))
    }
}

pub open spec fn opaque_ref(s: Seq<u8>) -> Result<Seq<u8>, ParseFieldError> {
    if is_ref(s) {
        Ok(s)
    } else {
        Err(ParseFieldError::InvalidField(FieldName::Id))
    }
}

/// The view of a parse result.
pub open spec fn view_result<X: View>(r: Result<X, ParseFieldError>) -> Result<X::V, ParseFieldError> {
    match r {
        Ok(x) => Ok(x@),
        Err(e) => Err(e),
    }
}

/// How the identifiers of a graph are held: as the bytes of the name, or as
/// a dense integer computed from them.
pub trait SegmentId: Sized + View {
    /// What `parse_id` gives on a bare identifier.
    spec fn spec_parse_id(input: Seq<u8>) -> Result<Self::V, ParseFieldError>;

    /// What `parse_opt_id` gives on an identifier that may be `*`.
    spec fn spec_parse_opt_id(input: Seq<u8>) -> Result<Self::V, ParseFieldError>;

    /// What `parse_ref` gives on an identifier followed by `+` or `-`.
    spec fn spec_parse_ref(input: Seq<u8>) -> Result<Self::V, ParseFieldError>;

    /// The text of a bare identifier.
    spec fn spec_render(v: Self::V) -> Seq<u8>;

    /// The text of a reference, orientation included.
    spec fn spec_render_ref(v: Self::V) -> Seq<u8>;

    /// The identifiers that a bare name can give.
    spec fn spec_valid_id(v: Self::V) -> bool;

    /// The identifiers that a name that may be `*` can give.
    spec fn spec_valid_opt_id(v: Self::V) -> bool;

    /// The identifiers that a reference can give.
    spec fn spec_valid_ref(v: Self::V) -> bool;

    fn parse_id(input: &[u8]) -> (r: Result<Self, ParseFieldError>)
        ensures
            view_result(r) == Self::spec_parse_id(input@),
    ;

    fn parse_opt_id(input: &[u8]) -> (r: Result<Self, ParseFieldError>)
        ensures
            view_result(r) == Self::spec_parse_opt_id(input@),
    ;

    fn parse_ref(input: &[u8]) -> (r: Result<Self, ParseFieldError>)
        ensures
            view_result(r) == Self::spec_parse_ref(input@),
    ;

    fn render(&self, out: &mut Vec<u8>)
        ensures
            final(out)@ == old(out)@ + Self::spec_render(self@),
    ;

    fn render_ref(&self, out: &mut Vec<u8>)
        ensures
            final(out)@ == old(out)@ + Self::spec_render_ref(self@),
    ;

    /// What reading gives is a valid identifier.
    proof fn lemma_parsed_valid(input: Seq<u8>)
        ensures
            Self::spec_parse_id(input) is Ok ==> Self::spec_valid_id(
                Self::spec_parse_id(input)->Ok_0,
            ),
            Self::spec_parse_opt_id(input) is Ok ==> Self::spec_valid_opt_id(
                Self::spec_parse_opt_id(input)->Ok_0,
            ),
            Self::spec_parse_ref(input) is Ok ==> Self::spec_valid_ref(
                Self::spec_parse_ref(input)->Ok_0,
            ),
    ;

    /// A valid identifier is written as a name that reads back to it.
    proof fn lemma_id_round_trip(v: Self::V)
        requires
            Self::spec_valid_id(v),
        ensures
            is_name(Self::spec_render(v)),
            Self::spec_parse_id(Self::spec_render(v)) == Ok::<Self::V, ParseFieldError>(v),
            Self::spec_parse_opt_id(Self::spec_render(v)) == Ok::<Self::V, ParseFieldError>(v),
    ;

    /// An identifier that may be the placeholder is written as a name that
    /// reads back to it.
    proof fn lemma_opt_id_round_trip(v: Self::V)
        requires
            Self::spec_valid_opt_id(v),
        ensures
            is_name(Self::spec_render(v)),
            Self::spec_parse_opt_id(Self::spec_render(v)) == Ok::<Self::V, ParseFieldError>(v),
    ;

    /// A valid reference is written as a name that reads back to it.
    proof fn lemma_ref_round_trip(v: Self::V)
        requires
            Self::spec_valid_ref(v),
        ensures
            is_ref(Self::spec_render_ref(v)),
            Self::spec_parse_ref(Self::spec_render_ref(v)) == Ok::<Self::V, ParseFieldError>(v),
    ;
}

pub proof fn lemma_code_of_digits(b: u8)
    ensures
        is_number(code_of(b)),
{
    lemma_decimal_digits(b as nat);
}

pub proof fn lemma_code_seq_digits(s: Seq<u8>)
    ensures
        all_digits(code_seq(s)),
        code_seq(s).len() >= s.len(),
    decreases s.len(),
{
    if s.len() > 0 {
        lemma_code_seq_digits(s.drop_last());
        lemma_code_of_digits(s.last());
        let a = code_seq(s.drop_last());
        let b = code_of(s.last());
        assert forall|i: int| 0 <= i < (a + b).len() implies is_digit(#[trigger] (a + b)[i]) by {
            if i >= a.len() {
                assert((a + b)[i] == b[i - a.len()]);
            }
        }
    }
}

/// A run of digits is its own code.
pub proof fn lemma_code_seq_of_digits(s: Seq<u8>)
    requires
        all_digits(s),
    ensures
        code_seq(s) == s,
    decreases s.len(),
{
    if s.len() > 0 {
        lemma_code_seq_of_digits(s.drop_last());
        assert(is_digit(s.last()));
        assert(s.drop_last().push(s.last()) =~= s);
        assert(s.drop_last() + seq![s.last()] =~= s);
    }
}

proof fn lemma_pow10_20()
    ensures
        pow10(20) == 100000000000000000000nat,
{
    reveal_with_fuel(pow10, 21);
}

proof fn lemma_pow10_19()
    ensures
        pow10(19) == 10000000000000000000nat,
{
    reveal_with_fuel(pow10, 20);
}

/// Appends the codes of the first `n` bytes of `input`.
fn push_codes(out: &mut Vec<u8>, input: &[u8], n: usize)
    requires
        n <= input@.len(),
    ensures
        final(out)@ == old(out)@ + code_seq(input@.take(n as int)),
{
    let mut i: usize = 0;
    proof {
        assert(input@.take(0) =~= Seq::<u8>::empty());
        assert(old(out)@ + Seq::<u8>::empty() =~= old(out)@);
    }
    while i < n
        invariant
            0 <= i <= n,
            n <= input@.len(),
            out@ == old(out)@ + code_seq(input@.take(i as int)),
        decreases n - i,
    {
        let b = input[i];
        let ghost before = out@;
        if b >= 48 && b <= 57 {
            out.push(b);
        } else {
            push_decimal(out, b as u64);
        }
        proof {
            assert(input@.take(i + 1).drop_last() =~= input@.take(i as int));
            assert(input@.take(i + 1).last() == b);
            assert(out@ =~= before + code_of(b));
            assert(out@ =~= old(out)@ + code_seq(input@.take(i + 1)));
        }
        i += 1;
    }
}

/// The number for a run of code digits.
fn dense_value(code: &Vec<u8>) -> (r: Result<usize, ParseFieldError>)
    requires
        is_number(code@),
    ensures
        r == dense_from_code(code@),
{
    if code.len() > MAX_CODE_DIGITS {
        return Err(ParseFieldError::EncodingOverflow);
    }
    match parse_digits(code.as_slice()) {
        None => Err(ParseFieldError::EncodingOverflow),
        Some(v) => {
            if v >= usize::MAX as u64 {
                Err(ParseFieldError::EncodingOverflow)
            } else {
                Ok(v as usize)
            }
        },
    }
}

fn dense_parse(input: &[u8]) -> (r: Result<usize, ParseFieldError>)
    ensures
        r == dense_id(input@),
{
    if !check_name(input) {
        return Err(ParseFieldError::InvalidField(FieldName::Id));
    }
    let mut code: Vec<u8> = Vec::new();
    push_codes(&mut code, input, input.len());
    proof {
        assert(input@.take(input@.len() as int) =~= input@);
        assert(Seq::<u8>::empty() + code_seq(input@) =~= code_seq(input@));
        lemma_code_seq_digits(input@);
    }
    dense_value(&code)
}

impl SegmentId for usize {
    open spec fn spec_parse_id(input: Seq<u8>) -> Result<usize, ParseFieldError> {
        dense_id(input)
    }

    open spec fn spec_parse_opt_id(input: Seq<u8>) -> Result<usize, ParseFieldError> {
        dense_opt_id(input)
    }

    open spec fn spec_parse_ref(input: Seq<u8>) -> Result<usize, ParseFieldError> {
        dense_ref(input)
    }

    open spec fn spec_render(v: usize) -> Seq<u8> {
        if v == placeholder_id() {
            seq![42u8]
        } else {
            decimal(v as nat)
        }
    }

    open spec fn spec_render_ref(v: usize) -> Seq<u8> {
        decimal((v / 10) as nat).push(if v % 10 == 0 { 43u8 } else { 45u8 })
    }

    open spec fn spec_valid_id(v: usize) -> bool {
        v != placeholder_id()
    }

    open spec fn spec_valid_opt_id(v: usize) -> bool {
        true
    }

    open spec fn spec_valid_ref(v: usize) -> bool {
        v % 10 < 2
    }

    fn parse_id(input: &[u8]) -> (r: Result<usize, ParseFieldError>) {
        dense_parse(input)
    }

    /// `*` is the placeholder, whose number no name reaches.
    fn parse_opt_id(input: &[u8]) -> (r: Result<usize, ParseFieldError>) {
        if input.len() == 1 && input[0] == 42 {
            proof {
                assert(input@ =~= seq![42u8]);
            }
            Ok(usize::MAX)
        } else {
            dense_parse(input)
        }
    }

    fn parse_ref(input: &[u8]) -> (r: Result<usize, ParseFieldError>) {
        let n = input.len();
        if n < 2 || !check_name(input) || (input[n - 1] != 43 && input[n - 1] != 45) {
            return Err(ParseFieldError::InvalidField(FieldName::Id));
        }
        let mut code: Vec<u8> = Vec::new();
        push_codes(&mut code, input, n - 1);
        if input[n - 1] == 43 {
            code.push(48);
        } else {
            code.push(49);
        }
        proof {
            let body = input@.drop_last();
            assert(input@.take(n - 1) =~= body);
            assert(Seq::<u8>::empty() + code_seq(body) =~= code_seq(body));
            lemma_code_seq_digits(body);
            assert(code@ =~= code_seq(body).push(orient_digit(input@.last())));
            assert(is_number(code@));
        }
        dense_value(&code)
    }

    fn render(&self, out: &mut Vec<u8>) {
        if *self == usize::MAX {
            out.push(42);
            proof {
                assert(final(out)@ =~= old(out)@ + seq![42u8]);
            }
        } else {
            push_decimal(out, *self as u64);
        }
    }

    fn render_ref(&self, out: &mut Vec<u8>) {
        push_decimal(out, (*self / 10) as u64);
        if *self % 10 == 0 {
            out.push(43);
        } else {
            out.push(45);
        }
        proof {
            assert(final(out)@ =~= old(out)@ + Self::spec_render_ref(self@));
        }
    }

    proof fn lemma_parsed_valid(input: Seq<u8>) {
        if dense_ref(input) is Ok {
            let c = code_seq(input.drop_last()).push(orient_digit(input.last()));
            let v = digits_value(c);
            assert(c.drop_last() =~= code_seq(input.drop_last()));
            assert(v == digits_value(c.drop_last()) * 10 + (c.last() - 48) as nat);
            assert(v % 10 == (c.last() - 48) as nat);
        }
    }

    proof fn lemma_opt_id_round_trip(v: usize) {
        if v != placeholder_id() {
            Self::lemma_id_round_trip(v);
        }
    }

    proof fn lemma_id_round_trip(v: usize) {
        let s = decimal(v as nat);
        lemma_decimal_digits(v as nat);
        lemma_code_seq_of_digits(s);
        lemma_pow10_20();
        lemma_decimal_len(v as nat, 20, pow10(20));
    }

    proof fn lemma_ref_round_trip(v: usize) {
        let b = (v / 10) as nat;
        let s = decimal(b);
        let o: u8 = if v % 10 == 0 { 43u8 } else { 45u8 };
        let t = s.push(o);
        lemma_decimal_digits(b);
        lemma_code_seq_of_digits(s);
        lemma_pow10_19();
        lemma_decimal_len(b, 19, pow10(19));
        assert(usize::MAX % 10 == 5);
        assert(t.drop_last() =~= s);
        assert(t.last() == o);
        assert forall|i: int| 0 <= i < t.len() implies is_graphic(#[trigger] t[i]) by {
            if i < s.len() {
                assert(t[i] == s[i]);
                assert(is_digit(s[i]));
            }
        }
        let c = s.push(orient_digit(o));
        assert(c.drop_last() =~= s);
        assert(digits_value(c) == digits_value(s) * 10 + (c.last() - 48) as nat);
    }
}

impl SegmentId for Vec<u8> {
    open spec fn spec_parse_id(input: Seq<u8>) -> Result<Seq<u8>, ParseFieldError> {
        opaque_id(input)
    }

    open spec fn spec_parse_opt_id(input: Seq<u8>) -> Result<Seq<u8>, ParseFieldError> {
        opaque_id(input)
    }

    open spec fn spec_parse_ref(input: Seq<u8>) -> Result<Seq<u8>, ParseFieldError> {
        opaque_ref(input)
    }

    open spec fn spec_render(v: Seq<u8>) -> Seq<u8> {
        v
    }

    open spec fn spec_render_ref(v: Seq<u8>) -> Seq<u8> {
        v
    }

    open spec fn spec_valid_id(v: Seq<u8>) -> bool {
        is_name(v)
    }

    open spec fn spec_valid_opt_id(v: Seq<u8>) -> bool {
        is_name(v)
    }

    open spec fn spec_valid_ref(v: Seq<u8>) -> bool {
        is_ref(v)
    }

    fn parse_id(input: &[u8]) -> (r: Result<Vec<u8>, ParseFieldError>) {
        if check_name(input) {
            let mut v: Vec<u8> = Vec::new();
            push_all(&mut v, input);
            proof {
                assert(Seq::<u8>::empty() + input@ =~= input@);
            }
            Ok(v)
        } else {
            Err(ParseFieldError::InvalidField(FieldName::Id))
        }
    }

    fn parse_opt_id(input: &[u8]) -> (r: Result<Vec<u8>, ParseFieldError>) {
        Self::parse_id(input)
    }

    fn parse_ref(input: &[u8]) -> (r: Result<Vec<u8>, ParseFieldError>) {
        let n = input.len();
        if n >= 2 && check_name(input) && (input[n - 1] == 43 || input[n - 1] == 45) {
            let mut v: Vec<u8> = Vec::new();
            push_all(&mut v, input);
            proof {
                assert(Seq::<u8>::empty() + input@ =~= input@);
            }
            Ok(v)
        } else {
            Err(ParseFieldError::InvalidField(FieldName::Id))
        }
    }

    fn render(&self, out: &mut Vec<u8>) {
        push_all(out, self.as_slice());
    }

    fn render_ref(&self, out: &mut Vec<u8>) {
        push_all(out, self.as_slice());
    }

    proof fn lemma_parsed_valid(input: Seq<u8>) {
    }

    proof fn lemma_id_round_trip(v: Seq<u8>) {
    }

    proof fn lemma_opt_id_round_trip(v: Seq<u8>) {
    }

    proof fn lemma_ref_round_trip(v: Seq<u8>) {
    }
}

/// The text of a bare identifier.
pub fn id_token<N: SegmentId>(id: &N) -> (r: Vec<u8>)
    ensures
        r@ == N::spec_render(id@),
{
    let mut v: Vec<u8> = Vec::new();
    id.render(&mut v);
    proof {
        assert(v@ =~= N::spec_render(id@));
    }
    v
}

/// The text of a reference, orientation included.
pub fn ref_token<N: SegmentId>(id: &N) -> (r: Vec<u8>)
    ensures
        r@ == N::spec_render_ref(id@),
{
    let mut v: Vec<u8> = Vec::new();
    id.render_ref(&mut v);
    proof {
        assert(v@ =~= N::spec_render_ref(id@));
    }
    v
}

/// Encoding a name twice gives the same number; the placeholder `*`
/// always stands for the same reserved number, which no other input gives,
/// bare, possibly `*`, or as a reference.
pub proof fn lemma_dense_deterministic(a: Seq<u8>, b: Seq<u8>)
    requires
        a == b,
    ensures
        <usize as SegmentId>::spec_parse_id(a) == <usize as SegmentId>::spec_parse_id(b),
        <usize as SegmentId>::spec_parse_opt_id(a) == <usize as SegmentId>::spec_parse_opt_id(b),
        <usize as SegmentId>::spec_parse_ref(a) == <usize as SegmentId>::spec_parse_ref(b),
        <usize as SegmentId>::spec_parse_opt_id(seq![42u8]) == Ok::<usize, ParseFieldError>(
            placeholder_id(),
        ),
        <usize as SegmentId>::spec_parse_id(a) != Ok::<usize, ParseFieldError>(placeholder_id()),
        <usize as SegmentId>::spec_parse_ref(a) != Ok::<usize, ParseFieldError>(placeholder_id()),
        a != seq![42u8] ==> <usize as SegmentId>::spec_parse_opt_id(a) != Ok::<
            usize,
            ParseFieldError,
        >(placeholder_id()),
{
}

/// A name whose code takes more than twenty digits is refused with
/// `EncodingOverflow`, never cut short or wrapped around.
pub proof fn lemma_dense_overflow(s: Seq<u8>)
    requires
        is_name(s),
        code_seq(s).len() > MAX_CODE_DIGITS,
    ensures
        <usize as SegmentId>::spec_parse_id(s) == Err::<usize, ParseFieldError>(
            ParseFieldError::EncodingOverflow,
        ),
        <usize as SegmentId>::spec_parse_opt_id(s) == Err::<usize, ParseFieldError>(
            ParseFieldError::EncodingOverflow,
        ),
{
    if s == seq![42u8] {
        assert(s.drop_last() =~= Seq::<u8>::empty());
        assert(code_seq(Seq::<u8>::empty()) == Seq::<u8>::empty());
        assert(Seq::<u8>::empty() + code_of(42u8) =~= code_of(42u8));
        reveal_with_fuel(pow10, 3);
        lemma_decimal_len(42, 2, pow10(2));
    }
}

/// The code of an ASCII control mnemonic, `NUL` to `US` and `DEL`.
pub open spec fn control_code(s: Seq<u8>) -> Option<usize> {
    if s == seq![78u8, 85u8, 76u8] {
        Some(0)
    } else if s == seq![83u8, 79u8, 72u8] {
        Some(1)
    } else if s == seq![83u8, 84u8, 88u8] {
        Some(2)
    } else if s == seq![69u8, 84u8, 88u8] {
        Some(3)
    } else if s == seq![69u8, 79u8, 84u8] {
        Some(4)
    } else if s == seq![69u8, 78u8, 81u8] {
        Some(5)
    } else if s == seq![65u8, 67u8, 75u8] {
        Some(6)
    } else if s == seq![66u8, 69u8, 76u8] {
        Some(7)
    } else if s == seq![66u8, 83u8] {
        Some(8)
    } else if s == seq![72u8, 84u8] {
        Some(9)
    } else if s == seq![76u8, 70u8] {
        Some(10)
    } else if s == seq![86u8, 84u8] {
        Some(11)
    } else if s == seq![70u8, 70u8] {
        Some(12)
    } else if s == seq![67u8, 82u8] {
        Some(13)
    } else if s == seq![83u8, 79u8] {
        Some(14)
    } else if s == seq![83u8, 73u8] {
        Some(15)
    } else if s == seq![68u8, 76u8, 69u8] {
        Some(16)
    } else if s == seq![68u8, 67u8, 49u8] {
        Some(17)
    } else if s == seq![68u8, 67u8, 50u8] {
        Some(18)
    } else if s == seq![68u8, 67u8, 51u8] {
        Some(19)
    } else if s == seq![68u8, 67u8, 52u8] {
        Some(20)
    } else if s == seq![78u8, 65u8, 75u8] {
        Some(21)
    } else if s == seq![83u8, 89u8, 78u8] {
        Some(22)
    } else if s == seq![69u8, 84u8, 66u8] {
        Some(23)
    } else if s == seq![67u8, 65u8, 78u8] {
        Some(24)
    } else if s == seq![69u8, 77u8] {
        Some(25)
    } else if s == seq![83u8, 85u8, 66u8] {
        Some(26)
    } else if s == seq![69u8, 83u8, 67u8] {
        Some(27)
    } else if s == seq![70u8, 83u8] {
        Some(28)
    } else if s == seq![71u8, 83u8] {
        Some(29)
    } else if s == seq![82u8, 83u8] {
        Some(30)
    } else if s == seq![85u8, 83u8] {
        Some(31)
    } else if s == seq![68u8, 69u8, 76u8] {
        Some(127)
    } else {
        None
    }
}

/// The code that a text stands for: a decimal number (an optional `+`, then
/// digits) its value, a printable character its ASCII value, a control
/// mnemonic its code.
pub open spec fn code_of_text(s: Seq<u8>) -> Option<usize> {
    match spec_parse_usize(s) {
        Some(n) => Some(n),
        None => if s.len() == 1 && 32 <= s[0] <= 126 {
            Some(s[0] as usize)
        } else {
            control_code(s)
        },
    }
}

#[verifier::rlimit(60)]
fn control_code_exec(b: &[u8]) -> (r: usize)
    requires
        control_code(b@) is Some,
    ensures
        r == control_code(b@)->Some_0,
{
    if b.len() == 3 && b[0] == 78 && b[1] == 85 && b[2] == 76 {
        proof {
            assert(b@ =~= seq![78u8, 85u8, 76u8]);
        }
        0
    } else if b.len() == 3 && b[0] == 83 && b[1] == 79 && b[2] == 72 {
        proof {
            assert(b@ =~= seq![83u8, 79u8, 72u8]);
        }
        1
    } else if b.len() == 3 && b[0] == 83 && b[1] == 84 && b[2] == 88 {
        proof {
            assert(b@ =~= seq![83u8, 84u8, 88u8]);
        }
        2
    } else if b.len() == 3 && b[0] == 69 && b[1] == 84 && b[2] == 88 {
        proof {
            assert(b@ =~= seq![69u8, 84u8, 88u8]);
        }
        3
    } else if b.len() == 3 && b[0] == 69 && b[1] == 79 && b[2] == 84 {
        proof {
            assert(b@ =~= seq![69u8, 79u8, 84u8]);
        }
        4
    } else if b.len() == 3 && b[0] == 69 && b[1] == 78 && b[2] == 81 {
        proof {
            assert(b@ =~= seq![69u8, 78u8, 81u8]);
        }
        5
    } else if b.len() == 3 && b[0] == 65 && b[1] == 67 && b[2] == 75 {
        proof {
            assert(b@ =~= seq![65u8, 67u8, 75u8]);
        }
        6
    } else if b.len() == 3 && b[0] == 66 && b[1] == 69 && b[2] == 76 {
        proof {
            assert(b@ =~= seq![66u8, 69u8, 76u8]);
        }
        7
    } else if b.len() == 2 && b[0] == 66 && b[1] == 83 {
        proof {
            assert(b@ =~= seq![66u8, 83u8]);
        }
        8
    } else if b.len() == 2 && b[0] == 72 && b[1] == 84 {
        proof {
            assert(b@ =~= seq![72u8, 84u8]);
        }
        9
    } else if b.len() == 2 && b[0] == 76 && b[1] == 70 {
        proof {
            assert(b@ =~= seq![76u8, 70u8]);
        }
        10
    } else if b.len() == 2 && b[0] == 86 && b[1] == 84 {
        proof {
            assert(b@ =~= seq![86u8, 84u8]);
        }
        11
    } else if b.len() == 2 && b[0] == 70 && b[1] == 70 {
        proof {
            assert(b@ =~= seq![70u8, 70u8]);
        }
        12
    } else if b.len() == 2 && b[0] == 67 && b[1] == 82 {
        proof {
            assert(b@ =~= seq![67u8, 82u8]);
        }
        13
    } else if b.len() == 2 && b[0] == 83 && b[1] == 79 {
        proof {
            assert(b@ =~= seq![83u8, 79u8]);
        }
        14
    } else if b.len() == 2 && b[0] == 83 && b[1] == 73 {
        proof {
            assert(b@ =~= seq![83u8, 73u8]);
        }
        15
    } else if b.len() == 3 && b[0] == 68 && b[1] == 76 && b[2] == 69 {
        proof {
            assert(b@ =~= seq![68u8, 76u8, 69u8]);
        }
        16
    } else if b.len() == 3 && b[0] == 68 && b[1] == 67 && b[2] == 49 {
        proof {
            assert(b@ =~= seq![68u8, 67u8, 49u8]);
        }
        17
    } else if b.len() == 3 && b[0] == 68 && b[1] == 67 && b[2] == 50 {
        proof {
            assert(b@ =~= seq![68u8, 67u8, 50u8]);
        }
        18
    } else if b.len() == 3 && b[0] == 68 && b[1] == 67 && b[2] == 51 {
        proof {
            assert(b@ =~= seq![68u8, 67u8, 51u8]);
        }
        19
    } else if b.len() == 3 && b[0] == 68 && b[1] == 67 && b[2] == 52 {
        proof {
            assert(b@ =~= seq![68u8, 67u8, 52u8]);
        }
        20
    } else if b.len() == 3 && b[0] == 78 && b[1] == 65 && b[2] == 75 {
        proof {
            assert(b@ =~= seq![78u8, 65u8, 75u8]);
        }
        21
    } else if b.len() == 3 && b[0] == 83 && b[1] == 89 && b[2] == 78 {
        proof {
            assert(b@ =~= seq![83u8, 89u8, 78u8]);
        }
        22
    } else if b.len() == 3 && b[0] == 69 && b[1] == 84 && b[2] == 66 {
        proof {
            assert(b@ =~= seq![69u8, 84u8, 66u8]);
        }
        23
    } else if b.len() == 3 && b[0] == 67 && b[1] == 65 && b[2] == 78 {
        proof {
            assert(b@ =~= seq![67u8, 65u8, 78u8]);
        }
        24
    } else if b.len() == 2 && b[0] == 69 && b[1] == 77 {
        proof {
            assert(b@ =~= seq![69u8, 77u8]);
        }
        25
    } else if b.len() == 3 && b[0] == 83 && b[1] == 85 && b[2] == 66 {
        proof {
            assert(b@ =~= seq![83u8, 85u8, 66u8]);
        }
        26
    } else if b.len() == 3 && b[0] == 69 && b[1] == 83 && b[2] == 67 {
        proof {
            assert(b@ =~= seq![69u8, 83u8, 67u8]);
        }
        27
    } else if b.len() == 2 && b[0] == 70 && b[1] == 83 {
        proof {
            assert(b@ =~= seq![70u8, 83u8]);
        }
        28
    } else if b.len() == 2 && b[0] == 71 && b[1] == 83 {
        proof {
            assert(b@ =~= seq![71u8, 83u8]);
        }
        29
    } else if b.len() == 2 && b[0] == 82 && b[1] == 83 {
        proof {
            assert(b@ =~= seq![82u8, 83u8]);
        }
        30
    } else if b.len() == 2 && b[0] == 85 && b[1] == 83 {
        proof {
            assert(b@ =~= seq![85u8, 83u8]);
        }
        31
    } else if b.len() == 3 && b[0] == 68 && b[1] == 69 && b[2] == 76 {
        proof {
            assert(b@ =~= seq![68u8, 69u8, 76u8]);
        }
        127
    } else {
        0
    }
}

/// The code of a text: a digit gives its value, any other printable
/// character its ASCII value (see `code_of_text`).
pub fn get_code_from_char(c: &str) -> (r: usize)
    requires
        code_of_text(c.spec_bytes()) is Some,
    ensures
        r == code_of_text(c.spec_bytes())->Some_0,
{
    let b = c.as_bytes();
    match parse_usize(b) {
        Some(n) => n,
        None => {
            if b.len() == 1 && b[0] >= 32 && b[0] <= 126 {
                b[0] as usize
            } else {
                control_code_exec(b)
            }
        },
    }
}

/// The usual mnemonic of an ASCII control code.
pub open spec fn control_name(c: i32) -> Seq<char> {
    if c == 0 {
        seq!['N', 'U', 'L']
    } else if c == 1 {
        seq!['S', 'O', 'H']
    } else if c == 2 {
        seq!['S', 'T', 'X']
    } else if c == 3 {
        seq!['E', 'T', 'X']
    } else if c == 4 {
        seq!['E', 'O', 'T']
    } else if c == 5 {
        seq!['E', 'N', 'Q']
    } else if c == 6 {
        seq!['A', 'C', 'K']
    } else if c == 7 {
        seq!['B', 'E', 'L']
    } else if c == 8 {
        seq!['B', 'S']
    } else if c == 9 {
        seq!['H', 'T']
    } else if c == 10 {
        seq!['L', 'F']
    } else if c == 11 {
        seq!['V', 'T']
    } else if c == 12 {
        seq!['F', 'F']
    } else if c == 13 {
        seq!['C', 'R']
    } else if c == 14 {
        seq!['S', 'O']
    } else if c == 15 {
        seq!['S', 'I']
    } else if c == 16 {
        seq!['D', 'L', 'E']
    } else if c == 17 {
        seq!['D', 'C', '1']
    } else if c == 18 {
        seq!['D', 'C', '2']
    } else if c == 19 {
        seq!['D', 'C', '3']
    } else if c == 20 {
        seq!['D', 'C', '4']
    } else if c == 21 {
        seq!['N', 'A', 'K']
    } else if c == 22 {
        seq!['S', 'Y', 'N']
    } else if c == 23 {
        seq!['E', 'T', 'B']
    } else if c == 24 {
        seq!['C', 'A', 'N']
    } else if c == 25 {
        seq!['E', 'M']
    } else if c == 26 {
        seq!['S', 'U', 'B']
    } else if c == 27 {
        seq!['E', 'S', 'C']
    } else if c == 28 {
        seq!['F', 'S']
    } else if c == 29 {
        seq!['G', 'S']
    } else if c == 30 {
        seq!['R', 'S']
    } else if c == 31 {
        seq!['U', 'S']
    } else if c == 127 {
        seq!['D', 'E', 'L']
    } else {
        Seq::empty()
    }
}

/// The character of an ASCII code: the character itself when printable,
/// the usual mnemonic of a control code, and the empty string otherwise.
#[verifier::rlimit(30)]
pub fn get_char_from_code(c: i32) -> (r: &'static str)
    ensures
        32 <= c <= 126 ==> r.spec_bytes() == seq![c as u8],
        (0 <= c < 32 || c == 127) ==> r@ == control_name(c),
        (c < 0 || c > 127) ==> r@.len() == 0,
{
    if c >= 32 && c <= 126 {
        // the printable ASCII characters, from space to `~`
        let all: &'static str = " !\"#$%&'()*+,-./0123456789:;<=>?@ABCDEFGHIJKLMNOPQRSTUVWXYZ[\\]^_`abcdefghijklmnopqrstuvwxyz{|}~";
        let i = (c - 32) as usize;
        proof {
            reveal_strlit(" !\"#$%&'()*+,-./0123456789:;<=>?@ABCDEFGHIJKLMNOPQRSTUVWXYZ[\\]^_`abcdefghijklmnopqrstuvwxyz{|}~");
            assert(vstd::string::is_ascii(all));
            broadcast use vstd::string::is_ascii_spec_bytes;
            broadcast use vstd::utf8::encode_utf8_valid_utf8;
            broadcast use vstd::utf8::is_char_boundary_iff_not_is_continuation_byte;

            let bs = all.spec_bytes();
            assert(bs.len() == 95);
            assert(vstd::utf8::valid_utf8(bs));
            assert(bs[i as int] == all@[i as int] as u8);
            if i > 0 {
                vstd::utf8::is_char_boundary_iff_not_is_continuation_byte(bs, i as int);
                assert(bs[i as int] < 128);
            }
            assert(vstd::utf8::is_char_boundary(bs, i as int));
        }
        let (_, rest) = all.split_at(i);
        proof {
            broadcast use vstd::string::is_ascii_spec_bytes;
            broadcast use vstd::utf8::encode_utf8_valid_utf8;
            broadcast use vstd::utf8::is_char_boundary_iff_not_is_continuation_byte;
            broadcast use vstd::utf8::is_char_boundary_start_end_of_seq;

            let rb = rest.spec_bytes();
            assert(rb.len() == 95 - i);
            assert(vstd::utf8::valid_utf8(rb));
            if rb.len() > 1 {
                assert(all@[i + 1] as u8 == all.spec_bytes()[i + 1]);
                assert(rb[1] == all.spec_bytes()[i + 1]);
                assert(rb[1] < 128);
                vstd::utf8::is_char_boundary_iff_not_is_continuation_byte(rb, 1);
                assert(vstd::utf8::is_char_boundary(rb, 1));
            } else {
                assert(vstd::utf8::is_char_boundary(rb, rb.len() as int));
            }
        }
        let (one, _) = rest.split_at(1);
        proof {
            assert(one.spec_bytes() =~= seq![all.spec_bytes()[i as int]]);
        }
        one
    } else {
        match c {
            0 => {
                proof {
                    reveal_strlit("NUL");
                }
                "NUL"
            },
            1 => {
                proof {
                    reveal_strlit("SOH");
                }
                "SOH"
            },
            2 => {
                proof {
                    reveal_strlit("STX");
                }
                "STX"
            },
            3 => {
                proof {
                    reveal_strlit("ETX");
                }
                "ETX"
            },
            4 => {
                proof {
                    reveal_strlit("EOT");
                }
                "EOT"
            },
            5 => {
                proof {
                    reveal_strlit("ENQ");
                }
                "ENQ"
            },
            6 => {
                proof {
                    reveal_strlit("ACK");
                }
                "ACK"
            },
            7 => {
                proof {
                    reveal_strlit("BEL");
                }
                "BEL"
            },
            8 => {
                proof {
                    reveal_strlit("BS");
                }
                "BS"
            },
            9 => {
                proof {
                    reveal_strlit("HT");
                }
                "HT"
            },
            10 => {
                proof {
                    reveal_strlit("LF");
                }
                "LF"
            },
            11 => {
                proof {
                    reveal_strlit("VT");
                }
                "VT"
            },
            12 => {
                proof {
                    reveal_strlit("FF");
                }
                "FF"
            },
            13 => {
                proof {
                    reveal_strlit("CR");
                }
                "CR"
            },
            14 => {
                proof {
                    reveal_strlit("SO");
                }
                "SO"
            },
            15 => {
                proof {
                    reveal_strlit("SI");
                }
                "SI"
            },
            16 => {
                proof {
                    reveal_strlit("DLE");
                }
                "DLE"
            },
            17 => {
                proof {
                    reveal_strlit("DC1");
                }
                "DC1"
            },
            18 => {
                proof {
                    reveal_strlit("DC2");
                }
                "DC2"
            },
            19 => {
                proof {
                    reveal_strlit("DC3");
                }
                "DC3"
            },
            20 => {
                proof {
                    reveal_strlit("DC4");
                }
                "DC4"
            },
            21 => {
                proof {
                    reveal_strlit("NAK");
                }
                "NAK"
            },
            22 => {
                proof {
                    reveal_strlit("SYN");
                }
                "SYN"
            },
            23 => {
                proof {
                    reveal_strlit("ETB");
                }
                "ETB"
            },
            24 => {
                proof {
                    reveal_strlit("CAN");
                }
                "CAN"
            },
            25 => {
                proof {
                    reveal_strlit("EM");
                }
                "EM"
            },
            26 => {
                proof {
                    reveal_strlit("SUB");
                }
                "SUB"
            },
            27 => {
                proof {
                    reveal_strlit("ESC");
                }
                "ESC"
            },
            28 => {
                proof {
                    reveal_strlit("FS");
                }
                "FS"
            },
            29 => {
                proof {
                    reveal_strlit("GS");
                }
                "GS"
            },
            30 => {
                proof {
                    reveal_strlit("RS");
                }
                "RS"
            },
            31 => {
                proof {
                    reveal_strlit("US");
                }
                "US"
            },
            127 => {
                proof {
                    reveal_strlit("DEL");
                }
                "DEL"
            },
            _ => {
                proof {
                    reveal_strlit("");
                }
                ""
            },
        }
    }
}

} // verus!
