//! Bytes: character classes, decimal numbers, splitting and joining on a
//! separator, and the trimming of a line.
use vstd::prelude::*;
use bstr::ByteSlice;

verus! {

/// `[!-~]`: a printable byte that is not a space.
pub open spec fn is_graphic(b: u8) -> bool {
    33 <= b <= 126
}

/// `[ -~]`: a printable byte, space included.
pub open spec fn is_printable(b: u8) -> bool {
    32 <= b <= 126
}

pub open spec fn is_digit(b: u8) -> bool {
    48 <= b <= 57
}

pub open spec fn all_graphic(s: Seq<u8>) -> bool {
    forall|i: int| 0 <= i < s.len() ==> is_graphic(#[trigger] s[i])
}

pub open spec fn all_printable(s: Seq<u8>) -> bool {
    forall|i: int| 0 <= i < s.len() ==> is_printable(#[trigger] s[i])
}

pub open spec fn all_digits(s: Seq<u8>) -> bool {
    forall|i: int| 0 <= i < s.len() ==> is_digit(#[trigger] s[i])
}

/// `[0-9]+`
pub open spec fn is_number(s: Seq<u8>) -> bool {
    s.len() > 0 && all_digits(s)
}

/// `[!-~]+`
pub open spec fn is_name(s: Seq<u8>) -> bool {
    s.len() > 0 && all_graphic(s)
}

pub open spec fn contains_byte(s: Seq<u8>, d: u8) -> bool {
    exists|i: int| 0 <= i < s.len() && s[i] == d
}

/// The value of a run of decimal digits.
pub open spec fn digits_value(s: Seq<u8>) -> nat
    decreases s.len(),
{
    if s.len() == 0 {
        0
    } else {
        digits_value(s.drop_last()) * 10 + (s.last() - 48) as nat
    }
}

/// The decimal digits of a natural number, without leading zeros.
pub open spec fn decimal(n: nat) -> Seq<u8>
    decreases n,
{
    if n < 10 {
        seq![(48 + n) as u8]
    } else {
        decimal(n / 10).push((48 + n % 10) as u8)
    }
}

/// The pieces of `s` between the occurrences of `d`; there is always at least one.
pub open spec fn split_spec(s: Seq<u8>, d: u8) -> Seq<Seq<u8>>
    decreases s.len(),
{
    if s.len() == 0 {
        seq![Seq::<u8>::empty()]
    } else {
        let rest = split_spec(s.drop_first(), d);
        if s[0] == d {
            seq![Seq::<u8>::empty()] + rest
        } else {
            rest.update(0, seq![s[0]] + rest[0])
        }
    }
}

/// The pieces written one after another with `d` between each two.
pub open spec fn join_spec(parts: Seq<Seq<u8>>, d: u8) -> Seq<u8>
    decreases parts.len(),
{
    if parts.len() == 0 {
        Seq::empty()
    } else if parts.len() == 1 {
        parts[0]
    } else {
        parts[0] + seq![d] + join_spec(parts.drop_first(), d)
    }
}

pub open spec fn view_all(v: Seq<Vec<u8>>) -> Seq<Seq<u8>> {
    v.map_values(|x: Vec<u8>| x@)
}

pub proof fn lemma_split_nonempty(s: Seq<u8>, d: u8)
    ensures
        split_spec(s, d).len() >= 1,
    decreases s.len(),
{
    if s.len() > 0 {
        lemma_split_nonempty(s.drop_first(), d);
    }
}

/// Splitting a piece that holds no separator gives the piece back.
pub proof fn lemma_split_plain(s: Seq<u8>, d: u8)
    requires
        !contains_byte(s, d),
    ensures
        split_spec(s, d) == seq![s],
    decreases s.len(),
{
    if s.len() > 0 {
        let t = s.drop_first();
        assert(!contains_byte(t, d)) by {
            if contains_byte(t, d) {
                let i = choose|i: int| 0 <= i < t.len() && t[i] == d;
                assert(s[i + 1] == d);
            }
        }
        lemma_split_plain(t, d);
        assert(s[0] != d);
        assert(seq![s[0]] + t =~= s);
        assert(split_spec(s, d) =~= seq![s]);
    } else {
        assert(s =~= Seq::<u8>::empty());
    }
}

/// Splitting `a`, then `d`, then `b` gives `a` in front of the pieces of `b`.
pub proof fn lemma_split_prefix(a: Seq<u8>, b: Seq<u8>, d: u8)
    requires
        !contains_byte(a, d),
    ensures
        split_spec(a + seq![d] + b, d) == seq![a] + split_spec(b, d),
    decreases a.len(),
{
    let s = a + seq![d] + b;
    if a.len() == 0 {
        assert(s.drop_first() =~= b);
        assert(a =~= Seq::<u8>::empty());
    } else {
        let t = a.drop_first();
        assert(!contains_byte(t, d)) by {
            if contains_byte(t, d) {
                let i = choose|i: int| 0 <= i < t.len() && t[i] == d;
                assert(a[i + 1] == d);
            }
        }
        lemma_split_prefix(t, b, d);
        assert(s.drop_first() =~= t + seq![d] + b);
        assert(s[0] == a[0]);
        assert(a[0] != d);
        let rest = split_spec(s.drop_first(), d);
        assert(rest == seq![t] + split_spec(b, d));
        assert(seq![a[0]] + t =~= a);
        assert(rest.update(0, seq![s[0]] + rest[0]) =~= seq![a] + split_spec(b, d));
    }
}

/// Joining pieces that hold no separator and splitting again gives the pieces.
pub proof fn lemma_split_join(parts: Seq<Seq<u8>>, d: u8)
    requires
        parts.len() >= 1,
        forall|i: int| 0 <= i < parts.len() ==> !contains_byte(#[trigger] parts[i], d),
    ensures
        split_spec(join_spec(parts, d), d) == parts,
    decreases parts.len(),
{
    if parts.len() == 1 {
        lemma_split_plain(parts[0], d);
        assert(seq![parts[0]] =~= parts);
    } else {
        let rest = parts.drop_first();
        assert forall|i: int| 0 <= i < rest.len() implies !contains_byte(#[trigger] rest[i], d) by {
            assert(rest[i] == parts[i + 1]);
        }
        lemma_split_join(rest, d);
        lemma_split_prefix(parts[0], join_spec(rest, d), d);
        assert(seq![parts[0]] + rest =~= parts);
    }
}

pub proof fn lemma_decimal_digits(n: nat)
    ensures
        is_number(decimal(n)),
        digits_value(decimal(n)) == n,
        1 <= decimal(n).len(),
        n < 10 ==> decimal(n).len() == 1,
        n >= 10 ==> decimal(n).len() == decimal(n / 10).len() + 1,
    decreases n,
{
    let s = decimal(n);
    if n >= 10 {
        lemma_decimal_digits(n / 10);
        assert(s.drop_last() =~= decimal(n / 10));
        assert(s.last() == (48 + n % 10) as u8);
        assert(digits_value(s) == digits_value(decimal(n / 10)) * 10 + n % 10);
    } else {
        assert(s.drop_last() =~= Seq::<u8>::empty());
        assert(digits_value(s) == digits_value(s.drop_last()) * 10 + (s.last() - 48) as nat);
    }
}

/// A number below `10^k` takes at most `k` digits.
pub proof fn lemma_decimal_len(n: nat, k: nat, bound: nat)
    requires
        bound == pow10(k),
        n < bound,
        k >= 1,
    ensures
        decimal(n).len() <= k,
    decreases k,
{
    lemma_decimal_digits(n);
    if n >= 10 {
        assert(k >= 2) by {
            if k < 2 {
                assert(pow10(1) == 10) by {
                    assert(pow10(0) == 1);
                }
            }
        }
        let k1 = (k - 1) as nat;
        assert(pow10(k) == 10 * pow10(k1));
        assert(n / 10 < pow10(k1));
        lemma_decimal_len(n / 10, k1, pow10(k1));
    }
}

pub open spec fn pow10(k: nat) -> nat
    decreases k,
{
    if k == 0 {
        1
    } else {
        10 * pow10((k - 1) as nat)
    }
}

/// Digits in front never make the value smaller.
pub proof fn lemma_value_prefix(s: Seq<u8>, i: int)
    requires
        0 <= i <= s.len(),
        all_digits(s),
    ensures
        digits_value(s.take(i)) <= digits_value(s),
    decreases s.len(),
{
    if i < s.len() {
        let t = s.drop_last();
        assert(t.take(i) =~= s.take(i));
        lemma_value_prefix(t, i);
    } else {
        assert(s.take(i) =~= s);
    }
}

/// The value of a prefix one digit longer.
pub proof fn lemma_value_step(s: Seq<u8>, i: int)
    requires
        0 <= i < s.len(),
    ensures
        digits_value(s.take(i + 1)) == digits_value(s.take(i)) * 10 + (s[i] - 48) as nat,
{
    assert(s.take(i + 1).drop_last() =~= s.take(i));
}

/// `s` without a leading `+` or `-`.
pub open spec fn strip_sign(s: Seq<u8>) -> Seq<u8> {
    if s.len() > 0 && (s[0] == 43 || s[0] == 45) {
        s.drop_first()
    } else {
        s
    }
}

/// `[-+]?[0-9]+` read as an integer.
pub open spec fn spec_parse_int(s: Seq<u8>) -> Option<int> {
    let d = strip_sign(s);
    if !is_number(d) {
        None
    } else if s[0] == 45 {
        Some(-(digits_value(d) as int))
    } else {
        Some(digits_value(d) as int)
    }
}

/// `[-+]?[0-9]+` read as a 64-bit signed integer.
pub open spec fn spec_parse_i64(s: Seq<u8>) -> Option<i64> {
    match spec_parse_int(s) {
        Some(n) => if i64::MIN <= n <= i64::MAX {
            Some(n as i64)
        } else {
            None
        },
        None => None,
    }
}

/// The decimal text of an integer, with `-` in front when negative.
pub open spec fn int_text(n: int) -> Seq<u8> {
    if n < 0 {
        seq![45u8] + decimal((-n) as nat)
    } else {
        decimal(n as nat)
    }
}

/// The text of an integer reads back to it, and holds neither separator.
pub proof fn lemma_int_text(n: int)
    requires
        i64::MIN <= n <= i64::MAX,
    ensures
        spec_parse_i64(int_text(n)) == Some(n as i64),
        is_name(int_text(n)),
        !contains_byte(int_text(n), 44),
        !contains_byte(int_text(n), 9),
{
    let t = int_text(n);
    lemma_decimal_digits(if n < 0 { (-n) as nat } else { n as nat });
    if n < 0 {
        let d = decimal((-n) as nat);
        assert(t.drop_first() =~= d);
        assert(strip_sign(t) == d);
        assert forall|i: int| 0 <= i < t.len() implies is_graphic(#[trigger] t[i]) by {
            if i > 0 {
                assert(t[i] == d[i - 1]);
            }
        }
    } else {
        let d = decimal(n as nat);
        assert(is_digit(d[0]));
        assert(strip_sign(t) == d);
    }
    assert(!contains_byte(t, 44)) by {
        if contains_byte(t, 44) {
            let i = choose|i: int| 0 <= i < t.len() && t[i] == 44;
            if n < 0 && i > 0 {
                assert(t[i] == decimal((-n) as nat)[i - 1]);
            }
        }
    }
    assert(!contains_byte(t, 9)) by {
        if contains_byte(t, 9) {
            let i = choose|i: int| 0 <= i < t.len() && t[i] == 9;
            if n < 0 && i > 0 {
                assert(t[i] == decimal((-n) as nat)[i - 1]);
            }
        }
    }
}

/// Reads `[-+]?[0-9]+` as a 64-bit signed integer; `None` when it is not
/// one or does not fit.
pub fn parse_i64(s: &[u8]) -> (r: Option<i64>)
    ensures
        r == spec_parse_i64(s@),
{
    let n = s.len();
    let signed = n > 0 && (s[0] == 43 || s[0] == 45);
    let neg = n > 0 && s[0] == 45;
    let mut digits: Vec<u8> = Vec::new();
    let start: usize = if signed { 1 } else { 0 };
    let mut i: usize = start;
    while i < n
        invariant
            start <= i <= n,
            n == s@.len(),
            digits@ == s@.subrange(start as int, i as int),
        decreases n - i,
    {
        digits.push(s[i]);
        proof {
            assert(s@.subrange(start as int, i + 1) =~= s@.subrange(start as int, i as int).push(
                s@[i as int],
            ));
        }
        i += 1;
    }
    proof {
        assert(digits@ =~= strip_sign(s@));
    }
    if !check_number(digits.as_slice()) {
        return None;
    }
    match parse_digits(digits.as_slice()) {
        None => None,
        Some(m) => {
            if neg {
                if m <= 9223372036854775807u64 {
                    Some(-(m as i64))
                } else if m == 9223372036854775808u64 {
                    Some(i64::MIN)
                } else {
                    None
                }
            } else if m <= 9223372036854775807u64 {
                Some(m as i64)
            } else {
                None
            }
        },
    }
}

/// Appends the text of `n`.
pub fn push_i64(out: &mut Vec<u8>, n: i64)
    ensures
        final(out)@ == old(out)@ + int_text(n as int),
{
    if n < 0 {
        out.push(45);
        let m: u64 = if n == i64::MIN {
            9223372036854775808u64
        } else {
            (-n) as u64
        };
        push_decimal(out, m);
        proof {
            assert(final(out)@ =~= old(out)@ + int_text(n as int));
        }
    } else {
        push_decimal(out, n as u64);
    }
}

/// A joined run of pieces holds `x` only where a piece does, unless `x` is the separator.
pub proof fn lemma_join_avoids(parts: Seq<Seq<u8>>, d: u8, x: u8)
    requires
        x != d,
        forall|i: int| 0 <= i < parts.len() ==> !contains_byte(#[trigger] parts[i], x),
    ensures
        !contains_byte(join_spec(parts, d), x),
    decreases parts.len(),
{
    if parts.len() > 1 {
        let rest = parts.drop_first();
        assert forall|i: int| 0 <= i < rest.len() implies !contains_byte(#[trigger] rest[i], x) by {
            assert(rest[i] == parts[i + 1]);
        }
        lemma_join_avoids(rest, d, x);
        let a = parts[0];
        let b = join_spec(rest, d);
        let j = a + seq![d] + b;
        if contains_byte(j, x) {
            let k = choose|k: int| 0 <= k < j.len() && j[k] == x;
            if k < a.len() {
                assert(a[k] == x);
            } else if k > a.len() {
                assert(b[k - a.len() - 1] == x);
            }
        }
    } else if parts.len() == 0 {
        assert(join_spec(parts, d) =~= Seq::<u8>::empty());
    }
}

pub proof fn lemma_join_push(parts: Seq<Seq<u8>>, x: Seq<u8>, d: u8)
    requires
        parts.len() >= 1,
    ensures
        join_spec(parts.push(x), d) == join_spec(parts, d) + seq![d] + x,
    decreases parts.len(),
{
    let p = parts.push(x);
    if parts.len() == 1 {
        assert(p.drop_first() =~= seq![x]);
        assert(join_spec(p.drop_first(), d) == x);
    } else {
        lemma_join_push(parts.drop_first(), x, d);
        assert(p.drop_first() =~= parts.drop_first().push(x));
        assert(join_spec(p, d) =~= join_spec(parts, d) + seq![d] + x);
    }
}

/// Splitting and joining again gives the bytes back.
pub proof fn lemma_join_split(s: Seq<u8>, d: u8)
    ensures
        join_spec(split_spec(s, d), d) == s,
    decreases s.len(),
{
    lemma_split_nonempty(s, d);
    if s.len() > 0 {
        let t = s.drop_first();
        lemma_join_split(t, d);
        lemma_split_nonempty(t, d);
        let rest = split_spec(t, d);
        if s[0] == d {
            let parts = seq![Seq::<u8>::empty()] + rest;
            assert(parts.drop_first() =~= rest);
            assert(parts.len() >= 2);
            assert(join_spec(parts, d) == Seq::<u8>::empty() + seq![d] + join_spec(rest, d));
            assert(seq![d] + t =~= s);
            assert(Seq::<u8>::empty() + seq![d] + t =~= s);
        } else {
            let parts = rest.update(0, seq![s[0]] + rest[0]);
            if rest.len() == 1 {
                assert(join_spec(rest, d) == rest[0]);
                assert(seq![s[0]] + t =~= s);
            } else {
                assert(parts.drop_first() =~= rest.drop_first());
                assert(join_spec(rest, d) == rest[0] + seq![d] + join_spec(rest.drop_first(), d));
                assert(join_spec(parts, d) == (seq![s[0]] + rest[0]) + seq![d] + join_spec(
                    rest.drop_first(),
                    d,
                ));
                assert((seq![s[0]] + rest[0]) + seq![d] + join_spec(rest.drop_first(), d) =~= seq![
                    s[0],
                ] + join_spec(rest, d));
                assert(seq![s[0]] + t =~= s);
            }
        }
    } else {
        assert(split_spec(s, d) =~= seq![Seq::<u8>::empty()]);
        assert(s =~= Seq::<u8>::empty());
    }
}

/// Joining graphic pieces with a graphic separator gives graphic bytes.
pub proof fn lemma_join_graphic(parts: Seq<Seq<u8>>, d: u8)
    requires
        is_graphic(d),
        forall|i: int| 0 <= i < parts.len() ==> all_graphic(#[trigger] parts[i]),
    ensures
        all_graphic(join_spec(parts, d)),
    decreases parts.len(),
{
    if parts.len() > 1 {
        let rest = parts.drop_first();
        assert forall|i: int| 0 <= i < rest.len() implies all_graphic(#[trigger] rest[i]) by {
            assert(rest[i] == parts[i + 1]);
        }
        lemma_join_graphic(rest, d);
        let a = parts[0];
        let b = join_spec(rest, d);
        let j = a + seq![d] + b;
        assert forall|k: int| 0 <= k < j.len() implies is_graphic(#[trigger] j[k]) by {
            if k < a.len() {
                assert(j[k] == a[k]);
            } else if k > a.len() {
                assert(j[k] == b[k - a.len() - 1]);
            }
        }
    } else if parts.len() == 0 {
        assert(join_spec(parts, d) =~= Seq::<u8>::empty());
    }
}

/// Graphic bytes hold no tab.
pub proof fn lemma_graphic_no_tab(s: Seq<u8>)
    requires
        all_graphic(s),
    ensures
        !contains_byte(s, 9),
        !contains_byte(s, 32),
{
    if contains_byte(s, 9) {
        let k = choose|k: int| 0 <= k < s.len() && s[k] == 9;
        assert(is_graphic(s[k]));
    }
    if contains_byte(s, 32) {
        let k = choose|k: int| 0 <= k < s.len() && s[k] == 32;
        assert(is_graphic(s[k]));
    }
}

/// The pieces written one after another with `d` between each two.
pub fn join_bytes(parts: &Vec<Vec<u8>>, d: u8) -> (r: Vec<u8>)
    ensures
        r@ == join_spec(view_all(parts@), d),
{
    let mut out: Vec<u8> = Vec::new();
    let mut i: usize = 0;
    while i < parts.len()
        invariant
            0 <= i <= parts@.len(),
            out@ == join_spec(view_all(parts@).take(i as int), d),
        decreases parts.len() - i,
    {
        let ghost before = out@;
        if i > 0 {
            out.push(d);
        }
        push_all(&mut out, parts[i].as_slice());
        proof {
            let t = view_all(parts@);
            assert(t.take(i + 1) =~= t.take(i as int).push(t[i as int]));
            if i > 0 {
                lemma_join_push(t.take(i as int), t[i as int], d);
            } else {
                assert(t.take(0) =~= Seq::<Seq<u8>>::empty());
                assert(t.take(1) =~= seq![t[0]]);
            }
            assert(out@ =~= join_spec(t.take(i + 1), d));
        }
        i += 1;
    }
    proof {
        assert(view_all(parts@).take(i as int) =~= view_all(parts@));
    }
    out
}

/// The text of a line with the whitespace at both ends removed, as bstr's
/// `trim` gives it.
pub uninterp spec fn trim_of(s: Seq<u8>) -> Seq<u8>;

/// Relies on `bstr::ByteSlice::trim`: removes the Unicode whitespace at both
/// ends; the result depends on the bytes alone, is a contiguous part of
/// them, and is all of them when both ends are printable non-space ASCII.
#[verifier::external_body]
pub(crate) fn trim_line(b: &[u8]) -> (r: Vec<u8>)
    ensures
        r@ == trim_of(b@),
        r@.len() <= b@.len(),
        exists|i: int| 0 <= i <= b@.len() - r@.len() && r@ == #[trigger] b@.subrange(i, i + r@.len()),
        b@.len() > 0 && is_graphic(b@[0]) && is_graphic(b@.last()) ==> r@ == b@,
{
    b.trim().to_vec()
}

/// Checks `[!-~]+`.
pub fn check_name(s: &[u8]) -> (r: bool)
    ensures
        r == is_name(s@),
{
    if s.len() == 0 {
        return false;
    }
    let mut i: usize = 0;
    while i < s.len()
        invariant
            0 <= i <= s.len(),
            forall|j: int| 0 <= j < i ==> is_graphic(#[trigger] s@[j]),
        decreases s.len() - i,
    {
        if s[i] < 33 || s[i] > 126 {
            return false;
        }
        i += 1;
    }
    true
}

/// Checks `[ -~]+`.
pub fn check_text(s: &[u8]) -> (r: bool)
    ensures
        r == (s@.len() > 0 && all_printable(s@)),
{
    if s.len() == 0 {
        return false;
    }
    let mut i: usize = 0;
    while i < s.len()
        invariant
            0 <= i <= s.len(),
            forall|j: int| 0 <= j < i ==> is_printable(#[trigger] s@[j]),
        decreases s.len() - i,
    {
        if s[i] < 32 || s[i] > 126 {
            return false;
        }
        i += 1;
    }
    true
}

/// Checks `[0-9]+`.
pub fn check_number(s: &[u8]) -> (r: bool)
    ensures
        r == is_number(s@),
{
    if s.len() == 0 {
        return false;
    }
    let mut i: usize = 0;
    while i < s.len()
        invariant
            0 <= i <= s.len(),
            forall|j: int| 0 <= j < i ==> is_digit(#[trigger] s@[j]),
        decreases s.len() - i,
    {
        if s[i] < 48 || s[i] > 57 {
            return false;
        }
        i += 1;
    }
    true
}

/// Cuts `s` at every `d`.
pub fn split_bytes(s: &[u8], d: u8) -> (r: Vec<Vec<u8>>)
    ensures
        view_all(r@) == split_spec(s@, d),
{
    let mut pieces: Vec<Vec<u8>> = Vec::new();
    let mut cur: Vec<u8> = Vec::new();
    let mut i: usize = 0;
    proof {
        lemma_split_nonempty(s@, d);
        assert(s@.skip(0) =~= s@);
    }
    while i < s.len()
        invariant
            0 <= i <= s.len(),
            split_spec(s@.skip(i as int), d).len() >= 1,
            split_spec(s@, d) == view_all(pieces@) + seq![cur@ + split_spec(s@.skip(i as int), d)[0]]
                + split_spec(s@.skip(i as int), d).drop_first(),
        decreases s.len() - i,
    {
        let ghost tail = s@.skip(i as int);
        let ghost next = s@.skip(i + 1);
        proof {
            assert(tail.drop_first() =~= next);
            lemma_split_nonempty(next, d);
        }
        if s[i] == d {
            let ghost old_pieces = view_all(pieces@);
            let ghost old_cur = cur@;
            pieces.push(cur);
            cur = Vec::new();
            proof {
                assert(view_all(pieces@) =~= old_pieces.push(old_cur));
                let r = split_spec(next, d);
                assert(split_spec(tail, d) == seq![Seq::<u8>::empty()] + r);
                assert(old_cur + Seq::<u8>::empty() =~= old_cur);
                assert((seq![Seq::<u8>::empty()] + r).drop_first() =~= r);
                assert(Seq::<u8>::empty() + r[0] =~= r[0]);
                assert(r =~= seq![r[0]] + r.drop_first());
                assert(view_all(pieces@) + seq![cur@ + r[0]] + r.drop_first() =~= old_pieces
                    + seq![old_cur] + r);
            }
        } else {
            let ghost old_cur = cur@;
            cur.push(s[i]);
            proof {
                let r = split_spec(next, d);
                assert(split_spec(tail, d) == r.update(0, seq![s@[i as int]] + r[0]));
                assert(cur@ =~= old_cur + seq![s@[i as int]]);
                assert(old_cur + (seq![s@[i as int]] + r[0]) =~= cur@ + r[0]);
                assert(r.update(0, seq![s@[i as int]] + r[0]).drop_first() =~= r.drop_first());
            }
        }
        i += 1;
    }
    proof {
        assert(s@.skip(i as int) =~= Seq::<u8>::empty());
        assert(cur@ + Seq::<u8>::empty() =~= cur@);
    }
    let ghost before = view_all(pieces@);
    pieces.push(cur);
    proof {
        assert(view_all(pieces@) =~= before + seq![cur@]);
        assert(seq![Seq::<u8>::empty()].drop_first() =~= Seq::<Seq<u8>>::empty());
        assert(split_spec(s@, d) =~= view_all(pieces@));
    }
    pieces
}

/// Appends the decimal digits of `n`.
pub fn push_decimal(out: &mut Vec<u8>, n: u64)
    ensures
        final(out)@ == old(out)@ + decimal(n as nat),
    decreases n,
{
    if n < 10 {
        out.push((48 + n) as u8);
        proof {
            assert(final(out)@ =~= old(out)@ + decimal(n as nat));
        }
    } else {
        push_decimal(out, n / 10);
        out.push((48 + n % 10) as u8);
        proof {
            assert(final(out)@ =~= old(out)@ + decimal(n as nat));
        }
    }
}

/// Appends `src` to `out`.
pub fn push_all(out: &mut Vec<u8>, src: &[u8])
    ensures
        final(out)@ == old(out)@ + src@,
{
    let mut i: usize = 0;
    while i < src.len()
        invariant
            0 <= i <= src.len(),
            out@ == old(out)@ + src@.take(i as int),
        decreases src.len() - i,
    {
        out.push(src[i]);
        proof {
            assert(src@.take(i + 1) =~= src@.take(i as int).push(src@[i as int]));
        }
        i += 1;
    }
    proof {
        assert(src@.take(i as int) =~= src@);
    }
}

pub open spec fn opt_bytes(o: Option<Vec<u8>>) -> Option<Seq<u8>> {
    match o {
        Some(v) => Some(v@),
        None => None,
    }
}

/// A fresh vector holding the one byte `b`.
pub fn one_byte(b: u8) -> (r: Vec<u8>)
    ensures
        r@ == seq![b],
{
    let mut v: Vec<u8> = Vec::new();
    v.push(b);
    proof {
        assert(v@ =~= seq![b]);
    }
    v
}

/// Whether `t` is the one byte `b`.
pub fn single(t: &Vec<u8>, b: u8) -> (r: bool)
    ensures
        r == (t@ == seq![b]),
{
    let r = t.len() == 1 && t[0] == b;
    proof {
        if t@.len() == 1 && t@[0] == b {
            assert(t@ =~= seq![b]);
        }
    }
    r
}

/// A fresh vector holding the bytes of `src`.
pub fn to_bytes(src: &[u8]) -> (r: Vec<u8>)
    ensures
        r@ == src@,
{
    let mut out: Vec<u8> = Vec::new();
    push_all(&mut out, src);
    proof {
        assert(Seq::<u8>::empty() + src@ =~= src@);
    }
    out
}

/// Reads `[0-9]+` as an unsigned number; `None` when it does not fit.
pub fn parse_digits(s: &[u8]) -> (r: Option<u64>)
    requires
        is_number(s@),
    ensures
        match r {
            Some(v) => v as nat == digits_value(s@),
            None => digits_value(s@) > u64::MAX,
        },
{
    let mut acc: u64 = 0;
    let mut i: usize = 0;
    proof {
        assert(s@.take(0) =~= Seq::<u8>::empty());
    }
    while i < s.len()
        invariant
            0 <= i <= s.len(),
            is_number(s@),
            acc as nat == digits_value(s@.take(i as int)),
        decreases s.len() - i,
    {
        proof {
            lemma_value_step(s@, i as int);
            lemma_value_prefix(s@, i + 1);
        }
        let digit = (s[i] - 48) as u64;
        match acc.checked_mul(10) {
            Some(m) => match m.checked_add(digit) {
                Some(v) => {
                    acc = v;
                },
                None => {
                    return None;
                },
            },
            None => {
                return None;
            },
        }
        i += 1;
    }
    proof {
        assert(s@.take(i as int) =~= s@);
    }
    Some(acc)
}

} // verus!
