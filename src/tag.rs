//! Optional fields `TT:t:VALUE`: reading one token into a typed value,
//! writing it back in canonical form, and the two ways a record keeps them.
use vstd::prelude::*;
use crate::text::{
    all_digits, all_printable, lemma_join_avoids, lemma_join_push, check_number, check_text, contains_byte, int_text, is_digit,
    is_graphic, is_number, is_printable, join_spec, lemma_int_text, lemma_split_join,
    parse_i64, push_all, push_i64, spec_parse_int, spec_parse_i64, split_bytes, split_spec,
    strip_sign, view_all,
};

verus! {

/// The integer element types of a `B` array: `c C s S i I`.
#[derive(Debug, Clone, Copy, PartialEq, Eq, Hash, Structural)]
pub enum IntArrayType {
    I8,
    U8,
    I16,
    U16,
    I32,
    U32,
}

/// What a tagged value holds.
pub enum ValueModel {
    A(u8),
    Int(i64),
    Float(Seq<u8>),
    H(Seq<u8>),
    Z(Seq<u8>),
    J(Seq<u8>),
    BInt(IntArrayType, Seq<i64>),
    BFloat(Seq<Seq<u8>>),
}

/// A tagged value: a two-byte name and a typed value.
pub struct TagModel {
    pub name: Seq<u8>,
    pub value: ValueModel,
}

/// The value of an optional field. A float is kept as its validated text.
#[derive(Debug, Clone, PartialEq)]
pub enum OptFieldVal {
    /// `A`: one printable character.
    A(u8),
    /// `i`: a signed integer.
    Int(i64),
    /// `f`: a floating-point literal.
    Float(Vec<u8>),
    /// `H`: bytes, written as hex digits.
    H(Vec<u8>),
    /// `Z`: printable text.
    Z(Vec<u8>),
    /// `J`: printable text holding JSON.
    J(Vec<u8>),
    /// `B` with an integer element type.
    BInt(IntArrayType, Vec<i64>),
    /// `B` with floating-point elements, kept as text.
    BFloat(Vec<Vec<u8>>),
}

/// One optional field `TT:t:VALUE`.
#[derive(Debug, Clone, PartialEq)]
pub struct OptField {
    pub tag: [u8; 2],
    pub value: OptFieldVal,
}

impl View for OptFieldVal {
    type V = ValueModel;

    open spec fn view(&self) -> ValueModel {
        match self {
            OptFieldVal::A(b) => ValueModel::A(*b),
            OptFieldVal::Int(n) => ValueModel::Int(*n),
            OptFieldVal::Float(s) => ValueModel::Float(s@),
            OptFieldVal::H(s) => ValueModel::H(s@),
            OptFieldVal::Z(s) => ValueModel::Z(s@),
            OptFieldVal::J(s) => ValueModel::J(s@),
            OptFieldVal::BInt(k, v) => ValueModel::BInt(*k, v@),
            OptFieldVal::BFloat(v) => ValueModel::BFloat(view_all(v@)),
        }
    }
}

impl View for OptField {
    type V = TagModel;

    open spec fn view(&self) -> TagModel {
        TagModel { name: self.tag@, value: self.value@ }
    }
}

// ---- floating-point literals: `[-+]?[0-9]*\.?[0-9]+([eE][-+]?[0-9]+)?`

/// The index of the first `a` or `b` in `s`, or its length.
pub open spec fn find_either(s: Seq<u8>, a: u8, b: u8) -> nat
    decreases s.len(),
{
    if s.len() == 0 {
        0
    } else if s[0] == a || s[0] == b {
        0
    } else {
        1 + find_either(s.drop_first(), a, b)
    }
}

pub open spec fn is_float_char(b: u8) -> bool {
    is_digit(b) || b == 43 || b == 45 || b == 46 || b == 101 || b == 69
}

/// `[0-9]*\.?[0-9]+`
pub open spec fn is_mantissa(m: Seq<u8>) -> bool {
    let k = find_either(m, 46, 46) as int;
    if k == m.len() {
        is_number(m)
    } else {
        all_digits(m.take(k)) && is_number(m.skip(k + 1))
    }
}

/// A floating-point literal.
pub open spec fn is_float(s: Seq<u8>) -> bool {
    let t = strip_sign(s);
    let e = find_either(t, 101, 69) as int;
    &&& forall|i: int| 0 <= i < s.len() ==> is_float_char(#[trigger] s[i])
    &&& is_mantissa(t.take(e))
    &&& (e == t.len() || is_number(strip_sign(t.skip(e + 1))))
}

proof fn lemma_find_either(s: Seq<u8>, a: u8, b: u8)
    ensures
        find_either(s, a, b) <= s.len(),
        forall|j: int| 0 <= j < find_either(s, a, b) ==> s[j] != a && s[j] != b,
        find_either(s, a, b) < s.len() ==> (s[find_either(s, a, b) as int] == a || s[find_either(
            s,
            a,
            b,
        ) as int] == b),
    decreases s.len(),
{
    if s.len() > 0 && s[0] != a && s[0] != b {
        lemma_find_either(s.drop_first(), a, b);
        assert forall|j: int| 0 <= j < find_either(s, a, b) implies s[j] != a && s[j] != b by {
            if j > 0 {
                assert(s[j] == s.drop_first()[j - 1]);
            }
        }
    }
}

proof fn lemma_find_unique(s: Seq<u8>, a: u8, b: u8, k: int)
    requires
        0 <= k <= s.len(),
        forall|j: int| 0 <= j < k ==> s[j] != a && s[j] != b,
        k < s.len() ==> (s[k] == a || s[k] == b),
    ensures
        find_either(s, a, b) == k,
    decreases s.len(),
{
    if k > 0 {
        assert(s[0] != a && s[0] != b);
        let t = s.drop_first();
        assert forall|j: int| 0 <= j < k - 1 implies t[j] != a && t[j] != b by {
            assert(t[j] == s[j + 1]);
        }
        lemma_find_unique(t, a, b, k - 1);
    }
}

fn find_either_exec(s: &Vec<u8>, a: u8, b: u8) -> (r: usize)
    ensures
        r == find_either(s@, a, b),
{
    let mut i: usize = 0;
    while i < s.len()
        invariant
            0 <= i <= s.len(),
            forall|j: int| 0 <= j < i ==> s@[j] != a && s@[j] != b,
        decreases s.len() - i,
    {
        if s[i] == a || s[i] == b {
            proof {
                lemma_find_unique(s@, a, b, i as int);
            }
            return i;
        }
        i += 1;
    }
    proof {
        lemma_find_unique(s@, a, b, i as int);
    }
    i
}

/// The bytes of `s` from `a` to `b`.
fn sub_bytes(s: &Vec<u8>, a: usize, b: usize) -> (r: Vec<u8>)
    requires
        a <= b <= s@.len(),
    ensures
        r@ == s@.subrange(a as int, b as int),
{
    let mut out: Vec<u8> = Vec::new();
    let mut i: usize = a;
    while i < b
        invariant
            a <= i <= b,
            b <= s@.len(),
            out@ == s@.subrange(a as int, i as int),
        decreases b - i,
    {
        out.push(s[i]);
        proof {
            assert(s@.subrange(a as int, i + 1) =~= s@.subrange(a as int, i as int).push(
                s@[i as int],
            ));
        }
        i += 1;
    }
    out
}

fn strip_sign_exec(s: &Vec<u8>) -> (r: Vec<u8>)
    ensures
        r@ == strip_sign(s@),
{
    if s.len() > 0 && (s[0] == 43 || s[0] == 45) {
        let r = sub_bytes(s, 1, s.len());
        proof {
            assert(r@ =~= s@.drop_first());
        }
        r
    } else {
        let r = sub_bytes(s, 0, s.len());
        proof {
            assert(r@ =~= s@);
        }
        r
    }
}

fn check_mantissa(m: &Vec<u8>) -> (r: bool)
    ensures
        r == is_mantissa(m@),
{
    let k = find_either_exec(m, 46, 46);
    proof {
        lemma_find_either(m@, 46, 46);
    }
    if k == m.len() {
        check_number(m.as_slice())
    } else {
        let head = sub_bytes(m, 0, k);
        let tail = sub_bytes(m, k + 1, m.len());
        proof {
            assert(head@ =~= m@.take(k as int));
            assert(tail@ =~= m@.skip(k + 1));
        }
        let mut i: usize = 0;
        while i < head.len()
            invariant
                0 <= i <= head@.len(),
                head@ == m@.take(k as int),
                k < m@.len(),
                k == find_either(m@, 46, 46),
                forall|j: int| 0 <= j < i ==> is_digit(#[trigger] head@[j]),
            decreases head.len() - i,
        {
            if head[i] < 48 || head[i] > 57 {
                proof {
                    assert(!is_digit(head@[i as int]));
                }
                return false;
            }
            i += 1;
        }
        check_number(tail.as_slice())
    }
}

/// Checks a floating-point literal.
pub fn check_float(s: &Vec<u8>) -> (r: bool)
    ensures
        r == is_float(s@),
{
    let mut i: usize = 0;
    while i < s.len()
        invariant
            0 <= i <= s@.len(),
            forall|j: int| 0 <= j < i ==> is_float_char(#[trigger] s@[j]),
        decreases s.len() - i,
    {
        let c = s[i];
        if !((c >= 48 && c <= 57) || c == 43 || c == 45 || c == 46 || c == 101 || c == 69) {
            return false;
        }
        i += 1;
    }
    let t = strip_sign_exec(s);
    let e = find_either_exec(&t, 101, 69);
    proof {
        lemma_find_either(t@, 101, 69);
    }
    let m = sub_bytes(&t, 0, e);
    proof {
        assert(m@ =~= t@.take(e as int));
    }
    if !check_mantissa(&m) {
        return false;
    }
    if e == t.len() {
        return true;
    }
    let x = sub_bytes(&t, e + 1, t.len());
    proof {
        assert(x@ =~= t@.skip(e + 1));
    }
    let xs = strip_sign_exec(&x);
    check_number(xs.as_slice())
}

// ---- hex

pub open spec fn is_hex_digit(b: u8) -> bool {
    is_digit(b) || (65 <= b <= 70) || (97 <= b <= 102)
}

pub open spec fn hex_val(b: u8) -> int {
    if is_digit(b) {
        b - 48
    } else if 65 <= b <= 70 {
        b - 55
    } else {
        b - 87
    }
}

/// An even run of hex digits.
pub open spec fn is_hex(s: Seq<u8>) -> bool {
    s.len() > 0 && s.len() % 2 == 0 && forall|i: int| 0 <= i < s.len() ==> is_hex_digit(
        #[trigger] s[i],
    )
}

/// The bytes that a run of hex digits writes, two digits each.
pub open spec fn hex_decode(s: Seq<u8>) -> Seq<u8> {
    Seq::new(s.len() / 2, |i: int| (hex_val(s[2 * i]) * 16 + hex_val(s[2 * i + 1])) as u8)
}

pub open spec fn hex_digit_of(d: int) -> u8 {
    if d < 10 {
        (48 + d) as u8
    } else {
        (55 + d) as u8
    }
}

/// The upper-case hex digits of some bytes.
pub open spec fn hex_text(b: Seq<u8>) -> Seq<u8> {
    Seq::new(
        2 * b.len(),
        |i: int|
            if i % 2 == 0 {
                hex_digit_of(b[i / 2] as int / 16)
            } else {
                hex_digit_of(b[i / 2] as int % 16)
            },
    )
}

fn hex_val_exec(b: u8) -> (r: u8)
    requires
        is_hex_digit(b),
    ensures
        r == hex_val(b),
{
    if b >= 48 && b <= 57 {
        b - 48
    } else if b >= 65 && b <= 70 {
        b - 55
    } else {
        b - 87
    }
}

fn decode_hex(s: &Vec<u8>) -> (r: Option<Vec<u8>>)
    ensures
        match r {
            Some(v) => is_hex(s@) && v@ == hex_decode(s@),
            None => !is_hex(s@),
        },
{
    if s.len() == 0 || s.len() % 2 != 0 {
        return None;
    }
    let mut i: usize = 0;
    while i < s.len()
        invariant
            0 <= i <= s@.len(),
            forall|j: int| 0 <= j < i ==> is_hex_digit(#[trigger] s@[j]),
        decreases s.len() - i,
    {
        let c = s[i];
        if !((c >= 48 && c <= 57) || (c >= 65 && c <= 70) || (c >= 97 && c <= 102)) {
            return None;
        }
        i += 1;
    }
    let mut out: Vec<u8> = Vec::new();
    let mut k: usize = 0;
    let n = s.len();
    let half = n / 2;
    while k < half
        invariant
            0 <= k <= half,
            n == s@.len(),
            half == s@.len() / 2,
            is_hex(s@),
            out@ == hex_decode(s@).take(k as int),
        decreases half - k,
    {
        assert(2 * k + 1 < s@.len());
        let hi = hex_val_exec(s[2 * k]);
        let lo = hex_val_exec(s[2 * k + 1]);
        out.push(hi * 16 + lo);
        proof {
            assert(out@ =~= hex_decode(s@).take(k + 1));
        }
        k += 1;
    }
    proof {
        assert(out@ =~= hex_decode(s@));
    }
    Some(out)
}

fn push_hex(out: &mut Vec<u8>, b: &Vec<u8>)
    ensures
        final(out)@ == old(out)@ + hex_text(b@),
{
    let mut i: usize = 0;
    while i < b.len()
        invariant
            0 <= i <= b@.len(),
            out@ == old(out)@ + hex_text(b@).take(2 * i as int),
        decreases b.len() - i,
    {
        let hi = b[i] / 16;
        let lo = b[i] % 16;
        let ghost before = out@;
        out.push(if hi < 10 { 48 + hi } else { 55 + hi });
        out.push(if lo < 10 { 48 + lo } else { 55 + lo });
        proof {
            let h = hex_text(b@);
            assert(h[2 * i] == hex_digit_of(b@[i as int] as int / 16)) by {
                assert((2 * i) % 2 == 0);
                assert((2 * i) / 2 == i);
            }
            assert(h[2 * i + 1] == hex_digit_of(b@[i as int] as int % 16)) by {
                assert((2 * i + 1) % 2 == 1);
                assert((2 * i + 1) / 2 == i);
            }
            assert(out@ =~= old(out)@ + h.take(2 * (i + 1)));
        }
        i += 1;
    }
    proof {
        assert(hex_text(b@).take(2 * b@.len() as int) =~= hex_text(b@));
    }
}

proof fn lemma_hex_round_trip(b: Seq<u8>)
    requires
        b.len() > 0,
    ensures
        is_hex(hex_text(b)),
        hex_decode(hex_text(b)) == b,
        all_printable(hex_text(b)),
        forall|i: int| 0 <= i < hex_text(b).len() ==> is_graphic(#[trigger] hex_text(b)[i]),
{
    let h = hex_text(b);
    assert forall|i: int| 0 <= i < h.len() implies is_hex_digit(#[trigger] h[i]) && is_graphic(
        h[i],
    ) by {
        assert(0 <= i / 2 < b.len());
    }
    let d = hex_decode(h);
    assert forall|i: int| 0 <= i < b.len() implies d[i] == b[i] by {
        assert((2 * i) % 2 == 0);
        assert((2 * i) / 2 == i);
        assert((2 * i + 1) % 2 == 1);
        assert((2 * i + 1) / 2 == i);
    }
    assert(d =~= b);
}

// ---- values

pub open spec fn array_kind(b: u8) -> Option<IntArrayType> {
    if b == 99 {
        Some(IntArrayType::I8)
    } else if b == 67 {
        Some(IntArrayType::U8)
    } else if b == 115 {
        Some(IntArrayType::I16)
    } else if b == 83 {
        Some(IntArrayType::U16)
    } else if b == 105 {
        Some(IntArrayType::I32)
    } else if b == 73 {
        Some(IntArrayType::U32)
    } else {
        None
    }
}

pub open spec fn array_letter(k: IntArrayType) -> u8 {
    match k {
        IntArrayType::I8 => 99,
        IntArrayType::U8 => 67,
        IntArrayType::I16 => 115,
        IntArrayType::U16 => 83,
        IntArrayType::I32 => 105,
        IntArrayType::U32 => 73,
    }
}

/// The values that an element of type `k` can hold.
pub open spec fn in_range(k: IntArrayType, n: int) -> bool {
    match k {
        IntArrayType::I8 => -128 <= n <= 127,
        IntArrayType::U8 => 0 <= n <= 255,
        IntArrayType::I16 => -32768 <= n <= 32767,
        IntArrayType::U16 => 0 <= n <= 65535,
        IntArrayType::I32 => -2147483648 <= n <= 2147483647,
        IntArrayType::U32 => 0 <= n <= 4294967295,
    }
}

pub open spec fn int_item_ok(k: IntArrayType, x: Seq<u8>) -> bool {
    spec_parse_int(x) is Some && in_range(k, spec_parse_int(x)->Some_0)
}

pub open spec fn item_value(x: Seq<u8>) -> i64 {
    spec_parse_int(x)->Some_0 as i64
}

/// `B`: an element type letter, then the elements separated by commas.
pub open spec fn spec_parse_array(v: Seq<u8>) -> Option<ValueModel> {
    if v.len() < 2 {
        None
    } else {
        let items = split_spec(v.drop_first(), 44);
        if v[0] == 102 {
            if forall|i: int| 0 <= i < items.len() ==> is_float(#[trigger] items[i]) {
                Some(ValueModel::BFloat(items))
            } else {
                None
            }
        } else {
            match array_kind(v[0]) {
                Some(k) => if forall|i: int|
                    0 <= i < items.len() ==> int_item_ok(k, #[trigger] items[i]) {
                    Some(ValueModel::BInt(k, items.map_values(|x: Seq<u8>| item_value(x))))
                } else {
                    None
                },
                None => None,
            }
        }
    }
}

/// The value that `v` writes under the type letter `ty`.
pub open spec fn spec_parse_value(ty: u8, v: Seq<u8>) -> Option<ValueModel> {
    if ty == 65 {
        if v.len() == 1 && is_graphic(v[0]) {
            Some(ValueModel::A(v[0]))
        } else {
            None
        }
    } else if ty == 105 {
        match spec_parse_i64(v) {
            Some(n) => Some(ValueModel::Int(n)),
            None => None,
        }
    } else if ty == 102 {
        if is_float(v) {
            Some(ValueModel::Float(v))
        } else {
            None
        }
    } else if ty == 90 {
        if v.len() > 0 && all_printable(v) {
            Some(ValueModel::Z(v))
        } else {
            None
        }
    } else if ty == 74 {
        if v.len() > 0 && all_printable(v) {
            Some(ValueModel::J(v))
        } else {
            None
        }
    } else if ty == 72 {
        if is_hex(v) {
            Some(ValueModel::H(hex_decode(v)))
        } else {
            None
        }
    } else if ty == 66 {
        spec_parse_array(v)
    } else {
        None
    }
}

/// The tagged value that a token `TT:t:VALUE` writes.
pub open spec fn spec_parse_tag(t: Seq<u8>) -> Option<TagModel> {
    if t.len() < 5 || !is_graphic(t[0]) || !is_graphic(t[1]) || t[2] != 58 || t[4] != 58 {
        None
    } else {
        match spec_parse_value(t[3], t.skip(5)) {
            Some(v) => Some(TagModel { name: t.take(2), value: v }),
            None => None,
        }
    }
}

pub open spec fn type_letter(v: ValueModel) -> u8 {
    match v {
        ValueModel::A(_) => 65,
        ValueModel::Int(_) => 105,
        ValueModel::Float(_) => 102,
        ValueModel::H(_) => 72,
        ValueModel::Z(_) => 90,
        ValueModel::J(_) => 74,
        ValueModel::BInt(_, _) => 66,
        ValueModel::BFloat(_) => 66,
    }
}

pub open spec fn int_texts(vs: Seq<i64>) -> Seq<Seq<u8>> {
    vs.map_values(|n: i64| int_text(n as int))
}

/// The canonical text of a value.
pub open spec fn value_text(v: ValueModel) -> Seq<u8> {
    match v {
        ValueModel::A(b) => seq![b],
        ValueModel::Int(n) => int_text(n as int),
        ValueModel::Float(s) => s,
        ValueModel::H(b) => hex_text(b),
        ValueModel::Z(s) => s,
        ValueModel::J(s) => s,
        ValueModel::BInt(k, vs) => seq![array_letter(k)] + join_spec(int_texts(vs), 44),
        ValueModel::BFloat(fs) => seq![102u8] + join_spec(fs, 44),
    }
}

/// The canonical token of a tagged value.
pub open spec fn tag_text(t: TagModel) -> Seq<u8> {
    t.name + seq![58u8, type_letter(t.value), 58u8] + value_text(t.value)
}

/// The values that a token can write.
pub open spec fn valid_value(v: ValueModel) -> bool {
    match v {
        ValueModel::A(b) => is_graphic(b),
        ValueModel::Int(_) => true,
        ValueModel::Float(s) => is_float(s),
        ValueModel::H(b) => b.len() > 0,
        ValueModel::Z(s) => s.len() > 0 && all_printable(s),
        ValueModel::J(s) => s.len() > 0 && all_printable(s),
        ValueModel::BInt(k, vs) => vs.len() > 0 && forall|i: int|
            0 <= i < vs.len() ==> in_range(k, #[trigger] vs[i] as int),
        ValueModel::BFloat(fs) => fs.len() > 0 && forall|i: int|
            0 <= i < fs.len() ==> is_float(#[trigger] fs[i]),
    }
}

pub open spec fn valid_tag(t: TagModel) -> bool {
    t.name.len() == 2 && is_graphic(t.name[0]) && is_graphic(t.name[1]) && valid_value(t.value)
}

proof fn lemma_float_no(s: Seq<u8>, x: u8)
    requires
        is_float(s),
        !is_float_char(x),
    ensures
        !contains_byte(s, x),
{
    if contains_byte(s, x) {
        let k = choose|k: int| 0 <= k < s.len() && s[k] == x;
        assert(is_float_char(s[k]));
    }
}

#[verifier::rlimit(30)]
proof fn lemma_value_round_trip(v: ValueModel)
    requires
        valid_value(v),
    ensures
        spec_parse_value(type_letter(v), value_text(v)) == Some(v),
        !contains_byte(value_text(v), 9),
{
    match v {
        ValueModel::A(b) => {},
        ValueModel::Int(n) => {
            lemma_int_text(n as int);
        },
        ValueModel::Float(s) => {
            lemma_float_no(s, 9);
        },
        ValueModel::H(b) => {
            lemma_hex_round_trip(b);
            let h = hex_text(b);
            if contains_byte(h, 9) {
                let k = choose|k: int| 0 <= k < h.len() && h[k] == 9;
                assert(is_graphic(h[k]));
            }
        },
        ValueModel::Z(s) => {
            if contains_byte(s, 9) {
                let k = choose|k: int| 0 <= k < s.len() && s[k] == 9;
                assert(is_printable(s[k]));
            }
        },
        ValueModel::J(s) => {
            if contains_byte(s, 9) {
                let k = choose|k: int| 0 <= k < s.len() && s[k] == 9;
                assert(is_printable(s[k]));
            }
        },
        ValueModel::BInt(k, vs) => {
            let texts = int_texts(vs);
            assert forall|i: int| 0 <= i < texts.len() implies !contains_byte(
                #[trigger] texts[i],
                44,
            ) && !contains_byte(texts[i], 9) && spec_parse_i64(texts[i]) == Some(vs[i]) by {
                lemma_int_text(vs[i] as int);
            }
            lemma_split_join(texts, 44);
            lemma_join_avoids(texts, 44, 9);
            let t = value_text(v);
            assert(t.drop_first() =~= join_spec(texts, 44));
            let items = split_spec(t.drop_first(), 44);
            assert(items == texts);
            assert forall|i: int| 0 <= i < items.len() implies int_item_ok(k, #[trigger] items[i]) by {
                assert(spec_parse_i64(texts[i]) == Some(vs[i]));
            }
            assert(items.map_values(|x: Seq<u8>| item_value(x)) =~= vs) by {
                assert forall|i: int| 0 <= i < vs.len() implies item_value(items[i]) == vs[i] by {
                    assert(spec_parse_i64(texts[i]) == Some(vs[i]));
                }
            }
            if contains_byte(t, 9) {
                let j = choose|j: int| 0 <= j < t.len() && t[j] == 9;
                assert(j > 0);
                assert(t.drop_first()[j - 1] == 9);
            }
        },
        ValueModel::BFloat(fs) => {
            assert forall|i: int| 0 <= i < fs.len() implies !contains_byte(#[trigger] fs[i], 44)
                && !contains_byte(fs[i], 9) by {
                lemma_float_no(fs[i], 44);
                lemma_float_no(fs[i], 9);
            }
            lemma_split_join(fs, 44);
            lemma_join_avoids(fs, 44, 9);
            let t = value_text(v);
            assert(t.drop_first() =~= join_spec(fs, 44));
            if contains_byte(t, 9) {
                let j = choose|j: int| 0 <= j < t.len() && t[j] == 9;
                assert(j > 0);
                assert(t.drop_first()[j - 1] == 9);
            }
        },
    }
}

/// Every valid tagged value is written as a token without a tab, and that
/// token reads back to the same value.
pub proof fn lemma_tag_round_trip(t: TagModel)
    requires
        valid_tag(t),
    ensures
        spec_parse_tag(tag_text(t)) == Some(t),
        !contains_byte(tag_text(t), 9),
        tag_text(t).len() >= 5,
{
    lemma_value_round_trip(t.value);
    let s = tag_text(t);
    assert(s.skip(5) =~= value_text(t.value));
    assert(s.take(2) =~= t.name);
    if contains_byte(s, 9) {
        let j = choose|j: int| 0 <= j < s.len() && s[j] == 9;
        if j >= 5 {
            assert(s.skip(5)[j - 5] == 9);
        }
    }
}

#[verifier::rlimit(30)]
fn parse_array(v: &Vec<u8>) -> (r: Option<OptFieldVal>)
    ensures
        match r {
            Some(x) => spec_parse_array(v@) == Some(x@),
            None => spec_parse_array(v@) is None,
        },
{
    if v.len() < 2 {
        return None;
    }
    let rest = sub_bytes(v, 1, v.len());
    proof {
        assert(rest@ =~= v@.drop_first());
    }
    let items = split_bytes(rest.as_slice(), 44);
    let ghost spec_items = split_spec(v@.drop_first(), 44);
    let n = items.len();
    if v[0] == 102 {
        let mut i: usize = 0;
        while i < n
            invariant
                0 <= i <= n,
                n == items@.len(),
                view_all(items@) == spec_items,
                spec_items == split_spec(v@.drop_first(), 44),
                v@.len() >= 2,
                v@[0] == 102,
                forall|j: int| 0 <= j < i ==> is_float(#[trigger] spec_items[j]),
            decreases n - i,
        {
            if !check_float(&items[i]) {
                proof {
                    assert(spec_items[i as int] == items@[i as int]@);
                }
                return None;
            }
            proof {
                assert(spec_items[i as int] == items@[i as int]@);
            }
            i += 1;
        }
        return Some(OptFieldVal::BFloat(items));
    }
    let kind = if v[0] == 99 {
        IntArrayType::I8
    } else if v[0] == 67 {
        IntArrayType::U8
    } else if v[0] == 115 {
        IntArrayType::I16
    } else if v[0] == 83 {
        IntArrayType::U16
    } else if v[0] == 105 {
        IntArrayType::I32
    } else if v[0] == 73 {
        IntArrayType::U32
    } else {
        return None;
    };
    proof {
        assert(array_kind(v@[0]) == Some(kind));
    }
    let mut vals: Vec<i64> = Vec::new();
    let mut i: usize = 0;
    while i < n
        invariant
            0 <= i <= n,
            n == items@.len(),
            view_all(items@) == spec_items,
            spec_items == split_spec(v@.drop_first(), 44),
            v@.len() >= 2,
            v@[0] != 102,
            array_kind(v@[0]) == Some(kind),
            vals@.len() == i,
            forall|j: int| 0 <= j < i ==> int_item_ok(kind, #[trigger] spec_items[j]),
            forall|j: int| 0 <= j < i ==> vals@[j] == item_value(#[trigger] spec_items[j]),
        decreases n - i,
    {
        proof {
            assert(spec_items[i as int] == items@[i as int]@);
        }
        let parsed = parse_i64(items[i].as_slice());
        let x = match parsed {
            None => {
                return None;
            },
            Some(x) => x,
        };
        let ok = match kind {
            IntArrayType::I8 => -128 <= x && x <= 127,
            IntArrayType::U8 => 0 <= x && x <= 255,
            IntArrayType::I16 => -32768 <= x && x <= 32767,
            IntArrayType::U16 => 0 <= x && x <= 65535,
            IntArrayType::I32 => -2147483648 <= x && x <= 2147483647,
            IntArrayType::U32 => 0 <= x && x <= 4294967295,
        };
        if !ok {
            return None;
        }
        vals.push(x);
        i += 1;
    }
    proof {
        assert(vals@ =~= spec_items.map_values(|x: Seq<u8>| item_value(x)));
    }
    Some(OptFieldVal::BInt(kind, vals))
}

fn parse_value(ty: u8, v: Vec<u8>) -> (r: Option<OptFieldVal>)
    ensures
        match r {
            Some(x) => spec_parse_value(ty, v@) == Some(x@),
            None => spec_parse_value(ty, v@) is None,
        },
{
    if ty == 65 {
        if v.len() == 1 && v[0] >= 33 && v[0] <= 126 {
            Some(OptFieldVal::A(v[0]))
        } else {
            None
        }
    } else if ty == 105 {
        match parse_i64(v.as_slice()) {
            Some(n) => Some(OptFieldVal::Int(n)),
            None => None,
        }
    } else if ty == 102 {
        if check_float(&v) {
            Some(OptFieldVal::Float(v))
        } else {
            None
        }
    } else if ty == 90 {
        if check_text(v.as_slice()) {
            Some(OptFieldVal::Z(v))
        } else {
            None
        }
    } else if ty == 74 {
        if check_text(v.as_slice()) {
            Some(OptFieldVal::J(v))
        } else {
            None
        }
    } else if ty == 72 {
        match decode_hex(&v) {
            Some(b) => Some(OptFieldVal::H(b)),
            None => None,
        }
    } else if ty == 66 {
        parse_array(&v)
    } else {
        None
    }
}

impl OptField {
    pub fn new(tag: &[u8; 2], value: OptFieldVal) -> (r: OptField)
        ensures
            r@ == (TagModel { name: tag@, value: value@ }),
    {
        OptField { tag: *tag, value }
    }

    /// Reads one token `TT:t:VALUE`.
    pub fn parse(token: &[u8]) -> (r: Option<OptField>)
        ensures
            match r {
                Some(f) => spec_parse_tag(token@) == Some(f@),
                None => spec_parse_tag(token@) is None,
            },
    {
        let n = token.len();
        if n < 5 || token[0] < 33 || token[0] > 126 || token[1] < 33 || token[1] > 126 || token[2]
            != 58 || token[4] != 58 {
            return None;
        }
        let mut v: Vec<u8> = Vec::new();
        let mut i: usize = 5;
        while i < n
            invariant
                5 <= i <= n,
                n == token@.len(),
                v@ == token@.subrange(5, i as int),
            decreases n - i,
        {
            v.push(token[i]);
            proof {
                assert(token@.subrange(5, i + 1) =~= token@.subrange(5, i as int).push(
                    token@[i as int],
                ));
            }
            i += 1;
        }
        proof {
            assert(v@ =~= token@.skip(5));
        }
        match parse_value(token[3], v) {
            Some(value) => {
                let name: [u8; 2] = [token[0], token[1]];
                proof {
                    assert(name@ =~= token@.take(2));
                }
                Some(OptField { tag: name, value })
            },
            None => None,
        }
    }

    /// Appends the canonical token of this field.
    #[verifier::rlimit(30)]
    pub fn render(&self, out: &mut Vec<u8>)
        ensures
            final(out)@ == old(out)@ + tag_text(self@),
    {
        out.push(self.tag[0]);
        out.push(self.tag[1]);
        out.push(58);
        let ghost head = out@;
        match &self.value {
            OptFieldVal::A(b) => {
                out.push(65);
                out.push(58);
                out.push(*b);
            },
            OptFieldVal::Int(n) => {
                out.push(105);
                out.push(58);
                push_i64(out, *n);
            },
            OptFieldVal::Float(s) => {
                out.push(102);
                out.push(58);
                push_all(out, s.as_slice());
            },
            OptFieldVal::H(b) => {
                out.push(72);
                out.push(58);
                push_hex(out, b);
            },
            OptFieldVal::Z(s) => {
                out.push(90);
                out.push(58);
                push_all(out, s.as_slice());
            },
            OptFieldVal::J(s) => {
                out.push(74);
                out.push(58);
                push_all(out, s.as_slice());
            },
            OptFieldVal::BInt(k, vs) => {
                out.push(66);
                out.push(58);
                out.push(
                    match k {
                        IntArrayType::I8 => 99,
                        IntArrayType::U8 => 67,
                        IntArrayType::I16 => 115,
                        IntArrayType::U16 => 83,
                        IntArrayType::I32 => 105,
                        IntArrayType::U32 => 73,
                    },
                );
                let ghost start = out@;
                let mut i: usize = 0;
                while i < vs.len()
                    invariant
                        0 <= i <= vs@.len(),
                        i == 0 ==> out@ == start,
                        i > 0 ==> out@ == start + join_spec(int_texts(vs@).take(i as int), 44),
                    decreases vs.len() - i,
                {
                    let ghost before = out@;
                    if i > 0 {
                        out.push(44);
                    }
                    push_i64(out, vs[i]);
                    proof {
                        let t = int_texts(vs@);
                        assert(t.take(i + 1) =~= t.take(i as int).push(t[i as int]));
                        if i > 0 {
                            lemma_join_push(t.take(i as int), t[i as int], 44);
                        } else {
                            assert(t.take(1) =~= seq![t[0]]);
                        }
                        assert(out@ =~= start + join_spec(t.take(i + 1), 44));
                    }
                    i += 1;
                }
                proof {
                    let t = int_texts(vs@);
                    assert(t.take(i as int) =~= t);
                    if i == 0 {
                        assert(join_spec(t, 44) =~= Seq::<u8>::empty());
                    }
                }
            },
            OptFieldVal::BFloat(fs) => {
                out.push(66);
                out.push(58);
                out.push(102);
                let ghost start = out@;
                let mut i: usize = 0;
                while i < fs.len()
                    invariant
                        0 <= i <= fs@.len(),
                        i == 0 ==> out@ == start,
                        i > 0 ==> out@ == start + join_spec(view_all(fs@).take(i as int), 44),
                    decreases fs.len() - i,
                {
                    if i > 0 {
                        out.push(44);
                    }
                    push_all(out, fs[i].as_slice());
                    proof {
                        let t = view_all(fs@);
                        assert(t.take(i + 1) =~= t.take(i as int).push(t[i as int]));
                        if i > 0 {
                            lemma_join_push(t.take(i as int), t[i as int], 44);
                        } else {
                            assert(t.take(1) =~= seq![t[0]]);
                        }
                        assert(out@ =~= start + join_spec(t.take(i + 1), 44));
                    }
                    i += 1;
                }
                proof {
                    let t = view_all(fs@);
                    assert(t.take(i as int) =~= t);
                    if i == 0 {
                        assert(join_spec(t, 44) =~= Seq::<u8>::empty());
                    }
                }
            },
        }
        proof {
            assert(final(out)@ =~= old(out)@ + tag_text(self@));
        }
    }
}

// ---- collections of optional fields

/// The tagged values that a run of tokens holds; tokens that are not a
/// valid optional field are passed over.
pub open spec fn parse_tags(ts: Seq<Seq<u8>>) -> Seq<TagModel>
    decreases ts.len(),
{
    if ts.len() == 0 {
        Seq::empty()
    } else {
        one_tag(ts[0]) + parse_tags(ts.drop_first())
    }
}

pub open spec fn one_tag(t: Seq<u8>) -> Seq<TagModel> {
    match spec_parse_tag(t) {
        Some(x) => seq![x],
        None => Seq::empty(),
    }
}

pub open spec fn tag_texts(tags: Seq<TagModel>) -> Seq<Seq<u8>> {
    tags.map_values(|t: TagModel| tag_text(t))
}

pub open spec fn valid_tags(tags: Seq<TagModel>) -> bool {
    forall|i: int| 0 <= i < tags.len() ==> valid_tag(#[trigger] tags[i])
}

pub proof fn lemma_parse_tags_push(ts: Seq<Seq<u8>>, x: Seq<u8>)
    ensures
        parse_tags(ts.push(x)) == parse_tags(ts) + one_tag(x),
    decreases ts.len(),
{
    if ts.len() == 0 {
        let p = ts.push(x);
        assert(p.drop_first() =~= Seq::<Seq<u8>>::empty());
        assert(p[0] == x);
        assert(parse_tags(p.drop_first()) == Seq::<TagModel>::empty());
        assert(parse_tags(ts) == Seq::<TagModel>::empty());
        assert(one_tag(x) + Seq::<TagModel>::empty() =~= Seq::<TagModel>::empty() + one_tag(x));
    } else {
        lemma_parse_tags_push(ts.drop_first(), x);
        assert(ts.push(x).drop_first() =~= ts.drop_first().push(x));
        assert(parse_tags(ts.push(x)) =~= parse_tags(ts) + one_tag(x));
    }
}

/// Valid tagged values written as tokens read back to themselves, and no
/// token holds a tab.
pub proof fn lemma_tags_round_trip(tags: Seq<TagModel>)
    requires
        valid_tags(tags),
    ensures
        parse_tags(tag_texts(tags)) == tags,
        forall|i: int|
            0 <= i < tag_texts(tags).len() ==> !contains_byte(#[trigger] tag_texts(tags)[i], 9),
    decreases tags.len(),
{
    let ts = tag_texts(tags);
    assert forall|i: int| 0 <= i < ts.len() implies !contains_byte(#[trigger] ts[i], 9) by {
        lemma_tag_round_trip(tags[i]);
    }
    if tags.len() > 0 {
        let rest = tags.drop_first();
        assert(valid_tags(rest)) by {
            assert forall|i: int| 0 <= i < rest.len() implies valid_tag(#[trigger] rest[i]) by {
                assert(rest[i] == tags[i + 1]);
            }
        }
        lemma_tags_round_trip(rest);
        lemma_tag_round_trip(tags[0]);
        assert(ts.drop_first() =~= tag_texts(rest));
        assert(seq![tags[0]] + rest =~= tags);
    } else {
        assert(ts =~= Seq::<Seq<u8>>::empty());
    }
}

/// How a record keeps its optional fields: not at all (`()`), or all of
/// them in the order met (`OptionalFields`).
pub trait OptFields: Sized {
    /// The tagged values held.
    spec fn spec_tags(&self) -> Seq<TagModel>;

    /// What is held after reading the tagged values `tags`.
    spec fn spec_keep(tags: Seq<TagModel>) -> Seq<TagModel>;

    fn empty() -> (r: Self)
        ensures
            r.spec_tags() == Seq::<TagModel>::empty(),
    ;

    /// Reads the tokens from index `from` on; reading never fails.
    fn parse(tokens: &Vec<Vec<u8>>, from: usize) -> (r: Self)
        requires
            from <= tokens@.len(),
        ensures
            r.spec_tags() == Self::spec_keep(parse_tags(view_all(tokens@).skip(from as int))),
    ;

    /// Appends the tokens of the tagged values held.
    fn render(&self, out: &mut Vec<Vec<u8>>)
        ensures
            view_all(final(out)@) == view_all(old(out)@) + tag_texts(self.spec_tags()),
    ;

    /// Whether this way of keeping fields keeps them all.
    spec fn spec_captures() -> bool;

    /// A strategy keeps either everything it reads or nothing.
    proof fn lemma_keep(tags: Seq<TagModel>)
        ensures
            Self::spec_captures() ==> Self::spec_keep(tags) == tags,
            !Self::spec_captures() ==> Self::spec_keep(tags) == Seq::<TagModel>::empty(),
    ;

    /// Keeping what is already held changes nothing.
    proof fn lemma_keep_own(&self)
        ensures
            Self::spec_keep(self.spec_tags()) == self.spec_tags(),
    ;
}

/// Optional fields kept in the order met.
pub type OptionalFields = Vec<OptField>;

impl OptFields for () {
    open spec fn spec_tags(&self) -> Seq<TagModel> {
        Seq::empty()
    }

    open spec fn spec_keep(tags: Seq<TagModel>) -> Seq<TagModel> {
        Seq::empty()
    }

    open spec fn spec_captures() -> bool {
        false
    }

    proof fn lemma_keep(tags: Seq<TagModel>) {
    }

    fn empty() -> (r: ()) {
    }

    fn parse(tokens: &Vec<Vec<u8>>, from: usize) -> (r: ()) {
    }

    fn render(&self, out: &mut Vec<Vec<u8>>) {
        proof {
            assert(view_all(final(out)@) =~= view_all(old(out)@) + tag_texts(self.spec_tags()));
        }
    }

    proof fn lemma_keep_own(&self) {
    }
}

impl OptFields for Vec<OptField> {
    open spec fn spec_tags(&self) -> Seq<TagModel> {
        self@.map_values(|f: OptField| f@)
    }

    open spec fn spec_keep(tags: Seq<TagModel>) -> Seq<TagModel> {
        tags
    }

    open spec fn spec_captures() -> bool {
        true
    }

    proof fn lemma_keep(tags: Seq<TagModel>) {
    }

    fn empty() -> (r: Vec<OptField>) {
        let r: Vec<OptField> = Vec::new();
        proof {
            assert(r.spec_tags() =~= Seq::<TagModel>::empty());
        }
        r
    }

    fn parse(tokens: &Vec<Vec<u8>>, from: usize) -> (r: Vec<OptField>) {
        let mut out: Vec<OptField> = Vec::new();
        let mut i: usize = from;
        let ghost ts = view_all(tokens@).skip(from as int);
        proof {
            assert(ts.take(0) =~= Seq::<Seq<u8>>::empty());
            assert(out.spec_tags() =~= parse_tags(ts.take(0)));
        }
        while i < tokens.len()
            invariant
                from <= i <= tokens@.len(),
                ts == view_all(tokens@).skip(from as int),
                out.spec_tags() == parse_tags(ts.take(i - from)),
            decreases tokens.len() - i,
        {
            let ghost before = out.spec_tags();
            let parsed = OptField::parse(tokens[i].as_slice());
            match parsed {
                Some(f) => {
                    out.push(f);
                },
                None => {},
            }
            proof {
                let k = i - from;
                assert(ts.take(k + 1) =~= ts.take(k).push(ts[k]));
                assert(ts[k] == tokens@[i as int]@);
                lemma_parse_tags_push(ts.take(k), ts[k]);
                assert(out.spec_tags() =~= before + one_tag(ts[k]));
            }
            i += 1;
        }
        proof {
            assert(ts.take(i - from) =~= ts);
        }
        out
    }

    fn render(&self, out: &mut Vec<Vec<u8>>) {
        let mut i: usize = 0;
        while i < self.len()
            invariant
                0 <= i <= self@.len(),
                view_all(out@) == view_all(old(out)@) + tag_texts(self.spec_tags()).take(i as int),
            decreases self.len() - i,
        {
            let mut tok: Vec<u8> = Vec::new();
            self[i].render(&mut tok);
            let ghost before = view_all(out@);
            out.push(tok);
            proof {
                assert(tok@ =~= tag_text(self@[i as int]@));
                assert(view_all(out@) =~= before.push(tok@));
                assert(tag_texts(self.spec_tags()).take(i + 1) =~= tag_texts(self.spec_tags()).take(
                    i as int,
                ).push(tag_text(self@[i as int]@)));
            }
            i += 1;
        }
        proof {
            assert(tag_texts(self.spec_tags()).take(i as int) =~= tag_texts(self.spec_tags()));
        }
    }

    proof fn lemma_keep_own(&self) {
    }
}

} // verus!
