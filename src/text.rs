//! Small text utilities shared by the parsers and error messages.
use vstd::prelude::*;
use vstd::string::*;
use vstd::utf8::*;

verus! {

broadcast use vstd::utf8::encode_utf8_decode_utf8;

/// Byte-wise equality of two slices.
pub fn bytes_eq(a: &[u8], b: &[u8]) -> (r: bool)
    ensures
        r == (a@ == b@),
{
    if a.len() != b.len() {
        return false;
    }
    let mut i: usize = 0;
    while i < a.len()
        invariant
            a@.len() == b@.len(),
            0 <= i <= a@.len(),
            forall|j: int| 0 <= j < i ==> a@[j] == b@[j],
        decreases a@.len() - i,
    {
        if a[i] != b[i] {
            return false;
        }
        i = i + 1;
    }
    assert(a@ =~= b@);
    true
}

/// Equality of the characters of two string slices.
pub fn str_eq(a: &str, b: &str) -> (r: bool)
    ensures
        r == (a@ == b@),
{
    let x = a.as_bytes();
    let y = b.as_bytes();
    let r = bytes_eq(x, y);
    proof {
        if r {
            assert(decode_utf8(encode_utf8(a@)) == a@);
            assert(decode_utf8(encode_utf8(b@)) == b@);
        }
    }
    r
}

/// An owned copy of a string slice.
pub fn owned(s: &str) -> (r: String)
    ensures
        r@ == s@,
{
    s.to_owned()
}

/// `prefix` followed by `s`.
pub fn joined(prefix: &str, s: &str) -> (r: String)
    ensures
        r@ == prefix@ + s@,
{
    let p = prefix.to_owned();
    p.concat(s)
}

/// The decimal digits of `n`, most significant first, without leading zeros.
pub open spec fn decimal(n: nat) -> Seq<char>
    decreases n,
{
    if n < 10 {
        seq![digit_char((n % 10) as u8)]
    } else {
        decimal(n / 10).push(digit_char((n % 10) as u8))
    }
}

pub open spec fn digit_char(d: u8) -> char {
    (('0' as u8) + d) as char
}

/// The digit character of `d`, which is below 10.
fn digit_text(d: u64) -> (r: String)
    requires
        d < 10,
    ensures
        r@ == seq![digit_char(d as u8)],
{
    proof {
        reveal_strlit("0");
        reveal_strlit("1");
        reveal_strlit("2");
        reveal_strlit("3");
        reveal_strlit("4");
        reveal_strlit("5");
        reveal_strlit("6");
        reveal_strlit("7");
        reveal_strlit("8");
        reveal_strlit("9");
    }
    let r = if d == 0 {
        owned("0")
    } else if d == 1 {
        owned("1")
    } else if d == 2 {
        owned("2")
    } else if d == 3 {
        owned("3")
    } else if d == 4 {
        owned("4")
    } else if d == 5 {
        owned("5")
    } else if d == 6 {
        owned("6")
    } else if d == 7 {
        owned("7")
    } else if d == 8 {
        owned("8")
    } else {
        owned("9")
    };
    assert(r@ =~= seq![digit_char(d as u8)]);
    r
}

/// The decimal digits of `n`.
fn u64_decimal(n: u64) -> (r: String)
    ensures
        r@ == decimal(n as nat),
    decreases n,
{
    if n < 10 {
        digit_text(n)
    } else {
        let head = u64_decimal(n / 10);
        let last = digit_text(n % 10);
        let r = head.concat(last.as_str());
        assert(r@ =~= decimal((n / 10) as nat).push(digit_char((n % 10) as u8)));
        r
    }
}

/// `prefix`, the decimal digits of `n`, then `suffix`.
pub fn with_number(prefix: &str, n: u64, suffix: &str) -> (r: String)
    ensures
        r@ == prefix@ + decimal(n as nat) + suffix@,
{
    let p = prefix.to_owned();
    let d = u64_decimal(n);
    let p = p.concat(d.as_str());
    p.concat(suffix)
}

/// `s` followed by the decimal digits of `n`.
pub fn append_number(s: String, n: u64) -> (r: String)
    ensures
        r@ == s@ + decimal(n as nat),
{
    let d = u64_decimal(n);
    s.concat(d.as_str())
}

/// The pieces of `b` between the bytes equal to `sep`; one more piece than
/// there are separators.
pub open spec fn split_on(b: Seq<u8>, sep: u8) -> Seq<Seq<u8>>
    decreases b.len(),
{
    if b.len() == 0 {
        seq![seq![]]
    } else {
        let s = split_on(b.drop_last(), sep);
        if b.last() == sep {
            s.push(seq![])
        } else {
            s.update(s.len() - 1, s.last().push(b.last()))
        }
    }
}

pub(crate) proof fn lemma_split_on_nonempty(b: Seq<u8>, sep: u8)
    ensures
        split_on(b, sep).len() >= 1,
    decreases b.len(),
{
    if b.len() > 0 {
        lemma_split_on_nonempty(b.drop_last(), sep);
    }
}

/// The byte ranges of the pieces of `b` between separators `sep`.
pub fn split_ranges(b: &[u8], sep: u8) -> (r: Vec<(usize, usize)>)
    ensures
        r@.len() == split_on(b@, sep).len(),
        forall|k: int|
            0 <= k < r@.len() ==> {
                &&& (#[trigger] r@[k]).0 <= r@[k].1 <= b@.len()
                &&& b@.subrange(r@[k].0 as int, r@[k].1 as int) == split_on(b@, sep)[k]
                &&& (r@[k].0 == 0 || b@[r@[k].0 - 1] == sep)
                &&& (r@[k].1 == b@.len() || b@[r@[k].1 as int] == sep)
            },
{
    let mut r: Vec<(usize, usize)> = Vec::new();
    let mut start: usize = 0;
    let mut i: usize = 0;
    while i < b.len()
        invariant
            0 <= start <= i <= b@.len(),
            start == 0 || b@[start - 1] == sep,
            split_on(b@.subrange(0, i as int), sep).len() == r@.len() + 1,
            split_on(b@.subrange(0, i as int), sep)[r@.len() as int] == b@.subrange(start as int, i as int),
            forall|k: int|
                0 <= k < r@.len() ==> {
                    &&& (#[trigger] r@[k]).0 <= r@[k].1 < start
                    &&& b@.subrange(r@[k].0 as int, r@[k].1 as int) == split_on(b@.subrange(0, i as int), sep)[k]
                    &&& (r@[k].0 == 0 || b@[r@[k].0 - 1] == sep)
                    &&& b@[r@[k].1 as int] == sep
                },
        decreases b@.len() - i,
    {
        proof {
            assert(b@.subrange(0, i + 1).drop_last() =~= b@.subrange(0, i as int));
            assert(b@.subrange(0, i + 1).last() == b@[i as int]);
        }
        if b[i] == sep {
            r.push((start, i));
            start = i + 1;
            proof {
                assert(b@.subrange(start as int, i + 1) =~= Seq::<u8>::empty());
            }
        } else {
            proof {
                assert(b@.subrange(start as int, i + 1) =~= b@.subrange(start as int, i as int).push(b@[i as int]));
            }
        }
        i = i + 1;
    }
    r.push((start, i));
    proof {
        assert(b@.subrange(0, b@.len() as int) =~= b@);
    }
    r
}

/// The part of `s` between byte `a` and byte `e`, where each end is an end
/// of `s` or next to an ASCII byte.
pub fn piece(s: &str, a: usize, e: usize) -> (r: &str)
    requires
        a <= e <= s.spec_bytes().len(),
        a == 0 || s.spec_bytes()[a - 1] < 0x80,
        e == s.spec_bytes().len() || s.spec_bytes()[e as int] < 0x80,
    ensures
        r.spec_bytes() == s.spec_bytes().subrange(a as int, e as int),
{
    let ghost bytes = s.spec_bytes();
    proof {
        encode_utf8_valid_utf8(s@);
        is_char_boundary_start_end_of_seq(bytes);
        if e < bytes.len() {
            is_char_boundary_iff_not_is_continuation_byte(bytes, e as int);
        }
    }
    let (left, _) = s.split_at(e);
    if a == 0 {
        return left;
    }
    let ghost lb = left.spec_bytes();
    proof {
        encode_utf8_valid_utf8(left@);
        is_char_boundary_iff_not_is_continuation_byte(lb, a - 1);
    }
    let (_, rest) = left.split_at(a - 1);
    let ghost rb = rest.spec_bytes();
    proof {
        encode_utf8_valid_utf8(rest@);
        is_char_boundary_start_end_of_seq(rb);
        assert(rb[0] < 0x80);
        assert(length_of_first_scalar(rb) == 1);
        reveal_with_fuel(is_char_boundary, 2);
        assert(is_char_boundary(rb, 1));
    }
    let (_, r) = rest.split_at(1);
    assert(r.spec_bytes() =~= bytes.subrange(a as int, e as int));
    r
}

/// The value of a run of decimal digits.
pub open spec fn digits_value(b: Seq<u8>) -> int
    decreases b.len(),
{
    if b.len() == 0 {
        0
    } else {
        digits_value(b.drop_last()) * 10 + (b.last() - 0x30)
    }
}

pub open spec fn is_digit(c: u8) -> bool {
    0x30 <= c <= 0x39
}

/// `b` without one leading `+`, if it has one.
pub open spec fn without_plus(b: Seq<u8>) -> Seq<u8> {
    if b.len() > 0 && b[0] == 0x2b {
        b.subrange(1, b.len() as int)
    } else {
        b
    }
}

/// The number that the digits `d` spell, if they are all digits, there is
/// at least one, and the number is at most `max`.
pub open spec fn digits_number(d: Seq<u8>, max: int) -> Option<int> {
    if d.len() > 0 && (forall|k: int| 0 <= k < d.len() ==> is_digit(#[trigger] d[k]))
        && digits_value(d) <= max {
        Some(digits_value(d))
    } else {
        None
    }
}

/// The number that `b` spells in decimal, with an optional leading `+`,
/// as std reads an unsigned integer; `None` if it is not one or does not
/// fit in `max`.
pub open spec fn decimal_value(b: Seq<u8>, max: int) -> Option<int> {
    digits_number(without_plus(b), max)
}

proof fn lemma_digits_value_monotone(b: Seq<u8>, i: int)
    requires
        0 <= i <= b.len(),
        forall|k: int| 0 <= k < b.len() ==> is_digit(#[trigger] b[k]),
    ensures
        digits_value(b.subrange(0, i)) <= digits_value(b),
        digits_value(b.subrange(0, i)) >= 0,
    decreases b.len(),
{
    if i == b.len() {
        assert(b.subrange(0, i) =~= b);
        if b.len() > 0 {
            lemma_digits_value_monotone(b.drop_last(), b.len() - 1);
            assert(b.drop_last().subrange(0, b.len() - 1) =~= b.drop_last());
        }
    } else {
        lemma_digits_value_monotone(b.drop_last(), i);
        assert(b.drop_last().subrange(0, i) =~= b.subrange(0, i));
        lemma_digits_value_monotone(b.drop_last(), b.len() - 1);
        assert(b.drop_last().subrange(0, b.len() - 1) =~= b.drop_last());
    }
}

/// Reads the unsigned decimal number in `b[a..e]` (see [`decimal_value`]).
pub fn parse_decimal(b: &[u8], a: usize, e: usize, max: u64) -> (r: Option<u64>)
    requires
        a <= e <= b@.len(),
    ensures
        match decimal_value(b@.subrange(a as int, e as int), max as int) {
            Some(v) => r == Some(v as u64),
            None => r is None,
        },
        r is Some ==> decimal_value(b@.subrange(a as int, e as int), max as int) == Some(
            r->0 as int,
        ),
{
    let ghost whole = b@.subrange(a as int, e as int);
    let mut i = a;
    if i < e && b[i] == 0x2b {
        i = i + 1;
    }
    let ghost d = b@.subrange(i as int, e as int);
    proof {
        assert(d =~= without_plus(whole));
    }
    if i == e {
        return None;
    }
    let start = i;
    let mut v: u64 = 0;
    while i < e
        invariant
            a <= start <= i <= e <= b@.len(),
            d == b@.subrange(start as int, e as int),
            whole == b@.subrange(a as int, e as int),
            d == without_plus(whole),
            forall|k: int| start <= k < i ==> is_digit(#[trigger] b@[k]),
            v == digits_value(b@.subrange(start as int, i as int)),
            v <= max,
        decreases e - i,
    {
        let c = b[i];
        proof {
            assert(b@.subrange(start as int, i + 1).drop_last() =~= b@.subrange(start as int, i as int));
        }
        if c < 0x30 || c > 0x39 {
            proof {
                assert(d[i - start] == c);
                assert(!is_digit(d[i - start]));
                assert(!(forall|k: int| 0 <= k < d.len() ==> is_digit(#[trigger] d[k])));
            }
            return None;
        }
        let digit = (c - 0x30) as u64;
        if digit > max || v > (max - digit) / 10 {
            proof {
                if digit <= max {
                    assert(v * 10 + digit > max) by (nonlinear_arith)
                        requires
                            v > (max - digit) / 10,
                            digit <= 9,
                            digit <= max,
                    ;
                }
                if forall|k: int| 0 <= k < d.len() ==> is_digit(#[trigger] d[k]) {
                    lemma_digits_value_monotone(d, i + 1 - start);
                    assert(d.subrange(0, i + 1 - start) =~= b@.subrange(start as int, i + 1));
                }
            }
            return None;
        }
        proof {
            assert(v * 10 + digit <= max) by (nonlinear_arith)
                requires
                    v <= (max - digit) / 10,
                    digit <= 9,
                    digit <= max,
            ;
        }
        v = v * 10 + digit;
        i = i + 1;
    }
    Some(v)
}

/// ASCII whitespace: space, tab, line feed, vertical tab, form feed and
/// carriage return.
pub open spec fn is_space(c: u8) -> bool {
    c == 0x20 || c == 0x09 || c == 0x0a || c == 0x0b || c == 0x0c || c == 0x0d
}

/// A byte of the class that a trim removes: whitespace (`ws`) or `c`.
pub open spec fn in_class(x: u8, ws: bool, c: u8) -> bool {
    if ws {
        is_space(x)
    } else {
        x == c
    }
}

/// `b` without the bytes of the class at its front.
pub open spec fn strip_front(b: Seq<u8>, ws: bool, c: u8) -> Seq<u8>
    decreases b.len(),
{
    if b.len() > 0 && in_class(b[0], ws, c) {
        strip_front(b.subrange(1, b.len() as int), ws, c)
    } else {
        b
    }
}

/// `b` without the bytes of the class at its back.
pub open spec fn strip_back(b: Seq<u8>, ws: bool, c: u8) -> Seq<u8>
    decreases b.len(),
{
    if b.len() > 0 && in_class(b.last(), ws, c) {
        strip_back(b.drop_last(), ws, c)
    } else {
        b
    }
}

/// `b` without the bytes of the class at either end.
pub open spec fn strip_both(b: Seq<u8>, ws: bool, c: u8) -> Seq<u8> {
    strip_back(strip_front(b, ws, c), ws, c)
}

/// The first index of `c` in `b`.
pub open spec fn first_index(b: Seq<u8>, c: u8) -> Option<int>
    decreases b.len(),
{
    if b.len() == 0 {
        None
    } else if b[0] == c {
        Some(0)
    } else {
        match first_index(b.subrange(1, b.len() as int), c) {
            Some(i) => Some(i + 1),
            None => None,
        }
    }
}

fn class_member(x: u8, ws: bool, c: u8) -> (r: bool)
    ensures
        r == in_class(x, ws, c),
{
    if ws {
        x == 0x20 || x == 0x09 || x == 0x0a || x == 0x0b || x == 0x0c || x == 0x0d
    } else {
        x == c
    }
}

/// The range `a..e` of `b` without the bytes of the class at either end;
/// the bytes just outside the result are ends of the range or of the class.
pub fn trim_range(b: &[u8], a: usize, e: usize, ws: bool, c: u8) -> (r: (usize, usize))
    requires
        a <= e <= b@.len(),
    ensures
        a <= r.0 <= r.1 <= e,
        b@.subrange(r.0 as int, r.1 as int) == strip_both(b@.subrange(a as int, e as int), ws, c),
        r.0 == a || in_class(b@[r.0 - 1], ws, c),
        r.1 == e || in_class(b@[r.1 as int], ws, c),
{
    let mut lo = a;
    while lo < e && class_member(b[lo], ws, c)
        invariant
            a <= lo <= e <= b@.len(),
            strip_front(b@.subrange(a as int, e as int), ws, c) == strip_front(b@.subrange(lo as int, e as int), ws, c),
            lo == a || in_class(b@[lo - 1], ws, c),
        decreases e - lo,
    {
        proof {
            assert(b@.subrange(lo as int, e as int).subrange(1, (e - lo) as int) =~= b@.subrange(lo + 1, e as int));
        }
        lo = lo + 1;
    }
    let mut hi = e;
    proof {
        assert(b@.subrange(lo as int, hi as int) == strip_front(b@.subrange(a as int, e as int), ws, c));
    }
    while hi > lo && class_member(b[hi - 1], ws, c)
        invariant
            a <= lo <= hi <= e <= b@.len(),
            strip_both(b@.subrange(a as int, e as int), ws, c) == strip_back(b@.subrange(lo as int, hi as int), ws, c),
            hi == e || in_class(b@[hi as int], ws, c),
            lo == a || in_class(b@[lo - 1], ws, c),
        decreases hi - lo,
    {
        proof {
            assert(b@.subrange(lo as int, hi as int).drop_last() =~= b@.subrange(lo as int, hi - 1));
        }
        hi = hi - 1;
    }
    (lo, hi)
}

/// The first index of `c` in `b[a..e]`, counted from `a`'s start of `b`.
pub fn find_byte(b: &[u8], a: usize, e: usize, c: u8) -> (r: Option<usize>)
    requires
        a <= e <= b@.len(),
    ensures
        match first_index(b@.subrange(a as int, e as int), c) {
            Some(i) => r == Some((a + i) as usize) && b@[a + i] == c && a + i < e,
            None => r is None,
        },
        r is Some ==> a <= r->0 < e && b@[r->0 as int] == c && first_index(
            b@.subrange(a as int, e as int),
            c,
        ) == Some(r->0 - a),
        r is None ==> first_index(b@.subrange(a as int, e as int), c) is None,
{
    let mut i = a;
    while i < e
        invariant
            a <= i <= e <= b@.len(),
            first_index(b@.subrange(a as int, e as int), c) == (match first_index(b@.subrange(i as int, e as int), c) {
                Some(j) => Some(j + (i - a)),
                None => None::<int>,
            }),
        decreases e - i,
    {
        if b[i] == c {
            return Some(i);
        }
        proof {
            assert(b@.subrange(i as int, e as int).subrange(1, (e - i) as int) =~= b@.subrange(i + 1, e as int));
        }
        i = i + 1;
    }
    None
}

/// The end of the range `a..e` of `b` once trailing whitespace is removed.
pub fn trim_end_range(b: &[u8], a: usize, e: usize) -> (r: usize)
    requires
        a <= e <= b@.len(),
    ensures
        a <= r <= e,
        b@.subrange(a as int, r as int) == strip_back(b@.subrange(a as int, e as int), true, 0),
        r == e || is_space(b@[r as int]),
{
    let mut hi = e;
    while hi > a && class_member(b[hi - 1], true, 0)
        invariant
            a <= hi <= e <= b@.len(),
            strip_back(b@.subrange(a as int, e as int), true, 0) == strip_back(b@.subrange(a as int, hi as int), true, 0),
            hi == e || is_space(b@[hi as int]),
        decreases hi - a,
    {
        proof {
            assert(b@.subrange(a as int, hi as int).drop_last() =~= b@.subrange(a as int, hi - 1));
        }
        hi = hi - 1;
    }
    hi
}

} // verus!
