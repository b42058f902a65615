//! Decimal numbers as data values write them: what tells a number from a
//! time of day when a rule is checked against the data.
use vstd::prelude::*;

use crate::text::{
    char_index, chars_of, find_char, lemma_char_index, spec_is_ascii_digit, string_of_range,
};

verus! {

/// The natural number written by the decimal digits `ds`.
pub open spec fn digits_value(ds: Seq<u8>) -> int
    decreases ds.len(),
{
    if ds.len() == 0 {
        0
    } else {
        digits_value(ds.drop_last()) * 10 + ds.last()
    }
}

pub open spec fn all_small(ds: Seq<u8>) -> bool {
    forall|i: int| 0 <= i < ds.len() ==> #[trigger] ds[i] < 10
}

/// The mathematical model of a decimal number: a sign and the digits before
/// and after the decimal point.
pub struct DecimalView {
    pub negative: bool,
    pub int_digits: Seq<u8>,
    pub frac_digits: Seq<u8>,
}

/// A decimal number written with optional sign, digits and an optional
/// fractional part.
#[derive(Debug)]
pub struct Decimal {
    negative: bool,
    int_digits: Vec<u8>,
    frac_digits: Vec<u8>,
}

impl View for Decimal {
    type V = DecimalView;

    closed spec fn view(&self) -> DecimalView {
        DecimalView {
            negative: self.negative,
            int_digits: self.int_digits@,
            frac_digits: self.frac_digits@,
        }
    }
}

// ------------------------------------------------------------------------
// Parsing.
// ------------------------------------------------------------------------
pub open spec fn all_digits(s: Seq<char>) -> bool {
    forall|i: int| 0 <= i < s.len() ==> spec_is_ascii_digit(#[trigger] s[i])
}

pub open spec fn digit_of(c: char) -> u8 {
    ((c as u32) - ('0' as u32)) as u8
}

pub open spec fn digits_of(s: Seq<char>) -> Seq<u8> {
    s.map_values(|c: char| digit_of(c))
}

/// The decimal written by `s`: an optional `+` or `-`, then digits with at
/// most one `.` among them and at least one digit; `None` otherwise.
pub open spec fn spec_parse_decimal(s: Seq<char>) -> Option<DecimalView> {
    let signed = s.len() > 0 && (s[0] == '-' || s[0] == '+');
    let body = if signed {
        s.drop_first()
    } else {
        s
    };
    let k = char_index(body, '.');
    let int_part = body.take(k);
    let frac_part = if k < body.len() {
        body.skip(k + 1)
    } else {
        Seq::<char>::empty()
    };
    if all_digits(int_part) && all_digits(frac_part) && int_part.len() + frac_part.len() > 0 {
        Some(
            DecimalView {
                negative: s.len() > 0 && s[0] == '-',
                int_digits: digits_of(int_part),
                frac_digits: digits_of(frac_part),
            },
        )
    } else {
        None
    }
}

impl Decimal {
    /// Every digit is below ten.
    #[verifier::type_invariant]
    spec fn wf(&self) -> bool {
        all_small(self.int_digits@) && all_small(self.frac_digits@)
    }

    /// Parses a decimal number (see `spec_parse_decimal`).
    pub fn parse(s: &str) -> (r: Option<Decimal>)
        ensures
            match r {
                Some(d) => spec_parse_decimal(s@) == Some(d@),
                None => spec_parse_decimal(s@) is None,
            },
    {
        let cs = chars_of(s);
        Self::parse_chars(&cs)
    }

    /// Parses a decimal number from its characters.
    #[verifier::loop_isolation(false)]
    pub fn parse_chars(cs: &Vec<char>) -> (r: Option<Decimal>)
        ensures
            match r {
                Some(d) => spec_parse_decimal(cs@) == Some(d@),
                None => spec_parse_decimal(cs@) is None,
            },
    {
        let ghost s = cs@;
        let n = cs.len();
        let mut i: usize = 0;
        let mut negative = false;
        if n > 0 && (cs[0] == '-' || cs[0] == '+') {
            negative = cs[0] == '-';
            i = 1;
        }
        let ghost start = i as int;
        let ghost body = s.skip(start);
        assert(body =~= if s.len() > 0 && (s[0] == '-' || s[0] == '+') {
            s.drop_first()
        } else {
            s
        });
        proof {
            lemma_char_index(body, '.');
        }
        let ghost k = char_index(body, '.');
        let mut int_digits: Vec<u8> = Vec::new();
        let mut frac_digits: Vec<u8> = Vec::new();
        // digits before the point
        while i < n && cs[i] != '.'
            invariant
                0 <= start <= i <= n,
                n == s.len(),
                s == cs@,
                body.len() == n - start,
                body == s.skip(start),
                k == char_index(body, '.'),
                0 <= k <= body.len(),
                k < body.len() ==> body[k] == '.',
                forall|j: int| 0 <= j < k ==> body[j] != '.',
                i - start <= k,
                int_digits@.len() == i - start,
                forall|j: int|
                    0 <= j < i - start ==> spec_is_ascii_digit(#[trigger] body[j])
                        && int_digits@[j] == digit_of(body[j]),
                all_small(int_digits@),
            decreases n - i,
        {
            let c = cs[i];
            assert(s.skip(start)[i - start] == s[i as int]);
            assert(c == body[i - start]);
            if !('0' <= c && c <= '9') {
                assert(i - start < k);
                assert(body.take(k)[i - start] == c);
                return None;
            }
            int_digits.push(((c as u32) - ('0' as u32)) as u8);
            i = i + 1;
        }
        if i < n {
            assert(s.skip(start)[i - start] == s[i as int]);
        }
        assert(i - start == k);
        let has_point = i < n;
        if has_point {
            i = i + 1;
        }
        let ghost frac_part = if k < body.len() {
            body.skip(k + 1)
        } else {
            Seq::<char>::empty()
        };
        let ghost fstart = i as int;
        assert(frac_part =~= s.skip(fstart));
        while i < n
            invariant
                0 <= fstart <= i <= n,
                n == s.len(),
                s == cs@,
                frac_part.len() == n - fstart,
                frac_part == s.skip(fstart),
                frac_digits@.len() == i - fstart,
                forall|j: int|
                    0 <= j < i - fstart ==> spec_is_ascii_digit(#[trigger] frac_part[j])
                        && frac_digits@[j] == digit_of(frac_part[j]),
                all_small(frac_digits@),
            decreases n - i,
        {
            let c = cs[i];
            assert(s.skip(fstart)[i - fstart] == s[i as int]);
            assert(c == frac_part[i - fstart]);
            if !('0' <= c && c <= '9') {
                assert(!all_digits(frac_part));
                return None;
            }
            frac_digits.push(((c as u32) - ('0' as u32)) as u8);
            i = i + 1;
        }
        if int_digits.len() == 0 && frac_digits.len() == 0 {
            return None;
        }
        let d = Decimal { negative, int_digits, frac_digits };
        proof {
            assert(d@.int_digits =~= digits_of(body.take(k)));
            assert(d@.frac_digits =~= digits_of(frac_part));
        }
        Some(d)
    }
}


// ------------------------------------------------------------------------
// The text of a floating-point number.
// ------------------------------------------------------------------------
/// `c` is the lower-case letter `lower` or its upper case.
pub open spec fn ci_char(c: char, lower: char) -> bool {
    c == lower || (c as u32) + 32 == (lower as u32)
}

/// `b` spells the lower-case word `w` in any mix of cases.
pub open spec fn ci_word(b: Seq<char>, w: Seq<char>) -> bool {
    b.len() == w.len() && forall|i: int| 0 <= i < b.len() ==> ci_char(#[trigger] b[i], w[i])
}

pub open spec fn is_special_float(b: Seq<char>) -> bool {
    ||| ci_word(b, seq!['i', 'n', 'f'])
    ||| ci_word(b, seq!['i', 'n', 'f', 'i', 'n', 'i', 't', 'y'])
    ||| ci_word(b, seq!['n', 'a', 'n'])
}

/// An exponent after its `e`: an optional sign, then at least one digit.
pub open spec fn is_exponent(x: Seq<char>) -> bool {
    let d = if x.len() > 0 && (x[0] == '+' || x[0] == '-') {
        x.drop_first()
    } else {
        x
    };
    d.len() > 0 && all_digits(d)
}

/// Where the exponent of `b` starts: its first `e` or `E`, or its end.
pub open spec fn exponent_index(b: Seq<char>) -> int {
    let a = char_index(b, 'e');
    let c = char_index(b, 'E');
    if a <= c {
        a
    } else {
        c
    }
}

/// Digits with at most one point and at least one digit, then an optional
/// exponent.
pub open spec fn is_decimal_float(b: Seq<char>) -> bool {
    let k = exponent_index(b);
    let m = b.take(k);
    &&& !(m.len() > 0 && (m[0] == '+' || m[0] == '-'))
    &&& spec_parse_decimal(m) is Some
    &&& (k >= b.len() || is_exponent(b.skip(k + 1)))
}

/// The text of a floating-point number, as `f64::from_str` documents its
/// grammar: an optional sign, then `inf`, `infinity` or `nan` in any case,
/// or digits with at most one point and at least one digit followed by an
/// optional exponent (`e` or `E`, an optional sign, digits).
pub open spec fn is_float_text(s: Seq<char>) -> bool {
    let body = if s.len() > 0 && (s[0] == '+' || s[0] == '-') {
        s.drop_first()
    } else {
        s
    };
    is_special_float(body) || is_decimal_float(body)
}

fn ci_word_of(b: &Vec<char>, w: &Vec<char>) -> (r: bool)
    requires
        forall|i: int| 0 <= i < w@.len() ==> 'a' <= #[trigger] w@[i] <= 'z',
    ensures
        r == ci_word(b@, w@),
{
    if b.len() != w.len() {
        return false;
    }
    let mut i: usize = 0;
    while i < b.len()
        invariant
            i <= b.len(),
            b.len() == w.len(),
            forall|j: int| 0 <= j < w@.len() ==> 'a' <= #[trigger] w@[j] <= 'z',
            forall|j: int| 0 <= j < i ==> ci_char(#[trigger] b@[j], w@[j]),
        decreases b.len() - i,
    {
        let c = b[i];
        let l = w[i];
        if !(c == l || (c as u32) == (l as u32) - 32) {
            assert(!ci_char(b@[i as int], w@[i as int]));
            return false;
        }
        i = i + 1;
    }
    true
}

fn sub_chars(v: &Vec<char>, start: usize, end: usize) -> (r: Vec<char>)
    requires
        start <= end <= v.len(),
    ensures
        r@ == v@.subrange(start as int, end as int),
{
    let mut r: Vec<char> = Vec::new();
    let mut i = start;
    while i < end
        invariant
            start <= i <= end,
            end <= v.len(),
            r@ == v@.subrange(start as int, i as int),
        decreases end - i,
    {
        r.push(v[i]);
        i = i + 1;
        assert(r@ =~= v@.subrange(start as int, i as int));
    }
    r
}

fn is_exponent_of(x: &Vec<char>) -> (r: bool)
    ensures
        r == is_exponent(x@),
{
    let mut i: usize = 0;
    if x.len() > 0 && (x[0] == '+' || x[0] == '-') {
        i = 1;
    }
    let start = i;
    let ghost d = x@.skip(start as int);
    assert(d =~= if x@.len() > 0 && (x@[0] == '+' || x@[0] == '-') {
        x@.drop_first()
    } else {
        x@
    });
    if i >= x.len() {
        return false;
    }
    while i < x.len()
        invariant
            start <= i <= x.len(),
            d == x@.skip(start as int),
            is_exponent(x@) == (d.len() > 0 && all_digits(d)),
            forall|j: int| start <= j < i ==> spec_is_ascii_digit(#[trigger] x@[j]),
        decreases x.len() - i,
    {
        if !('0' <= x[i] && x[i] <= '9') {
            assert(d[i - start] == x@[i as int]);
            assert(!spec_is_ascii_digit(d[i - start]));
            assert(!all_digits(d));
            return false;
        }
        i = i + 1;
    }
    assert forall|j: int| 0 <= j < d.len() implies spec_is_ascii_digit(#[trigger] d[j]) by {
        assert(d[j] == x@[start + j]);
    }
    true
}

/// Whether `s` is the text of a floating-point number (see
/// `is_float_text`).
pub fn float_text(s: &str) -> (r: bool)
    ensures
        r == is_float_text(s@),
{
    let cs = chars_of(s);
    let start: usize = if cs.len() > 0 && (cs[0] == '+' || cs[0] == '-') {
        1
    } else {
        0
    };
    let body = sub_chars(&cs, start, cs.len());
    assert(body@ =~= if s@.len() > 0 && (s@[0] == '+' || s@[0] == '-') {
        s@.drop_first()
    } else {
        s@
    });
    let special = ci_word_of(&body, &vec!['i', 'n', 'f']) || ci_word_of(
        &body,
        &vec!['i', 'n', 'f', 'i', 'n', 'i', 't', 'y'],
    ) || ci_word_of(&body, &vec!['n', 'a', 'n']);
    if special {
        return true;
    }
    let a = find_char(&body, 'e');
    let c = find_char(&body, 'E');
    proof {
        lemma_char_index(body@, 'e');
        lemma_char_index(body@, 'E');
    }
    let k = if a <= c {
        a
    } else {
        c
    };
    let m = string_of_range(&body, 0, k);
    assert(m@ =~= body@.take(k as int));
    if k > 0 && (body[0] == '+' || body[0] == '-') {
        return false;
    }
    let mantissa_ok = match Decimal::parse(m.as_str()) {
        Some(_) => true,
        None => false,
    };
    if !mantissa_ok {
        return false;
    }
    if k >= body.len() {
        return true;
    }
    let x = sub_chars(&body, k + 1, body.len());
    assert(x@ =~= body@.skip(k + 1));
    is_exponent_of(&x)
}

} // verus!
