use vstd::prelude::*;
use vstd::string::*;
use crate::text::{
    chars_of, dec_str_spec, find_char, find_char_spec, is_digit, is_digit_char, push_char,
    sub_chars, trim_chars, trim_spec, u64_str,
};

verus! {

// Credit values are held as whole hundredths of a point: `250` stands for
// 2.5 points. This fixed resolution makes the 0.01 matching tolerance of
// the filter engine exact.

/// The largest whole-points part a value may have.
pub const POINTS_WHOLE_LIMIT: i64 = 1000000000000;

pub open spec fn all_digits(s: Seq<char>) -> bool {
    forall|i: int| 0 <= i < s.len() ==> is_digit_char(#[trigger] s[i])
}

pub open spec fn digit_val(c: char) -> int {
    c as int - 48
}

/// The value of a string of decimal digits.
pub open spec fn digits_val(s: Seq<char>) -> int
    decreases s.len(),
{
    if s.len() == 0 {
        0
    } else {
        digits_val(s.drop_last()) * 10 + digit_val(s.last())
    }
}

/// Whether the sign of the number is negative, per its leading character.
pub open spec fn dec_neg(t: Seq<char>) -> bool {
    t.len() > 0 && t[0] == '-'
}

/// The text after an optional leading sign.
pub open spec fn dec_body(t: Seq<char>) -> Seq<char> {
    if t.len() > 0 && (t[0] == '-' || t[0] == '+') {
        t.drop_first()
    } else {
        t
    }
}

/// The whole-number digits of the body: everything before the first dot.
pub open spec fn dec_whole(body: Seq<char>) -> Seq<char> {
    match find_char_spec(body, '.') {
        Some(i) => body.take(i),
        None => body,
    }
}

/// The fraction digits of the body: everything after the first dot.
pub open spec fn dec_frac(body: Seq<char>) -> Seq<char> {
    match find_char_spec(body, '.') {
        Some(i) => body.skip(i + 1),
        None => Seq::empty(),
    }
}

/// A decimal number this library accepts: an optional sign, digits with at
/// most one dot, at least one digit in all, fraction digits beyond the
/// second all zero, and a whole part below `POINTS_WHOLE_LIMIT`.
pub open spec fn dec_well_formed(t: Seq<char>) -> bool {
    let body = dec_body(t);
    let whole = dec_whole(body);
    let frac = dec_frac(body);
    &&& all_digits(whole)
    &&& all_digits(frac)
    &&& whole.len() + frac.len() >= 1
    &&& (forall|i: int| 2 <= i < frac.len() ==> #[trigger] frac[i] == '0')
    &&& digits_val(whole) < POINTS_WHOLE_LIMIT
}

/// The value, in hundredths, of the fraction digits.
pub open spec fn frac_centi(frac: Seq<char>) -> int {
    (if frac.len() >= 1 {
        digit_val(frac[0]) * 10
    } else {
        0
    }) + if frac.len() >= 2 {
        digit_val(frac[1])
    } else {
        0
    }
}

/// The number denoted by `t`, in hundredths of a point, if `t` is a
/// decimal number this library accepts.
pub open spec fn parse_decimal_spec(t: Seq<char>) -> Option<int> {
    if dec_well_formed(t) {
        let body = dec_body(t);
        let v = digits_val(dec_whole(body)) * 100 + frac_centi(dec_frac(body));
        Some(
            if dec_neg(t) {
                -v
            } else {
                v
            },
        )
    } else {
        Option::<int>::None
    }
}

/// Every comma turned into a dot, the locale normalization the points
/// parser applies.
pub open spec fn comma_to_dot(s: Seq<char>) -> Seq<char> {
    Seq::new(
        s.len(),
        |i: int|
            if s[i] == ',' {
                '.'
            } else {
                s[i]
            },
    )
}

/// What a points cell denotes: its text trimmed, commas read as decimal
/// dots, then parsed as a decimal number in hundredths of a point.
pub open spec fn parse_points_spec(s: Seq<char>) -> Option<int> {
    parse_decimal_spec(comma_to_dot(trim_spec(s)))
}

proof fn lemma_digits_val_nonneg(s: Seq<char>)
    requires
        all_digits(s),
    ensures
        digits_val(s) >= 0,
    decreases s.len(),
{
    if s.len() > 0 {
        assert(all_digits(s.drop_last())) by {
            assert(forall|i: int|
                0 <= i < s.len() - 1 ==> is_digit_char(#[trigger] s.drop_last()[i]));
        }
        lemma_digits_val_nonneg(s.drop_last());
        assert(is_digit_char(s.last()));
    }
}

proof fn lemma_digits_val_take_step(s: Seq<char>, j: int)
    requires
        0 <= j < s.len(),
    ensures
        digits_val(s.take(j + 1)) == digits_val(s.take(j)) * 10 + digit_val(s[j]),
{
    assert(s.take(j + 1).drop_last() =~= s.take(j));
    assert(s.take(j + 1).last() == s[j]);
}

proof fn lemma_digits_val_grows(s: Seq<char>, j: int)
    requires
        all_digits(s),
        0 <= j <= s.len(),
    ensures
        digits_val(s) >= digits_val(s.take(j)),
    decreases s.len() - j,
{
    assert(all_digits(s.take(j))) by {
        assert(forall|i: int| 0 <= i < j ==> is_digit_char(#[trigger] s.take(j)[i]));
    }
    if j == s.len() {
        assert(s.take(j) =~= s);
    } else {
        lemma_digits_val_take_step(s, j);
        lemma_digits_val_nonneg(s.take(j));
        assert(is_digit_char(s[j]));
        lemma_digits_val_grows(s, j + 1);
    }
}

pub(crate) fn all_digits_exec(v: &Vec<char>) -> (r: bool)
    ensures
        r == all_digits(v@),
{
    let mut i: usize = 0;
    while i < v.len()
        invariant
            i <= v@.len(),
            forall|j: int| 0 <= j < i ==> is_digit_char(#[trigger] v@[j]),
        decreases v@.len() - i,
    {
        if !is_digit(v[i]) {
            return false;
        }
        i = i + 1;
    }
    true
}

fn digits_value(v: &Vec<char>) -> (r: Option<i64>)
    requires
        all_digits(v@),
    ensures
        match r {
            Some(x) => digits_val(v@) == x as int && x < POINTS_WHOLE_LIMIT && x >= 0,
            None => digits_val(v@) >= POINTS_WHOLE_LIMIT,
        },
{
    let mut acc: i64 = 0;
    let mut i: usize = 0;
    while i < v.len()
        invariant
            i <= v@.len(),
            all_digits(v@),
            0 <= acc < POINTS_WHOLE_LIMIT,
            acc as int == digits_val(v@.take(i as int)),
        decreases v@.len() - i,
    {
        let c = v[i];
        assert(is_digit_char(c));
        let d: i64 = (c as u32) as i64 - 48;
        proof {
            lemma_digits_val_take_step(v@, i as int);
        }
        if acc > (POINTS_WHOLE_LIMIT - 1 - d) / 10 {
            proof {
                assert(acc * 10 >= ((POINTS_WHOLE_LIMIT - 1 - d) / 10 + 1) * 10);
                assert(digits_val(v@.take(i + 1)) >= POINTS_WHOLE_LIMIT);
                lemma_digits_val_grows(v@, i + 1);
            }
            return None;
        }
        proof {
            assert(acc * 10 <= ((POINTS_WHOLE_LIMIT - 1 - d) / 10) * 10);
        }
        acc = acc * 10 + d;
        i = i + 1;
    }
    proof {
        assert(v@.take(i as int) =~= v@);
    }
    Some(acc)
}

/// Parses the characters of a decimal number into hundredths of a point.
pub fn parse_decimal_chars(v: &Vec<char>) -> (r: Option<i64>)
    ensures
        match r {
            Some(x) => parse_decimal_spec(v@) == Some(x as int),
            None => parse_decimal_spec(v@) is None,
        },
{
    let n: usize = v.len();
    let neg: bool = n > 0 && v[0] == '-';
    let body_start: usize = if n > 0 && (v[0] == '-' || v[0] == '+') {
        1
    } else {
        0
    };
    let body = sub_chars(v, body_start, n);
    proof {
        if body_start == 1 {
            assert(body@ =~= dec_body(v@));
        } else {
            assert(body@ =~= dec_body(v@));
        }
    }
    let (whole, frac) = match find_char(&body, '.') {
        Some(i) => {
            let w = sub_chars(&body, 0, i);
            let f = sub_chars(&body, i + 1, body.len());
            proof {
                assert(w@ =~= dec_whole(body@));
                assert(f@ =~= dec_frac(body@));
            }
            (w, f)
        },
        None => {
            let w = sub_chars(&body, 0, body.len());
            let f: Vec<char> = Vec::new();
            proof {
                assert(w@ =~= dec_whole(body@));
                assert(f@ =~= dec_frac(body@));
            }
            (w, f)
        },
    };
    if !all_digits_exec(&whole) || !all_digits_exec(&frac) {
        return None;
    }
    if whole.len() == 0 && frac.len() == 0 {
        return None;
    }
    let mut j: usize = 2;
    while j < frac.len()
        invariant
            2 <= j,
            frac@ == dec_frac(dec_body(v@)),
            forall|k: int| 2 <= k < j ==> #[trigger] frac@[k] == '0',
        decreases frac@.len() - j,
    {
        if frac[j] != '0' {
            return None;
        }
        j = j + 1;
    }
    let whole_val: i64 = match digits_value(&whole) {
        Some(x) => x,
        None => {
            return None;
        },
    };
    let f0: i64 = if frac.len() >= 1 {
        (frac[0] as u32) as i64 - 48
    } else {
        0
    };
    let f1: i64 = if frac.len() >= 2 {
        (frac[1] as u32) as i64 - 48
    } else {
        0
    };
    proof {
        if frac@.len() >= 1 {
            assert(is_digit_char(frac@[0]));
        }
        if frac@.len() >= 2 {
            assert(is_digit_char(frac@[1]));
        }
    }
    let centi: i64 = whole_val * 100 + f0 * 10 + f1;
    if neg {
        Some(-centi)
    } else {
        Some(centi)
    }
}

/// Parses the text of a points cell: trimmed, with a comma accepted as the
/// decimal separator. Returns the value in hundredths of a point.
pub fn parse_points(text: &str) -> (r: Option<i64>)
    ensures
        match r {
            Some(x) => parse_points_spec(text@) == Some(x as int),
            None => parse_points_spec(text@) is None,
        },
{
    let cs = chars_of(text);
    let trimmed = trim_chars(&cs);
    let mut mapped: Vec<char> = Vec::new();
    let mut i: usize = 0;
    while i < trimmed.len()
        invariant
            i <= trimmed@.len(),
            mapped@.len() == i,
            forall|j: int| 0 <= j < i ==> mapped@[j] == comma_to_dot(trimmed@)[j],
        decreases trimmed@.len() - i,
    {
        let c = trimmed[i];
        if c == ',' {
            mapped.push('.');
        } else {
            mapped.push(c);
        }
        i = i + 1;
    }
    proof {
        assert(mapped@ =~= comma_to_dot(trimmed@));
    }
    parse_decimal_chars(&mapped)
}

/// How a points value is written: the whole part, then a fraction part
/// only if it is nonzero, with no trailing zero digit.
pub open spec fn points_str_spec(centi: int) -> Seq<char> {
    let sign: Seq<char> = if centi < 0 {
        seq!['-']
    } else {
        Seq::empty()
    };
    let m = if centi < 0 {
        -centi
    } else {
        centi
    };
    let whole = m / 100;
    let frac = m % 100;
    if frac == 0 {
        sign + dec_str_spec(whole as nat)
    } else if frac % 10 == 0 {
        sign + dec_str_spec(whole as nat) + seq!['.'] + dec_str_spec((frac / 10) as nat)
    } else if frac < 10 {
        sign + dec_str_spec(whole as nat) + seq!['.', '0'] + dec_str_spec(frac as nat)
    } else {
        sign + dec_str_spec(whole as nat) + seq!['.'] + dec_str_spec(frac as nat)
    }
}

/// Writes a points value the way the course pages show it: `250` becomes
/// `2.5`, `1000` becomes `10`.
pub fn points_str(centi: i64) -> (r: String)
    ensures
        r@ == points_str_spec(centi as int),
{
    let neg: bool = centi < 0;
    let m: u64 = if centi < 0 {
        if centi == i64::MIN {
            9223372036854775808u64
        } else {
            (-centi) as u64
        }
    } else {
        centi as u64
    };
    let whole: u64 = m / 100;
    let frac: u64 = m % 100;
    let mut s = String::new();
    if neg {
        push_char(&mut s, '-');
    }
    let s = s.concat(u64_str(whole).as_str());
    let r = if frac == 0 {
        s
    } else if frac % 10 == 0 {
        let mut s2 = s;
        push_char(&mut s2, '.');
        s2.concat(u64_str(frac / 10).as_str())
    } else if frac < 10 {
        let mut s2 = s;
        push_char(&mut s2, '.');
        push_char(&mut s2, '0');
        s2.concat(u64_str(frac).as_str())
    } else {
        let mut s2 = s;
        push_char(&mut s2, '.');
        s2.concat(u64_str(frac).as_str())
    };
    proof {
        assert(r@ =~= points_str_spec(centi as int));
    }
    r
}

} // verus!
