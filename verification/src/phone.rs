use vstd::prelude::*;
use vstd::string::*;
use crate::points::{all_digits, all_digits_exec};
use crate::text::{chars_of, is_space, is_space_char, string_of, sub_chars};

verus! {

/// Whether a character survives phone-number cleaning: everything but
/// whitespace and dashes does.
pub open spec fn phone_char_kept(c: char) -> bool {
    !is_space_char(c) && c != '-'
}

/// A phone number with whitespace and dashes dropped.
pub open spec fn phone_cleaned(s: Seq<char>) -> Seq<char>
    decreases s.len(),
{
    if s.len() == 0 {
        Seq::empty()
    } else {
        phone_cleaned(s.drop_last()) + if phone_char_kept(s.last()) {
            seq![s.last()]
        } else {
            Seq::empty()
        }
    }
}

fn clean_phone(s: &str) -> (r: Vec<char>)
    ensures
        r@ == phone_cleaned(s@),
{
    let cs = chars_of(s);
    let n: usize = cs.len();
    let mut r: Vec<char> = Vec::new();
    proof {
        assert(cs@.take(0) =~= Seq::<char>::empty());
        assert(r@ =~= phone_cleaned(cs@.take(0)));
    }
    let mut i: usize = 0;
    while i < n
        invariant
            i <= n,
            n == cs@.len(),
            cs@ == s@,
            r@ == phone_cleaned(cs@.take(i as int)),
        decreases n - i,
    {
        proof {
            assert(cs@.take(i as int + 1).drop_last() =~= cs@.take(i as int));
            assert(cs@.take(i as int + 1).last() == cs@[i as int]);
        }
        let c = cs[i];
        if !is_space(c) && c != '-' {
            r.push(c);
            proof {
                assert(r@ =~= phone_cleaned(cs@.take(i as int + 1)));
            }
        } else {
            proof {
                assert(r@ + Seq::<char>::empty() =~= r@);
                assert(r@ =~= phone_cleaned(cs@.take(i as int + 1)));
            }
        }
        i = i + 1;
    }
    proof {
        assert(cs@.take(n as int) =~= cs@);
    }
    r
}

/// What a number a text message can be sent from normalizes to: after
/// cleaning it must begin with `+` and carry only digits, either a
/// US number (`1` and ten more digits) or a Norwegian one (`47` and
/// eight digits, the first of them 2 through 9); the cleaned text itself
/// is the result.
pub open spec fn normalize_twilio_spec(phone: Seq<char>) -> Option<Seq<char>> {
    let cl = phone_cleaned(phone);
    if cl.len() == 0 || cl[0] != '+' {
        Option::<Seq<char>>::None
    } else {
        let digits = cl.drop_first();
        if !all_digits(digits) {
            Option::<Seq<char>>::None
        } else if digits.len() == 11 && digits[0] == '1' {
            Some(cl)
        } else if digits.len() == 10 && digits[0] == '4' && digits[1] == '7' && '2'
            <= digits[2] && digits[2] <= '9' {
            Some(cl)
        } else {
            Option::<Seq<char>>::None
        }
    }
}

/// Normalizes a number a text message can be sent from.
pub fn normalize_twilio_phone(phone: &str) -> (r: Option<String>)
    ensures
        match r {
            Some(s) => normalize_twilio_spec(phone@) == Some(s@),
            None => normalize_twilio_spec(phone@) is None,
        },
{
    let cl = clean_phone(phone);
    let n: usize = cl.len();
    if n == 0 || cl[0] != '+' {
        return None;
    }
    let digits = sub_chars(&cl, 1, n);
    proof {
        assert(digits@ =~= cl@.drop_first());
    }
    if !all_digits_exec(&digits) {
        return None;
    }
    if digits.len() == 11 && digits[0] == '1' {
        return Some(string_of(&cl));
    }
    if digits.len() == 10 && digits[0] == '4' && digits[1] == '7' && '2' <= digits[2]
        && digits[2] <= '9' {
        return Some(string_of(&cl));
    }
    None
}

/// What a Norwegian recipient number normalizes to: after cleaning, an
/// optional `+`, then either `47` and eight digits or the eight digits
/// alone; the local number must not begin with 0 or 1. The result is
/// always written `+47` and the eight digits.
pub open spec fn normalize_norwegian_spec(phone: Seq<char>) -> Option<Seq<char>> {
    let cl = phone_cleaned(phone);
    let has_plus = cl.len() > 0 && cl[0] == '+';
    let digits = if has_plus {
        cl.drop_first()
    } else {
        cl
    };
    if !all_digits(digits) {
        Option::<Seq<char>>::None
    } else {
        let eight = if digits.len() == 10 && digits[0] == '4' && digits[1] == '7' {
            Some(digits.skip(2))
        } else if digits.len() == 8 {
            Some(digits)
        } else {
            Option::<Seq<char>>::None
        };
        match eight {
            Some(e) => {
                if '2' <= e[0] && e[0] <= '9' {
                    Some("+47"@ + e)
                } else {
                    Option::<Seq<char>>::None
                }
            },
            None => Option::<Seq<char>>::None,
        }
    }
}

/// Normalizes a Norwegian recipient number to `+47` form.
pub fn normalize_norwegian_phone(phone: &str) -> (r: Option<String>)
    ensures
        match r {
            Some(s) => normalize_norwegian_spec(phone@) == Some(s@),
            None => normalize_norwegian_spec(phone@) is None,
        },
{
    let cl = clean_phone(phone);
    let n: usize = cl.len();
    let has_plus = n > 0 && cl[0] == '+';
    let digits = if has_plus {
        let d = sub_chars(&cl, 1, n);
        proof {
            assert(d@ =~= cl@.drop_first());
        }
        d
    } else {
        sub_chars(&cl, 0, n)
    };
    proof {
        if !has_plus {
            assert(digits@ =~= cl@);
        }
    }
    if !all_digits_exec(&digits) {
        return None;
    }
    let m: usize = digits.len();
    let eight: Vec<char> = if m == 10 && digits[0] == '4' && digits[1] == '7' {
        let e = sub_chars(&digits, 2, m);
        proof {
            assert(e@ =~= digits@.skip(2));
        }
        e
    } else if m == 8 {
        sub_chars(&digits, 0, m)
    } else {
        return None;
    };
    proof {
        if m == 8 {
            assert(eight@ =~= digits@);
        }
    }
    if '2' <= eight[0] && eight[0] <= '9' {
        let r = String::from_str("+47").concat(string_of(&eight).as_str());
        proof {
            assert(r@ =~= "+47"@ + eight@);
        }
        Some(r)
    } else {
        None
    }
}

} // verus!
