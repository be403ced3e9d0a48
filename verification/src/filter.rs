use vstd::prelude::*;
use vstd::string::*;
use crate::points::{parse_decimal_spec, parse_decimal_chars, points_str, points_str_spec};
use crate::text::{chars_of, find_char, find_char_spec, starts_with_lit, starts_with_spec,
    sub_chars, trim_chars, trim_spec};

verus! {

/// Which point values are worth notifying about. `All` matches every
/// course; `Exact` matches within a hundredth of a point; `Range` matches
/// inclusively between its optional bounds. Values are in hundredths of a
/// point.
pub enum PointsFilter {
    All,
    Exact(i64),
    Range { min: Option<i64>, max: Option<i64> },
}

impl Clone for PointsFilter {
    fn clone(&self) -> (r: Self)
        ensures
            r == *self,
    {
        match self {
            PointsFilter::All => PointsFilter::All,
            PointsFilter::Exact(v) => PointsFilter::Exact(*v),
            PointsFilter::Range { min, max } => PointsFilter::Range { min: *min, max: *max },
        }
    }
}

impl PointsFilter {
    /// Whether a points value passes the filter. The `Exact` tolerance of
    /// 0.01 points is exactly one unit at this resolution.
    pub open spec fn matches_spec(self, p: int) -> bool {
        match self {
            PointsFilter::All => true,
            PointsFilter::Exact(v) => -1 < p - v < 1,
            PointsFilter::Range { min, max } => {
                &&& match min {
                    Some(m) => p >= m,
                    None => true,
                }
                &&& match max {
                    Some(m) => p <= m,
                    None => true,
                }
            },
        }
    }

    pub fn matches(&self, points: i64) -> (r: bool)
        ensures
            r == self.matches_spec(points as int),
    {
        match self {
            PointsFilter::All => true,
            PointsFilter::Exact(v) => points == *v,
            PointsFilter::Range { min, max } => {
                let above = match min {
                    Some(m) => points >= *m,
                    None => true,
                };
                let below = match max {
                    Some(m) => points <= *m,
                    None => true,
                };
                above && below
            },
        }
    }

    /// The human-readable account of the filter.
    pub open spec fn description_spec(self) -> Seq<char> {
        match self {
            PointsFilter::All => "all courses"@,
            PointsFilter::Exact(v) => "courses with exactly "@ + points_str_spec(v as int)
                + " points"@,
            PointsFilter::Range { min, max } => match (min, max) {
                (Some(lo), Some(hi)) => "courses with "@ + points_str_spec(lo as int) + "-"@
                    + points_str_spec(hi as int) + " points"@,
                (Some(lo), None) => "courses with >= "@ + points_str_spec(lo as int)
                    + " points"@,
                (None, Some(hi)) => "courses with <= "@ + points_str_spec(hi as int)
                    + " points"@,
                (None, None) => "all courses"@,
            },
        }
    }

    pub fn description(&self) -> (r: String)
        ensures
            r@ == self.description_spec(),
    {
        match self {
            PointsFilter::All => {
                let r = String::from_str("all courses");
                r
            },
            PointsFilter::Exact(v) => {
                let r = String::from_str("courses with exactly ").concat(
                    points_str(*v).as_str(),
                ).concat(" points");
                proof {
                    assert(r@ =~= self.description_spec());
                }
                r
            },
            PointsFilter::Range { min, max } => match (min, max) {
                (Some(lo), Some(hi)) => {
                    let r = String::from_str("courses with ").concat(
                        points_str(*lo).as_str(),
                    ).concat("-").concat(points_str(*hi).as_str()).concat(" points");
                    proof {
                        assert(r@ =~= self.description_spec());
                    }
                    r
                },
                (Some(lo), None) => {
                    let r = String::from_str("courses with >= ").concat(
                        points_str(*lo).as_str(),
                    ).concat(" points");
                    proof {
                        assert(r@ =~= self.description_spec());
                    }
                    r
                },
                (None, Some(hi)) => {
                    let r = String::from_str("courses with <= ").concat(
                        points_str(*hi).as_str(),
                    ).concat(" points");
                    proof {
                        assert(r@ =~= self.description_spec());
                    }
                    r
                },
                (None, None) => {
                    let r = String::from_str("all courses");
                    r
                },
            },
        }
    }
}

/// Whether the range rule of the filter grammar applies to the trimmed
/// expression `t`: its first hyphen is inside the text, and both sides
/// read as numbers.
pub open spec fn range_rule(t: Seq<char>) -> Option<(int, int)> {
    match find_char_spec(t, '-') {
        Some(d) => {
            if 0 < d < t.len() - 1 {
                match (parse_decimal_spec(trim_spec(t.take(d))), parse_decimal_spec(
                    trim_spec(t.skip(d + 1)),
                )) {
                    (Some(lo), Some(hi)) => Some((lo, hi)),
                    _ => Option::<(int, int)>::None,
                }
            } else {
                Option::<(int, int)>::None
            }
        },
        None => Option::<(int, int)>::None,
    }
}

/// What a filter expression denotes. The rules are tried in order against
/// the trimmed expression; the first that fits wins: empty, a range
/// written with a hyphen, then `>=`, `>`, a `+` suffix, `<=`, `<`, a `-`
/// suffix, and last a plain number read as an exact filter. A `>` or `<`
/// bound is deliberately read like its inclusive counterpart.
pub open spec fn parse_filter_expr_spec(s: Seq<char>) -> Option<PointsFilter> {
    let t = trim_spec(s);
    if t.len() == 0 {
        Some(PointsFilter::All)
    } else if range_rule(t) is Some {
        let (lo, hi) = range_rule(t)->Some_0;
        Some(PointsFilter::Range { min: Some(lo as i64), max: Some(hi as i64) })
    } else if starts_with_spec(t, ">="@) && parse_decimal_spec(trim_spec(t.skip(2))) is Some {
        Some(
            PointsFilter::Range {
                min: Some(parse_decimal_spec(trim_spec(t.skip(2)))->Some_0 as i64),
                max: None,
            },
        )
    } else if t[0] == '>' && !starts_with_spec(t, ">="@) && parse_decimal_spec(
        trim_spec(t.skip(1)),
    ) is Some {
        Some(
            PointsFilter::Range {
                min: Some(parse_decimal_spec(trim_spec(t.skip(1)))->Some_0 as i64),
                max: None,
            },
        )
    } else if t.last() == '+' && parse_decimal_spec(trim_spec(t.take(t.len() - 1))) is Some {
        Some(
            PointsFilter::Range {
                min: Some(parse_decimal_spec(trim_spec(t.take(t.len() - 1)))->Some_0 as i64),
                max: None,
            },
        )
    } else if starts_with_spec(t, "<="@) && parse_decimal_spec(trim_spec(t.skip(2))) is Some {
        Some(
            PointsFilter::Range {
                min: None,
                max: Some(parse_decimal_spec(trim_spec(t.skip(2)))->Some_0 as i64),
            },
        )
    } else if t[0] == '<' && !starts_with_spec(t, "<="@) && parse_decimal_spec(
        trim_spec(t.skip(1)),
    ) is Some {
        Some(
            PointsFilter::Range {
                min: None,
                max: Some(parse_decimal_spec(trim_spec(t.skip(1)))->Some_0 as i64),
            },
        )
    } else if t.last() == '-' && t.len() > 1 && parse_decimal_spec(
        trim_spec(t.take(t.len() - 1)),
    ) is Some {
        Some(
            PointsFilter::Range {
                min: None,
                max: Some(parse_decimal_spec(trim_spec(t.take(t.len() - 1)))->Some_0 as i64),
            },
        )
    } else if parse_decimal_spec(t) is Some {
        Some(PointsFilter::Exact(parse_decimal_spec(t)->Some_0 as i64))
    } else {
        Option::<PointsFilter>::None
    }
}

fn parse_trimmed_part(t: &Vec<char>, from: usize, to: usize) -> (r: Option<i64>)
    requires
        from <= to <= t@.len(),
    ensures
        match r {
            Some(x) => parse_decimal_spec(trim_spec(t@.subrange(from as int, to as int)))
                == Some(x as int),
            None => parse_decimal_spec(trim_spec(t@.subrange(from as int, to as int))) is None,
        },
{
    let part = sub_chars(t, from, to);
    let trimmed = trim_chars(&part);
    parse_decimal_chars(&trimmed)
}

/// Reads a filter expression. `None` means the expression is unparseable
/// and the caller must fall back to other configuration.
pub fn parse_points_filter_expr(expr: &str) -> (r: Option<PointsFilter>)
    ensures
        match r {
            Some(f) => parse_filter_expr_spec(expr@) == Some(f),
            None => parse_filter_expr_spec(expr@) is None,
        },
{
    let cs = chars_of(expr);
    let t = trim_chars(&cs);
    let n: usize = t.len();
    if n == 0 {
        return Some(PointsFilter::All);
    }
    proof {
        assert(t@.skip(0) =~= t@);
        assert(t@.subrange(0, n as int) =~= t@);
    }

    // Range written with a hyphen: "5-10".
    if let Some(d) = find_char(&t, '-') {
        if 0 < d && d < n - 1 {
            proof {
                assert(t@.subrange(d + 1, n as int) =~= t@.skip(d + 1));
            }
            let lo = parse_trimmed_part(&t, 0, d);
            let hi = parse_trimmed_part(&t, d + 1, n);
            if let (Some(lo), Some(hi)) = (lo, hi) {
                proof {
                    assert(t@.subrange(0, d as int) =~= t@.take(d as int));
                }
                return Some(PointsFilter::Range { min: Some(lo), max: Some(hi) });
            }
        }
    }
    let ghost tv = t@;
    proof {
        assert(range_rule(tv) is None) by {
            if range_rule(tv) is Some {
                assert(find_char_spec(tv, '-') is Some);
            }
        }
    }

    // Minimum: ">=5" or ">5".
    let ge = starts_with_lit(&t, ">=");
    if ge {
        proof {
            reveal_strlit(">=");
            assert(tv.subrange(2, n as int) =~= tv.skip(2));
        }
        if let Some(v) = parse_trimmed_part(&t, 2, n) {
            return Some(PointsFilter::Range { min: Some(v), max: None });
        }
    }
    if t[0] == '>' && !ge {
        proof {
            assert(tv.subrange(1, n as int) =~= tv.skip(1));
        }
        if let Some(v) = parse_trimmed_part(&t, 1, n) {
            return Some(PointsFilter::Range { min: Some(v), max: None });
        }
    }

    // Minimum: "5+".
    if t[n - 1] == '+' {
        proof {
            assert(tv.subrange(0, n - 1) =~= tv.take(n - 1));
        }
        if let Some(v) = parse_trimmed_part(&t, 0, n - 1) {
            return Some(PointsFilter::Range { min: Some(v), max: None });
        }
    }

    // Maximum: "<=10" or "<10".
    let le = starts_with_lit(&t, "<=");
    if le {
        proof {
            reveal_strlit("<=");
            assert(tv.subrange(2, n as int) =~= tv.skip(2));
        }
        if let Some(v) = parse_trimmed_part(&t, 2, n) {
            return Some(PointsFilter::Range { min: None, max: Some(v) });
        }
    }
    if t[0] == '<' && !le {
        proof {
            assert(tv.subrange(1, n as int) =~= tv.skip(1));
        }
        if let Some(v) = parse_trimmed_part(&t, 1, n) {
            return Some(PointsFilter::Range { min: None, max: Some(v) });
        }
    }

    // Maximum: "10-".
    if t[n - 1] == '-' && n > 1 {
        proof {
            assert(tv.subrange(0, n - 1) =~= tv.take(n - 1));
        }
        if let Some(v) = parse_trimmed_part(&t, 0, n - 1) {
            return Some(PointsFilter::Range { min: None, max: Some(v) });
        }
    }

    // Exact: a plain number.
    if let Some(v) = parse_decimal_chars(&t) {
        return Some(PointsFilter::Exact(v));
    }

    None
}

} // verus!
