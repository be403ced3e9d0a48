use vstd::prelude::*;
use vstd::string::*;
use crate::filter::{parse_filter_expr_spec, parse_points_filter_expr, PointsFilter};
use crate::phone::{normalize_norwegian_phone, normalize_norwegian_spec, normalize_twilio_phone,
    normalize_twilio_spec};
use crate::points::points_str;
use crate::text::{chars_of, contains_char, count_char, dec_str_spec, find_char, find_char_spec,
    starts_with_lit, starts_with_spec, string_of, sub_chars, trim_chars, trim_spec, u64_str};

verus! {

/// Lower bound, in seconds, on how often a synchronization cycle may run.
pub const MIN_INTERVAL_SECS: u64 = 10;

/// Checks that a configured scrape interval is long enough to be useful.
/// A rejection names the offending interval.
pub fn validate_interval(interval: u64) -> (r: Result<(), String>)
    ensures
        r is Ok <==> interval >= MIN_INTERVAL_SECS,
        match r {
            Ok(_) => true,
            Err(m) => m@ == "Invalid interval: "@ + dec_str_spec(interval as nat)
                + " seconds is too short. Minimum is 10 seconds."@,
        },
{
    if interval < MIN_INTERVAL_SECS {
        let m = String::from_str("Invalid interval: ").concat(u64_str(interval).as_str()).concat(
            " seconds is too short. Minimum is 10 seconds.",
        );
        proof {
            assert(m@ =~= "Invalid interval: "@ + dec_str_spec(interval as nat)
                + " seconds is too short. Minimum is 10 seconds."@);
        }
        Err(m)
    } else {
        Ok(())
    }
}

fn count_char_exec(v: &Vec<char>, c: char) -> (r: usize)
    ensures
        r == count_char(v@, c),
{
    let n: usize = v.len();
    let mut cnt: usize = 0;
    let mut i: usize = 0;
    while i < n
        invariant
            i <= n,
            n == v@.len(),
            cnt <= i,
            cnt == count_char(v@.take(i as int), c),
        decreases n - i,
    {
        proof {
            assert(v@.take(i as int + 1).drop_last() =~= v@.take(i as int));
            assert(v@.take(i as int + 1).last() == v@[i as int]);
        }
        if v[i] == c {
            cnt = cnt + 1;
        }
        i = i + 1;
    }
    proof {
        assert(v@.take(n as int) =~= v@);
    }
    cnt
}

/// Whether a text is a plausible mailbox address: after trimming it has
/// exactly one `@`, something before it, and after it a domain that is
/// not empty and contains a dot.
pub open spec fn is_valid_email_spec(email: Seq<char>) -> bool {
    let e = trim_spec(email);
    match find_char_spec(e, '@') {
        Some(at) => {
            &&& count_char(e, '@') == 1
            &&& at > 0
            &&& e.skip(at + 1).len() > 0
            &&& contains_char(e.skip(at + 1), '.')
        },
        None => false,
    }
}

/// Checks a mailbox address loosely, the way the notifier setup does.
pub fn is_valid_email(email: &str) -> (r: bool)
    ensures
        r == is_valid_email_spec(email@),
{
    let cs = chars_of(email);
    let e = trim_chars(&cs);
    let n: usize = e.len();
    match find_char(&e, '@') {
        None => false,
        Some(at) => {
            if count_char_exec(&e, '@') != 1 {
                return false;
            }
            if at == 0 {
                return false;
            }
            let domain = sub_chars(&e, at + 1, n);
            proof {
                assert(domain@ =~= e@.skip(at + 1));
            }
            if domain.len() == 0 {
                return false;
            }
            match find_char(&domain, '.') {
                Some(_) => true,
                None => false,
            }
        },
    }
}

/// The mailbox part of an address that may be written `Name <mailbox>`:
/// the text between the first `<` and the first `>` where both appear in
/// that order, trimmed; otherwise the whole trimmed address.
pub open spec fn extract_email_spec(address: Seq<char>) -> Seq<char> {
    let a = trim_spec(address);
    match (find_char_spec(a, '<'), find_char_spec(a, '>')) {
        (Some(s), Some(e)) => {
            if s + 1 <= e {
                trim_spec(a.subrange(s + 1, e))
            } else {
                a
            }
        },
        _ => a,
    }
}

/// Pulls the mailbox out of a `Name <mailbox>` address.
pub fn extract_email_from_address(address: &str) -> (r: String)
    ensures
        r@ == extract_email_spec(address@),
{
    let cs = chars_of(address);
    let a = trim_chars(&cs);
    match find_char(&a, '<') {
        Some(s) => match find_char(&a, '>') {
            Some(e) => {
                if s + 1 <= e {
                    string_of(&trim_chars(&sub_chars(&a, s + 1, e)))
                } else {
                    string_of(&a)
                }
            },
            None => string_of(&a),
        },
        None => string_of(&a),
    }
}

/// The pieces of a text between occurrences of a separator character.
/// Empty text is one empty piece, and every separator starts a new piece.
pub open spec fn split_char_spec(s: Seq<char>, c: char) -> Seq<Seq<char>>
    decreases s.len(),
{
    if s.len() == 0 {
        seq![Seq::<char>::empty()]
    } else {
        let rest = split_char_spec(s.drop_last(), c);
        if s.last() == c {
            rest.push(Seq::empty())
        } else {
            rest.update(rest.len() - 1, rest.last().push(s.last()))
        }
    }
}

proof fn lemma_split_nonempty(s: Seq<char>, c: char)
    ensures
        split_char_spec(s, c).len() >= 1,
    decreases s.len(),
{
    if s.len() > 0 {
        lemma_split_nonempty(s.drop_last(), c);
    }
}

fn split_string(s: &str, c: char) -> (r: Vec<String>)
    ensures
        r.deep_view() == split_char_spec(s@, c),
{
    let cs = chars_of(s);
    let n: usize = cs.len();
    let mut done: Vec<String> = Vec::new();
    let mut cur: Vec<char> = Vec::new();
    proof {
        assert(cs@.take(0) =~= Seq::<char>::empty());
        assert(done.deep_view().push(cur@) =~= split_char_spec(cs@.take(0), c));
    }
    let mut i: usize = 0;
    while i < n
        invariant
            i <= n,
            n == cs@.len(),
            cs@ == s@,
            done.deep_view().push(cur@) == split_char_spec(cs@.take(i as int), c),
        decreases n - i,
    {
        proof {
            assert(cs@.take(i as int + 1).drop_last() =~= cs@.take(i as int));
            assert(cs@.take(i as int + 1).last() == cs@[i as int]);
            lemma_split_nonempty(cs@.take(i as int), c);
        }
        let ch = cs[i];
        if ch == c {
            done.push(string_of(&cur));
            cur = Vec::new();
            proof {
                assert(done.deep_view().push(cur@) =~= split_char_spec(
                    cs@.take(i as int + 1),
                    c,
                ));
            }
        } else {
            cur.push(ch);
            proof {
                let rest = split_char_spec(cs@.take(i as int), c);
                assert(done.deep_view().push(cur@) =~= rest.update(
                    rest.len() - 1,
                    rest.last().push(ch),
                ));
            }
        }
        i = i + 1;
    }
    proof {
        assert(cs@.take(n as int) =~= cs@);
    }
    done.push(string_of(&cur));
    proof {
        assert(done.deep_view() =~= split_char_spec(s@, c));
    }
    done
}

/// The comma-separated pieces of a recipient list, trimmed, with empty
/// pieces dropped.
pub open spec fn clean_recipients(parts: Seq<Seq<char>>) -> Seq<Seq<char>>
    decreases parts.len(),
{
    if parts.len() == 0 {
        Seq::empty()
    } else {
        clean_recipients(parts.drop_last()) + if trim_spec(parts.last()).len() > 0 {
            seq![trim_spec(parts.last())]
        } else {
            Seq::empty()
        }
    }
}

/// The normalized Norwegian numbers among the comma-separated pieces of
/// an SMS recipient list; pieces that do not normalize are dropped.
pub open spec fn clean_sms_recipients(parts: Seq<Seq<char>>) -> Seq<Seq<char>>
    decreases parts.len(),
{
    if parts.len() == 0 {
        Seq::empty()
    } else {
        clean_sms_recipients(parts.drop_last()) + match normalize_norwegian_spec(
            trim_spec(parts.last()),
        ) {
            Some(p) => seq![p],
            None => Seq::empty(),
        }
    }
}

/// The running configuration, as plain values. Reading flags, environment
/// variables and files into it is the caller's concern. Points values are
/// in hundredths of a point.
pub struct Config {
    pub url: String,
    pub db: String,
    pub database_url: Option<String>,
    pub database_auth_token: Option<String>,
    pub points_exact: Option<i64>,
    pub points_max: Option<i64>,
    pub points_min: Option<i64>,
    pub points_filter_expr: Option<String>,
    pub verbose: bool,
    pub email_to: Option<String>,
    pub email_from: Option<String>,
    pub port: u16,
    pub sms_to: Option<String>,
    pub sms_from: Option<String>,
}

/// What `email_recipients` returns.
pub open spec fn email_recipients_spec(c: &Config) -> Seq<Seq<char>> {
    match c.email_to {
        Some(s) => clean_recipients(split_char_spec(s@, ',')),
        None => Seq::empty(),
    }
}

/// What `sms_recipients` returns.
pub open spec fn sms_recipients_spec(c: &Config) -> Seq<Seq<char>> {
    match c.sms_to {
        Some(s) => clean_sms_recipients(split_char_spec(s@, ',')),
        None => Seq::empty(),
    }
}

/// What `points_filter` returns: the expression when it parses, else the
/// individual fields, else the filter that matches everything.
pub open spec fn points_filter_spec(c: &Config) -> PointsFilter {
    let from_expr = match c.points_filter_expr {
        Some(e) => parse_filter_expr_spec(e@),
        None => Option::<PointsFilter>::None,
    };
    match from_expr {
        Some(f) => f,
        None => {
            if c.points_exact is Some {
                PointsFilter::Exact(c.points_exact->0)
            } else if c.points_min is Some || c.points_max is Some {
                PointsFilter::Range { min: c.points_min, max: c.points_max }
            } else {
                PointsFilter::All
            }
        },
    }
}

impl Config {
    /// The mailbox addresses notifications go to.
    pub fn email_recipients(&self) -> (r: Vec<String>)
        ensures
            r.deep_view() == email_recipients_spec(self),
    {
        match &self.email_to {
            None => {
                let r: Vec<String> = Vec::new();
                proof {
                    assert(r.deep_view() =~= email_recipients_spec(self));
                }
                r
            },
            Some(s) => {
                let parts = split_string(s.as_str(), ',');
                let n: usize = parts.len();
                let mut r: Vec<String> = Vec::new();
                let ghost pv = parts.deep_view();
                proof {
                    assert(pv.take(0) =~= Seq::<Seq<char>>::empty());
                    assert(r.deep_view() =~= clean_recipients(pv.take(0)));
                }
                let mut i: usize = 0;
                while i < n
                    invariant
                        i <= n,
                        n == parts@.len(),
                        pv == parts.deep_view(),
                        r.deep_view() == clean_recipients(pv.take(i as int)),
                    decreases n - i,
                {
                    proof {
                        assert(pv.take(i as int + 1).drop_last() =~= pv.take(i as int));
                        assert(pv.take(i as int + 1).last() == pv[i as int]);
                        assert(pv[i as int] == parts@[i as int]@);
                    }
                    let t = trim_chars(&chars_of(parts[i].as_str()));
                    if t.len() > 0 {
                        r.push(string_of(&t));
                        proof {
                            assert(r.deep_view() =~= clean_recipients(pv.take(i as int + 1)));
                        }
                    } else {
                        proof {
                            assert(r.deep_view() + Seq::<Seq<char>>::empty() =~= r.deep_view());
                            assert(r.deep_view() =~= clean_recipients(pv.take(i as int + 1)));
                        }
                    }
                    i = i + 1;
                }
                proof {
                    assert(pv.take(n as int) =~= pv);
                }
                r
            },
        }
    }

    /// Whether email notifications are configured at all.
    pub fn email_enabled(&self) -> (r: bool)
        ensures
            r == (self.email_to is Some && email_recipients_spec(self).len() > 0),
    {
        match &self.email_to {
            None => false,
            Some(_) => self.email_recipients().len() > 0,
        }
    }

    /// Whether the deployment points at a remote database.
    pub fn uses_turso(&self) -> (r: bool)
        ensures
            r == (self.database_url is Some),
    {
        match &self.database_url {
            Some(_) => true,
            None => false,
        }
    }

    /// The normalized phone numbers SMS notifications go to.
    pub fn sms_recipients(&self) -> (r: Vec<String>)
        ensures
            r.deep_view() == sms_recipients_spec(self),
    {
        match &self.sms_to {
            None => {
                let r: Vec<String> = Vec::new();
                proof {
                    assert(r.deep_view() =~= sms_recipients_spec(self));
                }
                r
            },
            Some(s) => {
                let parts = split_string(s.as_str(), ',');
                let n: usize = parts.len();
                let mut r: Vec<String> = Vec::new();
                let ghost pv = parts.deep_view();
                proof {
                    assert(pv.take(0) =~= Seq::<Seq<char>>::empty());
                    assert(r.deep_view() =~= clean_sms_recipients(pv.take(0)));
                }
                let mut i: usize = 0;
                while i < n
                    invariant
                        i <= n,
                        n == parts@.len(),
                        pv == parts.deep_view(),
                        r.deep_view() == clean_sms_recipients(pv.take(i as int)),
                    decreases n - i,
                {
                    proof {
                        assert(pv.take(i as int + 1).drop_last() =~= pv.take(i as int));
                        assert(pv.take(i as int + 1).last() == pv[i as int]);
                        assert(pv[i as int] == parts@[i as int]@);
                    }
                    let t = string_of(&trim_chars(&chars_of(parts[i].as_str())));
                    match normalize_norwegian_phone(t.as_str()) {
                        Some(p) => {
                            r.push(p);
                            proof {
                                assert(r.deep_view() =~= clean_sms_recipients(
                                    pv.take(i as int + 1),
                                ));
                            }
                        },
                        None => {
                            proof {
                                assert(r.deep_view() + Seq::<Seq<char>>::empty()
                                    =~= r.deep_view());
                                assert(r.deep_view() =~= clean_sms_recipients(
                                    pv.take(i as int + 1),
                                ));
                            }
                        },
                    }
                    i = i + 1;
                }
                proof {
                    assert(pv.take(n as int) =~= pv);
                }
                r
            },
        }
    }

    /// Whether SMS notifications are configured at all.
    pub fn sms_enabled(&self) -> (r: bool)
        ensures
            r == (self.sms_to is Some && sms_recipients_spec(self).len() > 0),
    {
        match &self.sms_to {
            None => false,
            Some(_) => self.sms_recipients().len() > 0,
        }
    }

    /// The points filter the cycle runs with: a parseable expression wins
    /// over the individual fields.
    pub fn points_filter(&self) -> (r: PointsFilter)
        ensures
            r == points_filter_spec(self),
    {
        if let Some(expr) = &self.points_filter_expr {
            if let Some(f) = parse_points_filter_expr(expr.as_str()) {
                return f;
            }
        }
        if let Some(e) = self.points_exact {
            PointsFilter::Exact(e)
        } else if self.points_min.is_some() || self.points_max.is_some() {
            PointsFilter::Range { min: self.points_min, max: self.points_max }
        } else {
            PointsFilter::All
        }
    }
}

/// Why a configuration was rejected, with the offending values.
pub enum ConfigError {
    InvalidUrl(String),
    InvalidDatabaseUrl(String),
    MissingDatabaseAuthToken,
    InvalidPointsRange { min: i64, max: i64 },
    NegativePointsExact(i64),
    UnparseableFilterExpression(String),
    MissingEmailFrom,
    InvalidEmailTo(String),
    InvalidEmailFrom(String),
    MissingSmsFrom,
    InvalidSmsFrom(String),
}

impl ConfigError {
    /// What the message accessor returns for each rejection.
    pub open spec fn message_spec(&self) -> Seq<char> {
        match self {
            ConfigError::InvalidUrl(u) => "Invalid URL '"@ + u@
                + "': must start with http:// or https://"@,
            ConfigError::InvalidDatabaseUrl(u) => "Invalid database URL '"@ + u@
                + "': must start with libsql:// or https://"@,
            ConfigError::MissingDatabaseAuthToken =>
                "Turso database URL requires a database auth token to be set"@,
            ConfigError::InvalidPointsRange { min, max } =>
                "Invalid points filter: minimum points ("@ + crate::points::points_str_spec(
                *min as int,
            ) + ") cannot be greater than maximum points ("@ + crate::points::points_str_spec(
                *max as int,
            ) + ")"@,
            ConfigError::NegativePointsExact(_) =>
                "Invalid points filter: exact points cannot be negative"@,
            ConfigError::UnparseableFilterExpression(e) =>
                "Invalid points filter expression '"@ + e@
                + "' and no numeric filter fields to fall back to"@,
            ConfigError::MissingEmailFrom =>
                "Email notifications require a from address to be set"@,
            ConfigError::InvalidEmailTo(u) => "Invalid email address in recipients: '"@ + u@
                + "'"@,
            ConfigError::InvalidEmailFrom(u) => "Invalid email address in from address: '"@ + u@
                + "'"@,
            ConfigError::MissingSmsFrom =>
                "SMS notifications require a from number to be set"@,
            ConfigError::InvalidSmsFrom(u) => "Invalid Twilio phone number in from number: '"@
                + u@ + "'"@,
        }
    }

    /// A descriptive account of the rejection, naming the offending
    /// values.
    pub fn message(&self) -> (r: String)
        ensures
            r@ == self.message_spec(),
    {
        match self {
            ConfigError::InvalidUrl(u) => {
                let r = String::from_str("Invalid URL '").concat(u.as_str()).concat(
                    "': must start with http:// or https://",
                );
                proof {
                    assert(r@ =~= self.message_spec());
                }
                r
            },
            ConfigError::InvalidDatabaseUrl(u) => {
                let r = String::from_str("Invalid database URL '").concat(u.as_str()).concat(
                    "': must start with libsql:// or https://",
                );
                proof {
                    assert(r@ =~= self.message_spec());
                }
                r
            },
            ConfigError::MissingDatabaseAuthToken => String::from_str(
                "Turso database URL requires a database auth token to be set",
            ),
            ConfigError::InvalidPointsRange { min, max } => {
                let r = String::from_str("Invalid points filter: minimum points (").concat(
                    points_str(*min).as_str(),
                ).concat(") cannot be greater than maximum points (").concat(
                    points_str(*max).as_str(),
                ).concat(")");
                proof {
                    assert(r@ =~= self.message_spec());
                }
                r
            },
            ConfigError::NegativePointsExact(_) => String::from_str(
                "Invalid points filter: exact points cannot be negative",
            ),
            ConfigError::UnparseableFilterExpression(e) => {
                let r = String::from_str("Invalid points filter expression '").concat(
                    e.as_str(),
                ).concat("' and no numeric filter fields to fall back to");
                proof {
                    assert(r@ =~= self.message_spec());
                }
                r
            },
            ConfigError::MissingEmailFrom => String::from_str(
                "Email notifications require a from address to be set",
            ),
            ConfigError::InvalidEmailTo(u) => {
                let r = String::from_str("Invalid email address in recipients: '").concat(
                    u.as_str(),
                ).concat("'");
                proof {
                    assert(r@ =~= self.message_spec());
                }
                r
            },
            ConfigError::InvalidEmailFrom(u) => {
                let r = String::from_str("Invalid email address in from address: '").concat(
                    u.as_str(),
                ).concat("'");
                proof {
                    assert(r@ =~= self.message_spec());
                }
                r
            },
            ConfigError::MissingSmsFrom => String::from_str(
                "SMS notifications require a from number to be set",
            ),
            ConfigError::InvalidSmsFrom(u) => {
                let r = String::from_str("Invalid Twilio phone number in from number: '").concat(
                    u.as_str(),
                ).concat("'");
                proof {
                    assert(r@ =~= self.message_spec());
                }
                r
            },
        }
    }
}

/// The checks `validate` runs, in their order.
pub open spec fn url_ok(c: &Config) -> bool {
    starts_with_spec(c.url@, "http://"@) || starts_with_spec(c.url@, "https://"@)
}

pub open spec fn db_url_ok(c: &Config) -> bool {
    match c.database_url {
        Some(u) => starts_with_spec(u@, "libsql://"@) || starts_with_spec(u@, "https://"@),
        None => true,
    }
}

pub open spec fn auth_ok(c: &Config) -> bool {
    c.database_url is Some ==> c.database_auth_token is Some
}

pub open spec fn points_range_ok(c: &Config) -> bool {
    match (c.points_min, c.points_max) {
        (Some(mn), Some(mx)) => mn <= mx,
        _ => true,
    }
}

pub open spec fn points_exact_ok(c: &Config) -> bool {
    match c.points_exact {
        Some(e) => e >= 0,
        None => true,
    }
}

/// An expression that does not parse is tolerated only where numeric
/// fields can take its place.
pub open spec fn filter_expr_ok(c: &Config) -> bool {
    !(c.points_filter_expr is Some && parse_filter_expr_spec(c.points_filter_expr->0@) is None
        && c.points_exact is None && c.points_min is None && c.points_max is None)
}

pub open spec fn email_enabled_spec(c: &Config) -> bool {
    c.email_to is Some && email_recipients_spec(c).len() > 0
}

pub open spec fn email_from_set_ok(c: &Config) -> bool {
    email_enabled_spec(c) ==> c.email_from is Some
}

pub open spec fn email_recipients_ok(c: &Config) -> bool {
    email_enabled_spec(c) ==> forall|i: int|
        0 <= i < email_recipients_spec(c).len() ==> is_valid_email_spec(
            #[trigger] email_recipients_spec(c)[i],
        )
}

pub open spec fn email_from_ok(c: &Config) -> bool {
    email_enabled_spec(c) && c.email_from is Some ==> is_valid_email_spec(
        extract_email_spec(c.email_from->0@),
    )
}

pub open spec fn sms_enabled_spec(c: &Config) -> bool {
    c.sms_to is Some && sms_recipients_spec(c).len() > 0
}

pub open spec fn sms_from_set_ok(c: &Config) -> bool {
    sms_enabled_spec(c) ==> c.sms_from is Some
}

pub open spec fn sms_from_ok(c: &Config) -> bool {
    sms_enabled_spec(c) && c.sms_from is Some ==> normalize_twilio_spec(c.sms_from->0@) is Some
}

/// Whether the whole configuration passes validation.
pub open spec fn validate_ok_spec(c: &Config) -> bool {
    &&& url_ok(c)
    &&& db_url_ok(c)
    &&& auth_ok(c)
    &&& points_range_ok(c)
    &&& points_exact_ok(c)
    &&& filter_expr_ok(c)
    &&& email_from_set_ok(c)
    &&& email_recipients_ok(c)
    &&& email_from_ok(c)
    &&& sms_from_set_ok(c)
    &&& sms_from_ok(c)
}

/// Which rejection `validate` reports: the first check that fails, with
/// the value that failed it.
pub open spec fn validate_err_spec(c: &Config, e: &ConfigError) -> bool {
    if !url_ok(c) {
        e matches ConfigError::InvalidUrl(u) && u@ == c.url@
    } else if !db_url_ok(c) {
        e matches ConfigError::InvalidDatabaseUrl(u) && u@ == c.database_url->0@
    } else if !auth_ok(c) {
        e is MissingDatabaseAuthToken
    } else if !points_range_ok(c) {
        e matches ConfigError::InvalidPointsRange { min, max } && min == c.points_min->0 && max
            == c.points_max->0
    } else if !points_exact_ok(c) {
        e matches ConfigError::NegativePointsExact(v) && v == c.points_exact->0
    } else if !filter_expr_ok(c) {
        e matches ConfigError::UnparseableFilterExpression(x) && x@ == c.points_filter_expr->0@
    } else if !email_from_set_ok(c) {
        e is MissingEmailFrom
    } else if !email_recipients_ok(c) {
        e matches ConfigError::InvalidEmailTo(u) && !is_valid_email_spec(u@)
            && email_recipients_spec(c).contains(u@)
    } else if !email_from_ok(c) {
        e matches ConfigError::InvalidEmailFrom(u) && u@ == c.email_from->0@
    } else if !sms_from_set_ok(c) {
        e is MissingSmsFrom
    } else if !sms_from_ok(c) {
        e matches ConfigError::InvalidSmsFrom(u) && u@ == c.sms_from->0@
    } else {
        false
    }
}

impl Config {
    /// Checks the configuration before any cycle runs. Rejections carry
    /// the first offence found, in the order the checks are written.
    pub fn validate(&self) -> (r: Result<(), ConfigError>)
        ensures
            r is Ok <==> validate_ok_spec(self),
            match r {
                Ok(_) => true,
                Err(e) => validate_err_spec(self, &e),
            },
    {
        let url_chars = chars_of(self.url.as_str());
        if !(starts_with_lit(&url_chars, "http://") || starts_with_lit(&url_chars, "https://")) {
            return Err(ConfigError::InvalidUrl(self.url.clone()));
        }
        if let Some(db_url) = &self.database_url {
            let du = chars_of(db_url.as_str());
            if !(starts_with_lit(&du, "libsql://") || starts_with_lit(&du, "https://")) {
                return Err(ConfigError::InvalidDatabaseUrl(db_url.clone()));
            }
            if self.database_auth_token.is_none() {
                return Err(ConfigError::MissingDatabaseAuthToken);
            }
        }
        if let (Some(mn), Some(mx)) = (self.points_min, self.points_max) {
            if mn > mx {
                return Err(ConfigError::InvalidPointsRange { min: mn, max: mx });
            }
        }
        if let Some(exact) = self.points_exact {
            if exact < 0 {
                return Err(ConfigError::NegativePointsExact(exact));
            }
        }
        if let Some(expr) = &self.points_filter_expr {
            if self.points_exact.is_none() && self.points_min.is_none()
                && self.points_max.is_none() {
                if parse_points_filter_expr(expr.as_str()).is_none() {
                    return Err(ConfigError::UnparseableFilterExpression(expr.clone()));
                }
            }
        }
        if self.email_enabled() {
            if self.email_from.is_none() {
                return Err(ConfigError::MissingEmailFrom);
            }
            let recipients = self.email_recipients();
            let n: usize = recipients.len();
            let mut i: usize = 0;
            while i < n
                invariant
                    i <= n,
                    n == recipients@.len(),
                    recipients.deep_view() == email_recipients_spec(self),
                    url_ok(self),
                    db_url_ok(self),
                    auth_ok(self),
                    points_range_ok(self),
                    points_exact_ok(self),
                    filter_expr_ok(self),
                    email_enabled_spec(self),
                    self.email_from is Some,
                    forall|j: int|
                        0 <= j < i ==> is_valid_email_spec(
                            #[trigger] email_recipients_spec(self)[j],
                        ),
                decreases n - i,
            {
                proof {
                    assert(recipients.deep_view()[i as int] == recipients@[i as int]@);
                }
                if !is_valid_email(recipients[i].as_str()) {
                    proof {
                        assert(email_recipients_spec(self).contains(recipients@[i as int]@));
                    }
                    return Err(ConfigError::InvalidEmailTo(recipients[i].clone()));
                }
                i = i + 1;
            }
            if let Some(from) = &self.email_from {
                let mailbox = extract_email_from_address(from.as_str());
                if !is_valid_email(mailbox.as_str()) {
                    return Err(ConfigError::InvalidEmailFrom(from.clone()));
                }
            }
        }
        if self.sms_enabled() {
            match &self.sms_from {
                None => {
                    return Err(ConfigError::MissingSmsFrom);
                },
                Some(from) => {
                    if normalize_twilio_phone(from.as_str()).is_none() {
                        return Err(ConfigError::InvalidSmsFrom(from.clone()));
                    }
                },
            }
        }
        Ok(())
    }
}

} // verus!
