use vstd::prelude::*;
use vstd::string::*;
use crate::text::push_char;

verus! {

/// The configuration the dashboard may show: no secrets, plain values
/// only.
pub struct AppConfig {
    pub email_enabled: bool,
    pub email_from: Option<String>,
    pub email_to: Vec<String>,
    pub sms_enabled: bool,
    pub sms_from: Option<String>,
    pub sms_to: Vec<String>,
    pub points_filter: String,
    pub database_type: String,
    pub scrape_url: String,
}

/// What one character becomes under HTML escaping.
pub open spec fn escape_char(c: char) -> Seq<char> {
    if c == '&' {
        "&amp;"@
    } else if c == '<' {
        "&lt;"@
    } else if c == '>' {
        "&gt;"@
    } else if c == '"' {
        "&quot;"@
    } else if c == '\'' {
        "&#x27;"@
    } else {
        seq![c]
    }
}

/// A text with its markup-significant characters escaped.
pub open spec fn html_escape_spec(s: Seq<char>) -> Seq<char>
    decreases s.len(),
{
    if s.len() == 0 {
        Seq::empty()
    } else {
        html_escape_spec(s.drop_last()) + escape_char(s.last())
    }
}

/// Escapes text for inclusion in HTML.
pub fn html_escape(s: &str) -> (r: String)
    ensures
        r@ == html_escape_spec(s@),
{
    let n: usize = s.unicode_len();
    let mut r = String::new();
    proof {
        assert(r@ =~= html_escape_spec(s@.take(0)));
    }
    let mut i: usize = 0;
    while i < n
        invariant
            i <= n,
            n == s@.len(),
            r@ == html_escape_spec(s@.take(i as int)),
        decreases n - i,
    {
        proof {
            assert(s@.take(i as int + 1).drop_last() =~= s@.take(i as int));
            assert(s@.take(i as int + 1).last() == s@[i as int]);
        }
        let c = s.get_char(i);
        let r2 = if c == '&' {
            r.concat("&amp;")
        } else if c == '<' {
            r.concat("&lt;")
        } else if c == '>' {
            r.concat("&gt;")
        } else if c == '"' {
            r.concat("&quot;")
        } else if c == '\'' {
            r.concat("&#x27;")
        } else {
            let mut r2 = r;
            push_char(&mut r2, c);
            proof {
                assert(r2@ =~= html_escape_spec(s@.take(i as int)) + escape_char(c));
            }
            r2
        };
        r = r2;
        i = i + 1;
    }
    proof {
        assert(s@.take(n as int) =~= s@);
    }
    r
}

/// How a stored timestamp is shown: the date-time separator becomes a
/// space and only the first nineteen characters - date and time of day -
/// are kept.
pub open spec fn format_timestamp_spec(ts: Seq<char>) -> Seq<char> {
    let spaced = Seq::new(
        ts.len(),
        |i: int|
            if ts[i] == 'T' {
                ' '
            } else {
                ts[i]
            },
    );
    if spaced.len() <= 19 {
        spaced
    } else {
        spaced.take(19)
    }
}

/// Renders a stored timestamp for display.
pub fn format_timestamp(ts: &str) -> (r: String)
    ensures
        r@ == format_timestamp_spec(ts@),
{
    let n: usize = ts.unicode_len();
    let count: usize = if n <= 19 {
        n
    } else {
        19
    };
    let mut r = String::new();
    let mut i: usize = 0;
    while i < count
        invariant
            i <= count,
            count <= n,
            n == ts@.len(),
            count == if n <= 19 {
                n as int
            } else {
                19
            },
            r@.len() == i,
            forall|j: int| 0 <= j < i ==> #[trigger] r@[j] == format_timestamp_spec(ts@)[j],
        decreases count - i,
    {
        let c = ts.get_char(i);
        if c == 'T' {
            push_char(&mut r, ' ');
        } else {
            push_char(&mut r, c);
        }
        i = i + 1;
    }
    proof {
        assert(r@ =~= format_timestamp_spec(ts@));
    }
    r
}

} // verus!
