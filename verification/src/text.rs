use vstd::prelude::*;
use vstd::string::*;

verus! {

/// The whitespace characters recognized by this library when trimming or
/// cleaning text: ASCII whitespace plus the no-break space that the scraped
/// pages use inside table cells.
pub open spec fn is_space_char(c: char) -> bool {
    c == ' ' || c == '\t' || c == '\n' || c == '\r' || c == '\u{b}' || c == '\u{c}'
        || c == '\u{a0}'
}

pub fn is_space(c: char) -> (r: bool)
    ensures
        r == is_space_char(c),
{
    c == ' ' || c == '\t' || c == '\n' || c == '\r' || c == '\u{b}' || c == '\u{c}'
        || c == '\u{a0}'
}

pub open spec fn is_digit_char(c: char) -> bool {
    '0' <= c && c <= '9'
}

pub fn is_digit(c: char) -> (r: bool)
    ensures
        r == is_digit_char(c),
{
    '0' <= c && c <= '9'
}

/// The characters of a string slice, as a vector.
pub fn chars_of(s: &str) -> (r: Vec<char>)
    ensures
        r@ == s@,
{
    let n: usize = s.unicode_len();
    let mut r: Vec<char> = Vec::new();
    let mut i: usize = 0;
    while i < n
        invariant
            i <= n,
            n == s@.len(),
            r@ == s@.subrange(0, i as int),
        decreases n - i,
    {
        r.push(s.get_char(i));
        i = i + 1;
        proof {
            assert(r@ =~= s@.subrange(0, i as int));
        }
    }
    proof {
        assert(r@ =~= s@);
    }
    r
}

/// Relies on String::push: appends the given character to the end of the string.
#[verifier::external_body]
pub fn push_char(s: &mut String, c: char)
    ensures
        final(s)@ == old(s)@.push(c),
{
    s.push(c);
}

/// A string holding exactly the given characters.
pub fn string_of(v: &Vec<char>) -> (r: String)
    ensures
        r@ == v@,
{
    let mut r = String::new();
    let mut i: usize = 0;
    while i < v.len()
        invariant
            i <= v@.len(),
            r@ == v@.subrange(0, i as int),
        decreases v@.len() - i,
    {
        push_char(&mut r, v[i]);
        i = i + 1;
        proof {
            assert(r@ =~= v@.subrange(0, i as int));
        }
    }
    proof {
        assert(r@ =~= v@);
    }
    r
}

pub open spec fn trim_front_spec(s: Seq<char>) -> Seq<char>
    decreases s.len(),
{
    if s.len() > 0 && is_space_char(s[0]) {
        trim_front_spec(s.drop_first())
    } else {
        s
    }
}

pub open spec fn trim_back_spec(s: Seq<char>) -> Seq<char>
    decreases s.len(),
{
    if s.len() > 0 && is_space_char(s.last()) {
        trim_back_spec(s.drop_last())
    } else {
        s
    }
}

/// The given text without leading and trailing whitespace.
pub open spec fn trim_spec(s: Seq<char>) -> Seq<char> {
    trim_back_spec(trim_front_spec(s))
}

proof fn lemma_trim_front_skip(s: Seq<char>, i: int)
    requires
        0 <= i <= s.len(),
        forall|j: int| 0 <= j < i ==> is_space_char(s[j]),
        i < s.len() ==> !is_space_char(s[i]),
    ensures
        trim_front_spec(s) == s.skip(i),
    decreases i,
{
    if i == 0 {
        if s.len() > 0 {
            assert(!is_space_char(s[0]));
        }
        assert(s.skip(0) =~= s);
    } else {
        assert(is_space_char(s[0]));
        lemma_trim_front_skip(s.drop_first(), i - 1);
        assert(s.drop_first().skip(i - 1) =~= s.skip(i));
    }
}

proof fn lemma_trim_back_take(s: Seq<char>, i: int)
    requires
        0 <= i <= s.len(),
        forall|j: int| i <= j < s.len() ==> is_space_char(s[j]),
        i > 0 ==> !is_space_char(s[i - 1]),
    ensures
        trim_back_spec(s) == s.take(i),
    decreases s.len() - i,
{
    if i == s.len() {
        if i > 0 {
            assert(!is_space_char(s.last()));
        }
        assert(s.take(i) =~= s);
    } else {
        assert(is_space_char(s.last()));
        lemma_trim_back_take(s.drop_last(), i);
        assert(s.drop_last().take(i) =~= s.take(i));
    }
}

/// The characters of `v` without leading and trailing whitespace.
pub fn trim_chars(v: &Vec<char>) -> (r: Vec<char>)
    ensures
        r@ == trim_spec(v@),
{
    let n: usize = v.len();
    let mut start: usize = 0;
    while start < n && is_space(v[start])
        invariant
            start <= n,
            n == v@.len(),
            forall|j: int| 0 <= j < start ==> is_space_char(v@[j]),
        decreases n - start,
    {
        start = start + 1;
    }
    proof {
        lemma_trim_front_skip(v@, start as int);
    }
    let ghost front = v@.skip(start as int);
    let mut end: usize = n;
    while end > start && is_space(v[end - 1])
        invariant
            start <= end <= n,
            n == v@.len(),
            front == v@.skip(start as int),
            forall|j: int| end <= j < n ==> is_space_char(v@[j]),
        decreases end,
    {
        end = end - 1;
    }
    proof {
        assert(forall|j: int| end - start <= j < front.len() ==> is_space_char(front[j]));
        if end > start {
            assert(front[end - start - 1] == v@[end - 1]);
        }
        lemma_trim_back_take(front, end - start);
    }
    let mut r: Vec<char> = Vec::new();
    let mut i: usize = start;
    while i < end
        invariant
            start <= i <= end <= n,
            n == v@.len(),
            r@ == v@.subrange(start as int, i as int),
        decreases end - i,
    {
        r.push(v[i]);
        i = i + 1;
        proof {
            assert(r@ =~= v@.subrange(start as int, i as int));
        }
    }
    proof {
        assert(v@.subrange(start as int, end as int) =~= front.take(end - start));
    }
    r
}

/// The index of the first occurrence of `c` in `s`, if any.
pub open spec fn find_char_from(s: Seq<char>, c: char, i: int) -> Option<int>
    decreases s.len() - i,
{
    if i < 0 || i >= s.len() {
        Option::<int>::None
    } else if s[i] == c {
        Some(i)
    } else {
        find_char_from(s, c, i + 1)
    }
}

pub open spec fn find_char_spec(s: Seq<char>, c: char) -> Option<int> {
    find_char_from(s, c, 0)
}

pub open spec fn contains_char(s: Seq<char>, c: char) -> bool {
    find_char_spec(s, c) is Some
}

pub fn find_char(v: &Vec<char>, c: char) -> (r: Option<usize>)
    ensures
        match r {
            Some(i) => find_char_spec(v@, c) == Some(i as int) && i < v@.len() && v@[i as int]
                == c,
            None => find_char_spec(v@, c) is None,
        },
{
    let n: usize = v.len();
    let mut i: usize = 0;
    while i < n
        invariant
            i <= n,
            n == v@.len(),
            find_char_spec(v@, c) == find_char_from(v@, c, i as int),
        decreases n - i,
    {
        if v[i] == c {
            return Some(i);
        }
        i = i + 1;
    }
    None
}

/// The number of occurrences of `c` in `s`.
pub open spec fn count_char(s: Seq<char>, c: char) -> nat
    decreases s.len(),
{
    if s.len() == 0 {
        0
    } else {
        count_char(s.drop_last(), c) + if s.last() == c {
            1nat
        } else {
            0nat
        }
    }
}

/// Whether `s` begins with `p`.
pub open spec fn starts_with_spec(s: Seq<char>, p: Seq<char>) -> bool {
    p.len() <= s.len() && s.subrange(0, p.len() as int) == p
}

/// Whether the characters of `v` begin with the characters of the literal `p`.
pub fn starts_with_lit(v: &Vec<char>, p: &str) -> (r: bool)
    ensures
        r == starts_with_spec(v@, p@),
{
    let pc = chars_of(p);
    let m: usize = pc.len();
    if m > v.len() {
        assert(!starts_with_spec(v@, p@));
        return false;
    }
    let mut i: usize = 0;
    while i < m
        invariant
            i <= m,
            m == pc@.len(),
            m <= v@.len(),
            pc@ == p@,
            forall|j: int| 0 <= j < i ==> v@[j] == pc@[j],
        decreases m - i,
    {
        if v[i] != pc[i] {
            assert(v@.subrange(0, m as int)[i as int] != p@[i as int]);
            return false;
        }
        i = i + 1;
    }
    proof {
        assert(v@.subrange(0, m as int) =~= p@);
    }
    true
}

/// The first index at which the pattern `p` occurs in `s`, if any.
pub open spec fn find_sub_from(s: Seq<char>, p: Seq<char>, i: int) -> Option<int>
    decreases s.len() - i + 1,
{
    if i < 0 || i + p.len() > s.len() {
        Option::<int>::None
    } else if s.subrange(i, i + p.len() as int) == p {
        Some(i)
    } else {
        find_sub_from(s, p, i + 1)
    }
}

pub open spec fn find_sub_spec(s: Seq<char>, p: Seq<char>) -> Option<int> {
    find_sub_from(s, p, 0)
}

pub open spec fn contains_sub(s: Seq<char>, p: Seq<char>) -> bool {
    find_sub_spec(s, p) is Some
}

fn match_at(v: &Vec<char>, p: &Vec<char>, i: usize) -> (r: bool)
    requires
        i + p@.len() <= v@.len(),
    ensures
        r == (v@.subrange(i as int, i + p@.len()) == p@),
{
    let n: usize = v.len();
    let m: usize = p.len();
    let mut j: usize = 0;
    while j < m
        invariant
            j <= m,
            n == v@.len(),
            m == p@.len(),
            i + m <= n,
            forall|k: int| 0 <= k < j ==> v@[i + k] == p@[k],
        decreases m - j,
    {
        if v[i + j] != p[j] {
            assert(v@.subrange(i as int, i + p@.len())[j as int] != p@[j as int]);
            return false;
        }
        j = j + 1;
    }
    proof {
        assert(v@.subrange(i as int, i + p@.len()) =~= p@);
    }
    true
}

/// The first index at which the characters of the literal `p` occur in `v`.
pub fn find_sub_lit(v: &Vec<char>, p: &str) -> (r: Option<usize>)
    ensures
        match r {
            Some(i) => find_sub_spec(v@, p@) == Some(i as int) && i + p@.len() <= v@.len(),
            None => find_sub_spec(v@, p@) is None,
        },
{
    let pc = chars_of(p);
    let n: usize = v.len();
    let m: usize = pc.len();
    if m > n {
        return None;
    }
    if m == 0 {
        proof {
            assert(v@.subrange(0, 0) =~= p@);
        }
        return Some(0);
    }
    let mut i: usize = 0;
    while i <= n - m
        invariant
            i <= n - m + 1,
            1 <= m <= n,
            n == v@.len(),
            m == pc@.len(),
            pc@ == p@,
            find_sub_spec(v@, p@) == find_sub_from(v@, p@, i as int),
        decreases n - i,
    {
        if match_at(v, &pc, i) {
            return Some(i);
        }
        i = i + 1;
    }
    None
}

/// The decimal digit `d` as a character.
pub open spec fn digit_char(d: int) -> char {
    ((48 + d) as char)
}

fn digit_char_of(d: u64) -> (c: char)
    requires
        d < 10,
    ensures
        c == digit_char(d as int),
{
    match d {
        0 => '0',
        1 => '1',
        2 => '2',
        3 => '3',
        4 => '4',
        5 => '5',
        6 => '6',
        7 => '7',
        8 => '8',
        _ => '9',
    }
}

/// The decimal digits of `n`, most significant first.
pub open spec fn dec_str_spec(n: nat) -> Seq<char>
    decreases n,
{
    if n < 10 {
        seq![digit_char(n as int)]
    } else {
        dec_str_spec(n / 10).push(digit_char((n % 10) as int))
    }
}

pub fn u64_str(n: u64) -> (r: String)
    ensures
        r@ == dec_str_spec(n as nat),
    decreases n,
{
    if n < 10 {
        let mut s = String::new();
        push_char(&mut s, digit_char_of(n));
        proof {
            assert(s@ =~= dec_str_spec(n as nat));
        }
        s
    } else {
        let mut s = u64_str(n / 10);
        push_char(&mut s, digit_char_of(n % 10));
        s
    }
}

/// The characters of `v` from `from` (inclusive) to `to` (exclusive).
pub fn sub_chars(v: &Vec<char>, from: usize, to: usize) -> (r: Vec<char>)
    requires
        from <= to <= v@.len(),
    ensures
        r@ == v@.subrange(from as int, to as int),
{
    let mut r: Vec<char> = Vec::new();
    let mut i: usize = from;
    while i < to
        invariant
            from <= i <= to <= v@.len(),
            r@ == v@.subrange(from as int, i as int),
        decreases to - i,
    {
        r.push(v[i]);
        i = i + 1;
        proof {
            assert(r@ =~= v@.subrange(from as int, i as int));
        }
    }
    r
}

} // verus!
