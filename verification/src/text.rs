use vstd::prelude::*;
use vstd::std_specs::iter::IteratorSpec;

verus! {

broadcast use vstd::string::group_string_axioms;

/// Unicode `White_Space` (PropList.txt), the set that `char::is_whitespace`
/// and therefore `str::trim` use.
pub open spec fn is_white_space(c: char) -> bool {
    let x = c as u32;
    ||| 0x09 <= x <= 0x0d
    ||| x == 0x20
    ||| x == 0x85
    ||| x == 0xa0
    ||| x == 0x1680
    ||| 0x2000 <= x <= 0x200a
    ||| x == 0x2028
    ||| x == 0x2029
    ||| x == 0x202f
    ||| x == 0x205f
    ||| x == 0x3000
}

/// `s` without its leading characters that satisfy `p`.
pub open spec fn strip_leading(s: Seq<char>, p: spec_fn(char) -> bool) -> Seq<char>
    decreases s.len(),
{
    if s.len() > 0 && p(s[0]) {
        strip_leading(s.drop_first(), p)
    } else {
        s
    }
}

/// `s` without its trailing characters that satisfy `p`.
pub open spec fn strip_trailing(s: Seq<char>, p: spec_fn(char) -> bool) -> Seq<char>
    decreases s.len(),
{
    if s.len() > 0 && p(s.last()) {
        strip_trailing(s.drop_last(), p)
    } else {
        s
    }
}

/// What `str::trim` leaves of `s`.
pub open spec fn trimmed(s: Seq<char>) -> Seq<char> {
    strip_trailing(strip_leading(s, |c: char| is_white_space(c)), |c: char| is_white_space(c))
}

/// `pat` occurs in `s` at index `i`.
pub open spec fn occurs_at<T>(s: Seq<T>, pat: Seq<T>, i: int) -> bool {
    0 <= i && i + pat.len() <= s.len() && s.subrange(i, i + pat.len()) == pat
}

/// `pat` occurs somewhere in `s` (`str::contains`).
pub open spec fn occurs_in<T>(s: Seq<T>, pat: Seq<T>) -> bool {
    exists|i: int| occurs_at(s, pat, i)
}

/// `s` with each occurrence of `c` replaced by `by` (`str::replace` with a char pattern).
pub open spec fn replace_char(s: Seq<char>, c: char, by: Seq<char>) -> Seq<char>
    decreases s.len(),
{
    if s.len() == 0 {
        s
    } else {
        replace_char(s.drop_last(), c, by) + (if s.last() == c {
            by
        } else {
            seq![s.last()]
        })
    }
}

/// ASCII lower-casing of one character (`char::to_ascii_lowercase`).
pub open spec fn ascii_lower(c: char) -> char {
    if 'A' <= c <= 'Z' {
        ((c as u32) + 32) as char
    } else {
        c
    }
}

/// ASCII lower-casing of every character (`str::to_ascii_lowercase`).
pub open spec fn ascii_lowered(s: Seq<char>) -> Seq<char> {
    s.map_values(|c: char| ascii_lower(c))
}

pub proof fn lemma_strip_leading_at(s: Seq<char>, p: spec_fn(char) -> bool, i: int)
    requires
        0 <= i <= s.len(),
        forall|k: int| 0 <= k < i ==> p(#[trigger] s[k]),
        i == s.len() || !p(s[i]),
    ensures
        strip_leading(s, p) == s.skip(i),
    decreases i,
{
    if i == 0 {
        assert(s.skip(0) =~= s);
    } else {
        let t = s.drop_first();
        assert forall|k: int| 0 <= k < i - 1 implies p(#[trigger] t[k]) by {
            assert(t[k] == s[k + 1]);
        }
        lemma_strip_leading_at(t, p, i - 1);
        assert(t.skip(i - 1) =~= s.skip(i));
    }
}

pub proof fn lemma_strip_trailing_at(s: Seq<char>, p: spec_fn(char) -> bool, j: int)
    requires
        0 <= j <= s.len(),
        forall|k: int| j <= k < s.len() ==> p(#[trigger] s[k]),
        j == 0 || !p(s[j - 1]),
    ensures
        strip_trailing(s, p) == s.take(j),
    decreases s.len() - j,
{
    if j == s.len() {
        assert(s.take(j) =~= s);
    } else {
        let t = s.drop_last();
        assert forall|k: int| j <= k < t.len() implies p(#[trigger] t[k]) by {
            assert(t[k] == s[k]);
        }
        lemma_strip_trailing_at(t, p, j);
        assert(t.take(j) =~= s.take(j));
    }
}

/// A pattern that starts with a character `p` does not hold still occurs once
/// the leading characters that satisfy `p` are stripped.
pub proof fn lemma_occurs_after_strip_leading(
    s: Seq<char>,
    pat: Seq<char>,
    p: spec_fn(char) -> bool,
    i: int,
)
    requires
        occurs_at(s, pat, i),
        pat.len() > 0,
        !p(pat[0]),
    ensures
        occurs_in(strip_leading(s, p), pat),
    decreases s.len(),
{
    assert(s.subrange(i, i + pat.len())[0] == s[i]);
    if s.len() > 0 && p(s[0]) {
        assert(i > 0);
        let t = s.drop_first();
        assert(t.subrange(i - 1, i - 1 + pat.len()) =~= s.subrange(i, i + pat.len()));
        lemma_occurs_after_strip_leading(t, pat, p, i - 1);
    } else {
        assert(occurs_at(strip_leading(s, p), pat, i));
    }
}

/// A pattern that ends with a character `p` does not hold still occurs once
/// the trailing characters that satisfy `p` are stripped.
pub proof fn lemma_occurs_after_strip_trailing(
    s: Seq<char>,
    pat: Seq<char>,
    p: spec_fn(char) -> bool,
    i: int,
)
    requires
        occurs_at(s, pat, i),
        pat.len() > 0,
        !p(pat.last()),
    ensures
        occurs_in(strip_trailing(s, p), pat),
    decreases s.len(),
{
    assert(s.subrange(i, i + pat.len())[pat.len() - 1] == s[i + pat.len() - 1]);
    if s.len() > 0 && p(s.last()) {
        assert(i + pat.len() < s.len());
        let t = s.drop_last();
        assert(t.subrange(i, i + pat.len()) =~= s.subrange(i, i + pat.len()));
        lemma_occurs_after_strip_trailing(t, pat, p, i);
    } else {
        assert(occurs_at(strip_trailing(s, p), pat, i));
    }
}

/// Trimming keeps every occurrence of a pattern that neither starts nor ends
/// with white space.
pub proof fn lemma_occurs_after_trim(s: Seq<char>, pat: Seq<char>)
    requires
        occurs_in(s, pat),
        pat.len() > 0,
        !is_white_space(pat[0]),
        !is_white_space(pat.last()),
    ensures
        occurs_in(trimmed(s), pat),
{
    let ws = |c: char| is_white_space(c);
    let i = choose|i: int| occurs_at(s, pat, i);
    lemma_occurs_after_strip_leading(s, pat, ws, i);
    let u = strip_leading(s, ws);
    let j = choose|j: int| occurs_at(u, pat, j);
    lemma_occurs_after_strip_trailing(u, pat, ws, j);
}

/// Appends one character to a string (`String::push`).
#[verifier::external_body]
fn push_char(s: &mut String, c: char)
    ensures
        final(s)@ == old(s)@.push(c),
{
    s.push(c)
}

/// The characters of `s`, in order.
pub fn chars_of(s: &str) -> (chars: Vec<char>)
    ensures
        chars@ == s@,
{
    let mut out: Vec<char> = Vec::new();
    let mut it = s.chars();
    loop
        invariant
            out@ + it.remaining() == s@,
            it.decrease() is Some,
        ensures
            out@ == s@,
        decreases it.decrease()->0,
    {
        match it.next() {
            Some(c) => {
                out.push(c);
            },
            None => {
                break;
            },
        }
    }
    out
}

/// A string made of `chars`.
pub fn string_of(chars: &[char]) -> (s: String)
    ensures
        s@ == chars@,
{
    let mut s = String::new();
    let mut i: usize = 0;
    while i < chars.len()
        invariant
            i <= chars@.len(),
            s@ == chars@.take(i as int),
        decreases chars@.len() - i,
    {
        push_char(&mut s, chars[i]);
        assert(chars@.take(i + 1) =~= chars@.take(i as int).push(chars@[i as int]));
        i = i + 1;
    }
    assert(chars@.take(i as int) =~= chars@);
    s
}

/// Appends the characters of `chars` to `s`.
pub fn push_chars(s: &mut String, chars: &[char])
    ensures
        final(s)@ == old(s)@ + chars@,
{
    let mut i: usize = 0;
    while i < chars.len()
        invariant
            i <= chars@.len(),
            s@ == old(s)@ + chars@.take(i as int),
        decreases chars@.len() - i,
    {
        push_char(s, chars[i]);
        assert(chars@.take(i + 1) =~= chars@.take(i as int).push(chars@[i as int]));
        i = i + 1;
    }
    assert(chars@.take(i as int) =~= chars@);
}

/// `char::is_whitespace`.
pub fn is_whitespace(c: char) -> (r: bool)
    ensures
        r == is_white_space(c),
{
    let x = c as u32;
    (0x09 <= x && x <= 0x0d) || x == 0x20 || x == 0x85 || x == 0xa0 || x == 0x1680 || (0x2000
        <= x && x <= 0x200a) || x == 0x2028 || x == 0x2029 || x == 0x202f || x == 0x205f || x
        == 0x3000
}

/// Where the text of `chars` without leading and trailing white space starts
/// and ends.
fn trim_bounds(chars: &Vec<char>) -> (bounds: (usize, usize))
    ensures
        bounds.0 <= bounds.1 <= chars@.len(),
        trimmed(chars@) == chars@.subrange(bounds.0 as int, bounds.1 as int),
{
    let n = chars.len();
    let mut i: usize = 0;
    while i < n && is_whitespace(chars[i])
        invariant
            n == chars@.len(),
            i <= n,
            forall|k: int| 0 <= k < i ==> is_white_space(#[trigger] chars@[k]),
        decreases n - i,
    {
        i = i + 1;
    }
    let mut j: usize = n;
    while j > i && is_whitespace(chars[j - 1])
        invariant
            n == chars@.len(),
            i <= j <= n,
            forall|k: int| j <= k < n ==> is_white_space(#[trigger] chars@[k]),
        decreases j,
    {
        j = j - 1;
    }
    proof {
        let ws = |c: char| is_white_space(c);
        let s = chars@;
        lemma_strip_leading_at(s, ws, i as int);
        let t = s.skip(i as int);
        assert forall|k: int| j - i <= k < t.len() implies ws(#[trigger] t[k]) by {
            assert(t[k] == s[k + i]);
        }
        if j > i {
            assert(t[j - i - 1] == s[j - 1]);
        }
        lemma_strip_trailing_at(t, ws, j - i);
        assert(t.take(j - i) =~= s.subrange(i as int, j as int));
    }
    (i, j)
}

/// Where the text of `chars` without leading `open` and trailing `close`
/// characters starts and ends (`trim_start_matches(open).trim_end_matches(close)`).
fn strip_bounds(chars: &Vec<char>, open: char, close: char) -> (bounds: (usize, usize))
    ensures
        bounds.0 <= bounds.1 <= chars@.len(),
        strip_trailing(strip_leading(chars@, |c: char| c == open), |c: char| c == close)
            == chars@.subrange(bounds.0 as int, bounds.1 as int),
{
    let n = chars.len();
    let mut i: usize = 0;
    while i < n && chars[i] == open
        invariant
            n == chars@.len(),
            i <= n,
            forall|k: int| 0 <= k < i ==> #[trigger] chars@[k] == open,
        decreases n - i,
    {
        i = i + 1;
    }
    let mut j: usize = n;
    while j > i && chars[j - 1] == close
        invariant
            n == chars@.len(),
            i <= j <= n,
            forall|k: int| j <= k < n ==> #[trigger] chars@[k] == close,
        decreases j,
    {
        j = j - 1;
    }
    proof {
        let po = |c: char| c == open;
        let pc = |c: char| c == close;
        let s = chars@;
        assert forall|k: int| 0 <= k < i implies po(#[trigger] s[k]) by {}
        lemma_strip_leading_at(s, po, i as int);
        let t = s.skip(i as int);
        assert forall|k: int| j - i <= k < t.len() implies pc(#[trigger] t[k]) by {
            assert(t[k] == s[k + i]);
        }
        if j > i {
            assert(t[j - i - 1] == s[j - 1]);
        }
        lemma_strip_trailing_at(t, pc, j - i);
        assert(t.take(j - i) =~= s.subrange(i as int, j as int));
    }
    (i, j)
}

/// The characters of `chars` from index `i` up to `j`.
pub fn slice_chars(chars: &Vec<char>, i: usize, j: usize) -> (part: Vec<char>)
    requires
        i <= j <= chars@.len(),
    ensures
        part@ == chars@.subrange(i as int, j as int),
{
    let mut out: Vec<char> = Vec::new();
    let mut k: usize = i;
    while k < j
        invariant
            i <= k <= j <= chars@.len(),
            out@ == chars@.subrange(i as int, k as int),
        decreases j - k,
    {
        out.push(chars[k]);
        assert(out@ =~= chars@.subrange(i as int, k + 1));
        k = k + 1;
    }
    out
}

/// `s` without leading and trailing white space (`str::trim`).
pub fn trim(s: &str) -> (r: &str)
    ensures
        r@ == trimmed(s@),
{
    let chars = chars_of(s);
    let (i, j) = trim_bounds(&chars);
    s.substring_char(i, j)
}

/// `chars` without leading and trailing white space.
pub fn trim_chars(chars: &Vec<char>) -> (r: Vec<char>)
    ensures
        r@ == trimmed(chars@),
{
    let (i, j) = trim_bounds(chars);
    slice_chars(chars, i, j)
}

/// `chars` without leading `open` and trailing `close` characters.
pub fn strip_chars(chars: &Vec<char>, open: char, close: char) -> (r: Vec<char>)
    ensures
        r@ == strip_trailing(strip_leading(chars@, |c: char| c == open), |c: char| c == close),
{
    let (i, j) = strip_bounds(chars, open, close);
    slice_chars(chars, i, j)
}

/// Whether `pat` occurs at index `i` of `s`.
fn matches_at(s: &Vec<char>, pat: &Vec<char>, i: usize) -> (r: bool)
    requires
        i + pat@.len() <= s@.len(),
    ensures
        r == occurs_at(s@, pat@, i as int),
{
    let n = s.len();
    let mut k: usize = 0;
    while k < pat.len()
        invariant
            i + pat@.len() <= s@.len(),
            n == s@.len(),
            k <= pat@.len(),
            forall|m: int| 0 <= m < k ==> s@[i + m] == pat@[m],
        decreases pat@.len() - k,
    {
        if s[i + k] != pat[k] {
            assert(s@.subrange(i as int, i + pat@.len())[k as int] != pat@[k as int]);
            return false;
        }
        k = k + 1;
    }
    assert(s@.subrange(i as int, i + pat@.len()) =~= pat@);
    true
}

/// Whether `pat` occurs in `s` (`str::contains`).
pub fn contains_chars(s: &Vec<char>, pat: &Vec<char>) -> (r: bool)
    ensures
        r == occurs_in(s@, pat@),
{
    if pat.len() > s.len() {
        return false;
    }
    let last = s.len() - pat.len();
    let mut i: usize = 0;
    loop
        invariant
            last + pat@.len() == s@.len(),
            i <= last,
            forall|m: int| 0 <= m < i ==> !occurs_at(s@, pat@, m),
        decreases last - i,
    {
        if matches_at(s, pat, i) {
            return true;
        }
        if i == last {
            assert forall|m: int| #![auto] !occurs_at(s@, pat@, m) by {
                if 0 <= m <= last {
                    assert(m < i || m == i);
                }
            }
            return false;
        }
        i = i + 1;
    }
}

/// The characters of `s` with each `c` replaced by `by`.
pub fn replace_char_with(s: &Vec<char>, c: char, by: &Vec<char>) -> (r: Vec<char>)
    ensures
        r@ == replace_char(s@, c, by@),
{
    let mut out: Vec<char> = Vec::new();
    let mut i: usize = 0;
    while i < s.len()
        invariant
            i <= s@.len(),
            out@ == replace_char(s@.take(i as int), c, by@),
        decreases s@.len() - i,
    {
        let ghost before = out@;
        let x = s[i];
        if x == c {
            let mut k: usize = 0;
            while k < by.len()
                invariant
                    k <= by@.len(),
                    out@ == before + by@.take(k as int),
                decreases by@.len() - k,
            {
                out.push(by[k]);
                assert(by@.take(k + 1) =~= by@.take(k as int).push(by@[k as int]));
                k = k + 1;
            }
            assert(by@.take(k as int) =~= by@);
        } else {
            out.push(x);
        }
        assert(s@.take(i + 1).drop_last() =~= s@.take(i as int));
        i = i + 1;
    }
    assert(s@.take(i as int) =~= s@);
    out
}

/// `char::to_ascii_lowercase`.
pub fn to_ascii_lower(c: char) -> (r: char)
    ensures
        r == ascii_lower(c),
{
    if 'A' <= c && c <= 'Z' {
        ((c as u8) + 32) as char
    } else {
        c
    }
}

/// The characters of `s`, ASCII lower-cased.
pub fn to_ascii_lowered(s: &Vec<char>) -> (r: Vec<char>)
    ensures
        r@ == ascii_lowered(s@),
{
    let mut out: Vec<char> = Vec::new();
    let mut i: usize = 0;
    while i < s.len()
        invariant
            i <= s@.len(),
            out@ == ascii_lowered(s@.take(i as int)),
        decreases s@.len() - i,
    {
        out.push(to_ascii_lower(s[i]));
        assert(ascii_lowered(s@.take(i + 1)) =~= ascii_lowered(s@.take(i as int)).push(
            ascii_lower(s@[i as int]),
        ));
        i = i + 1;
    }
    assert(s@.take(i as int) =~= s@);
    out
}

/// Whether two character vectors are equal.
pub fn same_chars(a: &Vec<char>, b: &Vec<char>) -> (same: bool)
    ensures
        same == (a@ == b@),
{
    if a.len() != b.len() {
        return false;
    }
    let mut i: usize = 0;
    while i < a.len()
        invariant
            a@.len() == b@.len(),
            i <= a@.len(),
            forall|k: int| 0 <= k < i ==> a@[k] == b@[k],
        decreases a@.len() - i,
    {
        if a[i] != b[i] {
            return false;
        }
        i = i + 1;
    }
    assert(a@ =~= b@);
    true
}

/// Whether two strings hold the same characters.
pub fn same_text(a: &str, b: &str) -> (same: bool)
    ensures
        same == (a@ == b@),
{
    let x = chars_of(a);
    let y = chars_of(b);
    same_chars(&x, &y)
}

} // verus!
