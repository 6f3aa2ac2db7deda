//! Character classes, conversions between strings and character vectors,
//! and the trimming and squeezing operations that the naming rules build on.
use vstd::prelude::*;

verus! {

broadcast use vstd::string::group_string_axioms;

/// `c` is one of the ASCII decimal digits `0`..`9`.
pub open spec fn is_digit_spec(c: char) -> bool {
    '0' <= c && c <= '9'
}

/// `c` is an ASCII letter.
pub open spec fn is_alpha_spec(c: char) -> bool {
    ('a' <= c && c <= 'z') || ('A' <= c && c <= 'Z')
}

/// `c` is an ASCII letter or digit.
pub open spec fn is_alnum_spec(c: char) -> bool {
    is_alpha_spec(c) || is_digit_spec(c)
}

/// `c` has the Unicode `White_Space` property (what `char::is_whitespace` tests).
pub open spec fn is_white_space_spec(c: char) -> bool {
    ('\u{9}' <= c && c <= '\u{d}') || c == ' ' || c == '\u{85}' || c == '\u{a0}'
        || c == '\u{1680}' || ('\u{2000}' <= c && c <= '\u{200a}') || c == '\u{2028}'
        || c == '\u{2029}' || c == '\u{202f}' || c == '\u{205f}' || c == '\u{3000}'
}

pub fn is_digit(c: char) -> (r: bool)
    ensures
        r == is_digit_spec(c),
{
    '0' <= c && c <= '9'
}

pub fn is_alpha(c: char) -> (r: bool)
    ensures
        r == is_alpha_spec(c),
{
    ('a' <= c && c <= 'z') || ('A' <= c && c <= 'Z')
}

pub fn is_alnum(c: char) -> (r: bool)
    ensures
        r == is_alnum_spec(c),
{
    is_alpha(c) || is_digit(c)
}

pub fn is_white_space(c: char) -> (r: bool)
    ensures
        r == is_white_space_spec(c),
{
    ('\u{9}' <= c && c <= '\u{d}') || c == ' ' || c == '\u{85}' || c == '\u{a0}'
        || c == '\u{1680}' || ('\u{2000}' <= c && c <= '\u{200a}') || c == '\u{2028}'
        || c == '\u{2029}' || c == '\u{202f}' || c == '\u{205f}' || c == '\u{3000}'
}

/// The characters of `s`, in order.
pub fn chars_of(s: &str) -> (v: Vec<char>)
    ensures
        v@ == s@,
{
    let mut v: Vec<char> = Vec::new();
    for c in it: s.chars()
        invariant
            v@ == it.seq().take(it.index() as int),
            it.seq() == s@,
    {
        v.push(c);
    }
    v
}

/// Appends one character (std `String::push`).
#[verifier::external_body]
fn push_char(s: &mut String, c: char)
    ensures
        final(s)@ == old(s)@.push(c),
{
    s.push(c);
}

/// The string made of the characters of `v`, in order.
pub fn string_of(v: &Vec<char>) -> (s: String)
    ensures
        s@ == v@,
{
    let mut s = String::new();
    let mut i: usize = 0;
    while i < v.len()
        invariant
            i <= v.len(),
            s@ == v@.take(i as int),
        decreases v.len() - i,
    {
        push_char(&mut s, v[i]);
        i += 1;
        assert(s@ =~= v@.take(i as int));
    }
    assert(v@.take(v.len() as int) =~= v@);
    s
}

/// The characters of `v` from index `lo` up to (not including) `hi`.
pub fn copy_range(v: &Vec<char>, lo: usize, hi: usize) -> (r: Vec<char>)
    requires
        lo <= hi <= v.len(),
    ensures
        r@ == v@.subrange(lo as int, hi as int),
{
    let mut r: Vec<char> = Vec::new();
    let mut i = lo;
    while i < hi
        invariant
            lo <= i <= hi <= v.len(),
            r@ == v@.subrange(lo as int, i as int),
        decreases hi - i,
    {
        r.push(v[i]);
        i += 1;
        assert(r@ =~= v@.subrange(lo as int, i as int));
    }
    r
}

/// Index of the first character at or after `i` that `p` does not hold of
/// (or the length, when there is none).
pub open spec fn skip_from(s: Seq<char>, p: spec_fn(char) -> bool, i: int) -> int
    decreases s.len() - i,
{
    if 0 <= i < s.len() && p(s[i]) {
        skip_from(s, p, i + 1)
    } else {
        i
    }
}

/// Index just past the last character before `j` (and at or after `lo`) that
/// `p` does not hold of (or `lo`, when there is none).
pub open spec fn skip_back(s: Seq<char>, p: spec_fn(char) -> bool, lo: int, j: int) -> int
    decreases j - lo,
{
    if lo < j && j <= s.len() && p(s[j - 1]) {
        skip_back(s, p, lo, j - 1)
    } else {
        j
    }
}

/// `s` without its leading and trailing characters that `p` holds of.
pub open spec fn strip(s: Seq<char>, p: spec_fn(char) -> bool) -> Seq<char> {
    let lo = skip_from(s, p, 0);
    s.subrange(lo, skip_back(s, p, lo, s.len() as int))
}

/// `s` without its leading and trailing white space (what `str::trim` gives).
pub open spec fn trim_spec(s: Seq<char>) -> Seq<char> {
    strip(s, |c: char| is_white_space_spec(c))
}

/// `s` without its leading and trailing underscores (what `trim_matches('_')` gives).
pub open spec fn trim_underscores_spec(s: Seq<char>) -> Seq<char> {
    strip(s, |c: char| c == '_')
}

/// Skipping forward from `i` stops within the string, past only characters
/// that satisfy `p`, and at a character that does not.
pub proof fn lemma_skip_from_bounds(s: Seq<char>, p: spec_fn(char) -> bool, i: int)
    requires
        0 <= i <= s.len(),
    ensures
        i <= skip_from(s, p, i) <= s.len(),
        forall|k: int| i <= k < skip_from(s, p, i) ==> #[trigger] p(s[k]),
        skip_from(s, p, i) < s.len() ==> !p(s[skip_from(s, p, i)]),
    decreases s.len() - i,
{
    if i < s.len() && p(s[i]) {
        lemma_skip_from_bounds(s, p, i + 1);
    }
}

/// Skipping back from `j` stops no lower than `lo`, past only characters
/// that satisfy `p`, and just after a character that does not.
pub proof fn lemma_skip_back_bounds(s: Seq<char>, p: spec_fn(char) -> bool, lo: int, j: int)
    requires
        0 <= lo <= j <= s.len(),
    ensures
        lo <= skip_back(s, p, lo, j) <= j,
        forall|k: int| skip_back(s, p, lo, j) <= k < j ==> #[trigger] p(s[k]),
        skip_back(s, p, lo, j) > lo ==> !p(s[skip_back(s, p, lo, j) - 1]),
    decreases j - lo,
{
    if lo < j && p(s[j - 1]) {
        lemma_skip_back_bounds(s, p, lo, j - 1);
    }
}

fn strip_test(c: char, underscores: bool) -> (r: bool)
    ensures
        r == if underscores { c == '_' } else { is_white_space_spec(c) },
{
    if underscores { c == '_' } else { is_white_space(c) }
}

/// Strips the characters `p` holds of from both ends.
fn strip_by(v: &Vec<char>, Ghost(p): Ghost<spec_fn(char) -> bool>, underscores: bool) -> (r: Vec<char>)
    requires
        forall|c: char| #[trigger] p(c) == if underscores { c == '_' } else { is_white_space_spec(c) },
    ensures
        r@ == strip(v@, p),
{
    let n = v.len();
    let mut lo: usize = 0;
    while lo < n && strip_test(v[lo], underscores)
        invariant
            lo <= n == v.len(),
            forall|c: char| #[trigger] p(c) == if underscores { c == '_' } else { is_white_space_spec(c) },
            skip_from(v@, p, lo as int) == skip_from(v@, p, 0),
        decreases n - lo,
    {
        assert(p(v@[lo as int]));
        lo += 1;
    }
    assert(!(lo < n) || !p(v@[lo as int]));
    let mut hi: usize = n;
    while hi > lo && strip_test(v[hi - 1], underscores)
        invariant
            lo <= hi <= n == v.len(),
            forall|c: char| #[trigger] p(c) == if underscores { c == '_' } else { is_white_space_spec(c) },
            lo == skip_from(v@, p, 0),
            skip_back(v@, p, lo as int, hi as int) == skip_back(v@, p, lo as int, n as int),
        decreases hi - lo,
    {
        assert(p(v@[hi - 1]));
        hi -= 1;
    }
    assert(!(hi > lo) || !p(v@[hi - 1]));
    copy_range(v, lo, hi)
}

/// `v` without leading and trailing white space.
pub fn trim_chars(v: &Vec<char>) -> (r: Vec<char>)
    ensures
        r@ == trim_spec(v@),
{
    strip_by(v, Ghost(|c: char| is_white_space_spec(c)), false)
}

/// `v` without leading and trailing underscores.
pub fn trim_underscores(v: &Vec<char>) -> (r: Vec<char>)
    ensures
        r@ == trim_underscores_spec(v@),
{
    strip_by(v, Ghost(|c: char| c == '_'), true)
}

/// The characters of `s` without leading and trailing white space.
pub fn trimmed_chars(s: &str) -> (r: Vec<char>)
    ensures
        r@ == trim_spec(s@),
{
    let v = chars_of(s);
    trim_chars(&v)
}

/// `s` with every run of consecutive underscores squeezed to one underscore;
/// `prev` tells whether an underscore was written just before `s`.
pub open spec fn squeeze(s: Seq<char>, prev: bool) -> Seq<char>
    decreases s.len(),
{
    if s.len() == 0 {
        Seq::empty()
    } else if s[0] == '_' {
        if prev {
            squeeze(s.drop_first(), true)
        } else {
            seq!['_'] + squeeze(s.drop_first(), true)
        }
    } else {
        seq![s[0]] + squeeze(s.drop_first(), false)
    }
}

} // verus!

verus! {

/// The underscore-squeezed form of `v`.
pub fn squeeze_chars(v: &Vec<char>) -> (r: Vec<char>)
    ensures
        r@ == squeeze(v@, false),
{
    let n = v.len();
    let mut out: Vec<char> = Vec::new();
    let mut prev = false;
    let mut i: usize = 0;
    assert(v@.subrange(0, n as int) =~= v@);
    assert(out@ + squeeze(v@, false) =~= squeeze(v@, false));
    while i < n
        invariant
            i <= n == v.len(),
            out@ + squeeze(v@.subrange(i as int, n as int), prev) == squeeze(v@, false),
        decreases n - i,
    {
        let c = v[i];
        let ghost s_i = v@.subrange(i as int, n as int);
        let ghost s_next = v@.subrange(i + 1, n as int);
        assert(s_i.drop_first() =~= s_next);
        assert(s_i[0] == c);
        let ghost old_out = out@;
        if c == '_' {
            if !prev {
                out.push('_');
                assert(old_out + (seq!['_'] + squeeze(s_next, true)) =~= out@ + squeeze(s_next, true));
            }
            prev = true;
        } else {
            out.push(c);
            assert(old_out + (seq![c] + squeeze(s_next, false)) =~= out@ + squeeze(s_next, false));
            prev = false;
        }
        i += 1;
    }
    assert(v@.subrange(n as int, n as int) =~= Seq::<char>::empty());
    assert(out@ + Seq::<char>::empty() =~= out@);
    out
}

} // verus!

verus! {

/// Stripping twice strips no more than stripping once.
pub proof fn lemma_strip_idempotent(s: Seq<char>, p: spec_fn(char) -> bool)
    ensures
        strip(strip(s, p), p) == strip(s, p),
{
    lemma_skip_from_bounds(s, p, 0);
    let lo = skip_from(s, p, 0);
    lemma_skip_back_bounds(s, p, lo, s.len() as int);
    let hi = skip_back(s, p, lo, s.len() as int);
    let r = s.subrange(lo, hi);
    if r.len() > 0 {
        assert(r[0] == s[lo]);
        assert(r[r.len() - 1] == s[hi - 1]);
    }
    assert(skip_from(r, p, 0) == 0);
    assert(skip_back(r, p, 0, r.len() as int) == r.len());
    assert(r.subrange(0, r.len() as int) =~= r);
}

/// Trimming twice trims no more than trimming once.
pub proof fn lemma_trim_idempotent(s: Seq<char>)
    ensures
        trim_spec(trim_spec(s)) == trim_spec(s),
{
    lemma_strip_idempotent(s, |c: char| is_white_space_spec(c));
}

} // verus!
