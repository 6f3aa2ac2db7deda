//! The grammar of the decimal literals that std's `f64` parser accepts, so that
//! a literal can be checked, and kept as text, before anything reads its value.
use vstd::prelude::*;
use crate::computed::ascii_lower;
use crate::text::{is_digit, is_digit_spec};

verus! {

/// `s` without one leading `+` or `-`.
pub open spec fn unsigned(s: Seq<char>) -> Seq<char> {
    if s.len() > 0 && (s[0] == '+' || s[0] == '-') {
        s.drop_first()
    } else {
        s
    }
}

/// Every character of `s` is an ASCII digit.
pub open spec fn all_digits(s: Seq<char>) -> bool {
    forall|i: int| 0 <= i < s.len() ==> is_digit_spec(#[trigger] s[i])
}

/// `s` spells `inf`, `infinity` or `nan`, in any ASCII case.
pub open spec fn is_special_literal(s: Seq<char>) -> bool {
    let l = s.map_values(|c: char| ascii_lower(c));
    l == seq!['i', 'n', 'f'] || l == seq!['i', 'n', 'f', 'i', 'n', 'i', 't', 'y'] || l == seq!['n', 'a', 'n']
}

/// The index of the first character at or after `i` that is `c` or `d`, or the
/// length of `s`.
pub open spec fn find_either(s: Seq<char>, c: char, d: char, i: int) -> int
    decreases s.len() - i,
{
    if i >= s.len() {
        s.len() as int
    } else if s[i] == c || s[i] == d {
        i
    } else {
        find_either(s, c, d, i + 1)
    }
}

/// Digits with at most one `.` among them, and at least one digit.
pub open spec fn is_mantissa(m: Seq<char>) -> bool {
    let d = find_either(m, '.', '.', 0);
    if d == m.len() {
        m.len() > 0 && all_digits(m)
    } else {
        all_digits(m.take(d)) && all_digits(m.skip(d + 1)) && m.len() > 1
    }
}

/// An exponent after its `e`: a sign, then at least one digit.
pub open spec fn is_exponent(e: Seq<char>) -> bool {
    unsigned(e).len() > 0 && all_digits(unsigned(e))
}

/// `s` is a literal that std's `f64` parser accepts: a sign, then `inf`,
/// `infinity` or `nan` in any case, or digits with at most one `.` and at
/// least one digit, followed by an optional exponent made of `e` or `E`, a
/// sign and at least one digit.
pub open spec fn is_float_literal(s: Seq<char>) -> bool {
    let t = unsigned(s);
    let k = find_either(t, 'e', 'E', 0);
    is_special_literal(t) || (is_mantissa(t.take(k)) && (k == t.len() || is_exponent(t.skip(k + 1))))
}

proof fn lemma_find_either_range(s: Seq<char>, c: char, d: char, i: int)
    requires
        0 <= i <= s.len(),
    ensures
        i <= find_either(s, c, d, i) <= s.len(),
        find_either(s, c, d, i) < s.len() ==> s[find_either(s, c, d, i)] == c || s[find_either(s, c, d, i)]
            == d,
        forall|k: int| i <= k < find_either(s, c, d, i) ==> #[trigger] s[k] != c && s[k] != d,
    decreases s.len() - i,
{
    if i < s.len() && s[i] != c && s[i] != d {
        lemma_find_either_range(s, c, d, i + 1);
    }
}

fn find_either_exec(v: &Vec<char>, lo: usize, hi: usize, c: char, d: char) -> (r: usize)
    requires
        lo <= hi <= v.len(),
    ensures
        r == lo + find_either(v@.subrange(lo as int, hi as int), c, d, 0),
{
    let ghost s = v@.subrange(lo as int, hi as int);
    let mut i = lo;
    while i < hi
        invariant
            lo <= i <= hi <= v.len(),
            s == v@.subrange(lo as int, hi as int),
            find_either(s, c, d, 0) == find_either(s, c, d, i - lo),
        decreases hi - i,
    {
        if v[i] == c || v[i] == d {
            return i;
        }
        i += 1;
    }
    i
}

fn all_digits_exec(v: &Vec<char>, lo: usize, hi: usize) -> (r: bool)
    requires
        lo <= hi <= v.len(),
    ensures
        r == all_digits(v@.subrange(lo as int, hi as int)),
{
    let mut i = lo;
    while i < hi
        invariant
            lo <= i <= hi <= v.len(),
            forall|k: int| lo <= k < i ==> is_digit_spec(v@[k]),
        decreases hi - i,
    {
        if !is_digit(v[i]) {
            assert(v@.subrange(lo as int, hi as int)[i - lo] == v@[i as int]);
            return false;
        }
        i += 1;
    }
    assert forall|k: int| 0 <= k < hi - lo implies is_digit_spec(#[trigger] v@.subrange(lo as int, hi as int)[k]) by {
        assert(v@.subrange(lo as int, hi as int)[k] == v@[lo + k]);
    }
    true
}

fn lower_char(c: char) -> (r: char)
    ensures
        r == ascii_lower(c),
{
    if 'A' <= c && c <= 'Z' {
        ((c as u32) + 32) as u8 as char
    } else {
        c
    }
}

fn is_special_exec(v: &Vec<char>, lo: usize) -> (r: bool)
    requires
        lo <= v.len(),
    ensures
        r == is_special_literal(v@.skip(lo as int)),
{
    let ghost t = v@.skip(lo as int);
    let ghost l = t.map_values(|c: char| ascii_lower(c));
    let n = v.len() - lo;
    if n != 3 && n != 8 {
        assert(l.len() == n);
        return false;
    }
    let mut low: Vec<char> = Vec::new();
    let mut i = lo;
    while i < v.len()
        invariant
            lo <= i <= v.len(),
            t == v@.skip(lo as int),
            l == t.map_values(|c: char| ascii_lower(c)),
            low@ == l.take(i - lo),
        decreases v.len() - i,
    {
        low.push(lower_char(v[i]));
        i += 1;
        assert(low@ =~= l.take(i - lo));
    }
    assert(l.take(n as int) =~= l);
    if n == 3 {
        let a = (low[0] == 'i' && low[1] == 'n' && low[2] == 'f') || (low[0] == 'n' && low[1] == 'a' && low[2]
            == 'n');
        proof {
            if a {
                if low[0] == 'i' {
                    assert(l =~= seq!['i', 'n', 'f']);
                } else {
                    assert(l =~= seq!['n', 'a', 'n']);
                }
            } else {
                if l == seq!['i', 'n', 'f'] {
                    assert(l[0] == 'i' && l[1] == 'n' && l[2] == 'f');
                }
                if l == seq!['n', 'a', 'n'] {
                    assert(l[0] == 'n' && l[1] == 'a' && l[2] == 'n');
                }
            }
        }
        a
    } else {
        let a = low[0] == 'i' && low[1] == 'n' && low[2] == 'f' && low[3] == 'i' && low[4] == 'n' && low[5] == 'i'
            && low[6] == 't' && low[7] == 'y';
        proof {
            if a {
                assert(l =~= seq!['i', 'n', 'f', 'i', 'n', 'i', 't', 'y']);
            } else if l == seq!['i', 'n', 'f', 'i', 'n', 'i', 't', 'y'] {
                assert(l[0] == 'i' && l[1] == 'n' && l[2] == 'f' && l[3] == 'i' && l[4] == 'n' && l[5] == 'i'
                    && l[6] == 't' && l[7] == 'y');
            }
        }
        a
    }
}

/// Whether std's `f64` parser accepts `s`; see `is_float_literal`.
pub fn check_float_literal(s: &Vec<char>) -> (r: bool)
    ensures
        r == is_float_literal(s@),
{
    let lo: usize = if s.len() > 0 && (s[0] == '+' || s[0] == '-') {
        1
    } else {
        0
    };
    let ghost t = unsigned(s@);
    assert(t =~= s@.skip(lo as int));
    if is_special_exec(s, lo) {
        return true;
    }
    let n = s.len();
    let k = find_either_exec(s, lo, n, 'e', 'E');
    assert(s@.subrange(lo as int, n as int) =~= t);
    let ghost kt = k - lo;
    proof {
        lemma_find_either_range(t, 'e', 'E', 0);
    }
    // The mantissa is s[lo..k].
    let d = find_either_exec(s, lo, k, '.', '.');
    let ghost m = t.take(kt);
    assert(s@.subrange(lo as int, k as int) =~= m);
    proof {
        lemma_find_either_range(m, '.', '.', 0);
    }
    let mantissa_ok = if d == k {
        k > lo && all_digits_exec(s, lo, k)
    } else {
        let a = all_digits_exec(s, lo, d);
        let b = all_digits_exec(s, d + 1, k);
        assert(s@.subrange(lo as int, d as int) =~= m.take(d - lo));
        assert(s@.subrange(d + 1, k as int) =~= m.skip(d - lo + 1));
        a && b && k - lo > 1
    };
    assert(mantissa_ok == is_mantissa(m));
    if !mantissa_ok {
        return false;
    }
    if k == n {
        return true;
    }
    // The exponent is s[k + 1..].
    let e_lo = k + 1;
    let signed = e_lo < n && (s[e_lo] == '+' || s[e_lo] == '-');
    let digits_lo = if signed {
        e_lo + 1
    } else {
        e_lo
    };
    let ghost e = t.skip(kt + 1);
    assert(e =~= s@.subrange(e_lo as int, n as int));
    assert(unsigned(e) =~= s@.subrange(digits_lo as int, n as int));
    digits_lo < n && all_digits_exec(s, digits_lo, n)
}

} // verus!
