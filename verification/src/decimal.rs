//! Decimal numerals: writing a count in decimal and reading one back.
use vstd::prelude::*;

verus! {

/// The ASCII digit for `d` (0..9).
pub open spec fn digit_char(d: nat) -> char {
    if d == 0 {
        '0'
    } else if d == 1 {
        '1'
    } else if d == 2 {
        '2'
    } else if d == 3 {
        '3'
    } else if d == 4 {
        '4'
    } else if d == 5 {
        '5'
    } else if d == 6 {
        '6'
    } else if d == 7 {
        '7'
    } else if d == 8 {
        '8'
    } else {
        '9'
    }
}

/// The value of the ASCII digit `c`.
pub open spec fn digit_value(c: char) -> nat {
    ((c as u32) - ('0' as u32)) as nat
}

/// `n` written in decimal, without leading zeros.
pub open spec fn decimal(n: nat) -> Seq<char>
    decreases n,
{
    if n < 10 {
        seq![digit_char(n)]
    } else {
        decimal(n / 10).push(digit_char(n % 10))
    }
}

/// The number that the ASCII digits `s` write.
pub open spec fn decimal_value(s: Seq<char>) -> nat
    decreases s.len(),
{
    if s.len() == 0 {
        0
    } else {
        decimal_value(s.drop_last()) * 10 + digit_value(s.last())
    }
}

fn digit_of(d: usize) -> (c: char)
    requires
        d < 10,
    ensures
        c == digit_char(d as nat),
{
    if d == 0 {
        '0'
    } else if d == 1 {
        '1'
    } else if d == 2 {
        '2'
    } else if d == 3 {
        '3'
    } else if d == 4 {
        '4'
    } else if d == 5 {
        '5'
    } else if d == 6 {
        '6'
    } else if d == 7 {
        '7'
    } else if d == 8 {
        '8'
    } else {
        '9'
    }
}

/// A numeral has at least one digit, and at least two from ten on.
pub proof fn lemma_decimal_len(n: nat)
    ensures
        decimal(n).len() >= 1,
        n >= 10 ==> decimal(n).len() >= 2,
    decreases n,
{
    if n >= 10 {
        lemma_decimal_len(n / 10);
    }
}

proof fn lemma_digit_char_injective(a: nat, b: nat)
    requires
        a < 10,
        b < 10,
        digit_char(a) == digit_char(b),
    ensures
        a == b,
{
}

/// Different numbers have different decimal numerals.
pub proof fn lemma_decimal_injective(a: nat, b: nat)
    requires
        decimal(a) == decimal(b),
    ensures
        a == b,
    decreases a,
{
    lemma_decimal_len(a);
    lemma_decimal_len(b);
    if a < 10 && b < 10 {
        assert(decimal(a)[0] == digit_char(a));
        assert(decimal(b)[0] == digit_char(b));
        lemma_digit_char_injective(a, b);
    } else if a >= 10 && b >= 10 {
        assert(decimal(a).last() == digit_char(a % 10));
        assert(decimal(b).last() == digit_char(b % 10));
        lemma_digit_char_injective(a % 10, b % 10);
        assert(decimal(a).drop_last() =~= decimal(a / 10));
        assert(decimal(b).drop_last() =~= decimal(b / 10));
        lemma_decimal_injective(a / 10, b / 10);
    } else {
        assert(decimal(a).len() != decimal(b).len());
    }
}

/// `n` written in decimal.
pub fn to_decimal(n: usize) -> (r: Vec<char>)
    ensures
        r@ == decimal(n as nat),
    decreases n,
{
    if n < 10 {
        let mut r: Vec<char> = Vec::new();
        r.push(digit_of(n));
        assert(r@ =~= seq![digit_char(n as nat)]);
        r
    } else {
        let mut r = to_decimal(n / 10);
        r.push(digit_of(n % 10));
        r
    }
}

/// `n` written in decimal.
pub fn to_decimal_u64(n: u64) -> (r: Vec<char>)
    ensures
        r@ == decimal(n as nat),
    decreases n,
{
    if n < 10 {
        let mut r: Vec<char> = Vec::new();
        r.push(digit_of(n as usize));
        assert(r@ =~= seq![digit_char(n as nat)]);
        r
    } else {
        let mut r = to_decimal_u64(n / 10);
        r.push(digit_of((n % 10) as usize));
        r
    }
}

/// The value of the ASCII digits `v[lo..hi]`.
pub fn parse_decimal(v: &Vec<char>, lo: usize, hi: usize) -> (r: usize)
    requires
        lo <= hi <= v.len(),
        forall|k: int| lo <= k < hi ==> '0' <= #[trigger] v@[k] <= '9',
        decimal_value(v@.subrange(lo as int, hi as int)) <= usize::MAX,
    ensures
        r == decimal_value(v@.subrange(lo as int, hi as int)),
{
    let mut value: usize = 0;
    let mut i = lo;
    assert(v@.subrange(lo as int, lo as int) =~= Seq::<char>::empty());
    while i < hi
        invariant
            lo <= i <= hi <= v.len(),
            forall|k: int| lo <= k < hi ==> '0' <= #[trigger] v@[k] <= '9',
            decimal_value(v@.subrange(lo as int, hi as int)) <= usize::MAX,
            value == decimal_value(v@.subrange(lo as int, i as int)),
        decreases hi - i,
    {
        proof {
            lemma_value_prefix_bound(v@.subrange(lo as int, hi as int), (i + 1 - lo) as nat);
            assert(v@.subrange(lo as int, hi as int).take(i + 1 - lo) =~= v@.subrange(lo as int, i + 1));
            assert(v@.subrange(lo as int, i + 1).drop_last() =~= v@.subrange(lo as int, i as int));
        }
        let d = (v[i] as u32 - '0' as u32) as usize;
        value = value * 10 + d;
        i += 1;
    }
    value
}

proof fn lemma_value_prefix_bound(s: Seq<char>, k: nat)
    requires
        k <= s.len(),
    ensures
        decimal_value(s.take(k as int)) <= decimal_value(s),
    decreases s.len(),
{
    if k < s.len() {
        lemma_value_prefix_bound(s.drop_last(), k);
        assert(s.drop_last().take(k as int) =~= s.take(k as int));
    } else {
        assert(s.take(k as int) =~= s);
    }
}

/// Whether the number that the ASCII digits `v` write fits in a `usize`.
pub fn decimal_fits_usize(v: &Vec<char>) -> (r: bool)
    requires
        forall|k: int| 0 <= k < v.len() ==> '0' <= #[trigger] v@[k] <= '9',
    ensures
        r == (decimal_value(v@) <= usize::MAX),
{
    let mut value: usize = 0;
    let mut i: usize = 0;
    assert(v@.take(0) =~= Seq::<char>::empty());
    while i < v.len()
        invariant
            i <= v.len(),
            forall|k: int| 0 <= k < v.len() ==> '0' <= #[trigger] v@[k] <= '9',
            value == decimal_value(v@.take(i as int)),
        decreases v.len() - i,
    {
        assert(v@.take(i + 1).drop_last() =~= v@.take(i as int));
        let d = (v[i] as u32 - '0' as u32) as usize;
        assert(d == digit_value(v@[i as int]));
        proof {
            lemma_value_prefix_bound(v@, (i + 1) as nat);
        }
        match value.checked_mul(10) {
            Some(m) => match m.checked_add(d) {
                Some(n) => {
                    value = n;
                },
                None => {
                    return false;
                },
            },
            None => {
                assert(decimal_value(v@.take(i + 1)) >= value * 10);
                return false;
            },
        }
        i += 1;
    }
    assert(v@.take(v.len() as int) =~= v@);
    true
}

} // verus!
