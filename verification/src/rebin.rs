//! Rebinning: the factors a histogram can be rebinned by, and the counts of
//! the rebinned bins.
use vstd::prelude::*;

verus! {

/// 2 to the power `k`.
pub open spec fn pow_two(k: nat) -> nat
    decreases k,
{
    if k == 0 {
        1
    } else {
        2 * pow_two((k - 1) as nat)
    }
}

/// How many times 2 divides `n` (0 for `n` = 0).
pub open spec fn twos(n: nat) -> nat
    decreases n,
{
    if n > 0 && n % 2 == 0 {
        1 + twos(n / 2)
    } else {
        0
    }
}

/// The rebin factors for `n` bins: the powers of two that divide `n`, from 1
/// up, leaving out `n` itself.
pub open spec fn rebin_factors_spec(n: nat) -> Seq<usize> {
    let k = twos(n);
    let m = if pow_two(k) == n {
        k
    } else {
        k + 1
    };
    Seq::new(m, |i: int| pow_two(i as nat) as usize)
}

proof fn lemma_pow_two_pos(k: nat)
    ensures
        pow_two(k) >= 1,
    decreases k,
{
    if k > 0 {
        lemma_pow_two_pos((k - 1) as nat);
    }
}

proof fn lemma_halving(n: int, f: int, q: int)
    by (nonlinear_arith)
    requires
        f > 0,
        q >= 0,
        n == f * q,
    ensures
        (n % (f * 2) == 0) == (q % 2 == 0),
        q % 2 == 0 ==> n / (f * 2) == q / 2,
        q % 2 == 0 ==> n == (f * 2) * (q / 2),
{
    if q % 2 == 0 {
        let h = q / 2;
        assert(n == (f * 2) * h);
        vstd::arithmetic::div_mod::lemma_mod_multiples_basic(h, f * 2);
        vstd::arithmetic::div_mod::lemma_div_multiples_vanish(h, f * 2);
    } else {
        let h = q / 2;
        assert(q == 2 * h + 1);
        assert(n == (f * 2) * h + f);
        vstd::arithmetic::div_mod::lemma_mod_multiples_vanish(h, f, f * 2);
        vstd::arithmetic::div_mod::lemma_small_mod(f as nat, (f * 2) as nat);
    }
}

proof fn lemma_twos_of_power(j: nat)
    ensures
        twos(pow_two(j)) == j,
    decreases j,
{
    if j > 0 {
        lemma_twos_of_power((j - 1) as nat);
        lemma_pow_two_pos((j - 1) as nat);
        let p = pow_two((j - 1) as nat);
        assert(pow_two(j) == 2 * p);
        assert((2 * p) % 2 == 0);
        assert((2 * p) / 2 == p);
    } else {
        assert(pow_two(0) == 1);
        assert(1nat % 2 == 1);
    }
}

/// The rebin factors for a histogram with `bin_count` bins: the powers of two
/// that divide the count, starting at 1, without the count itself.
pub fn possible_rebin_factors(bin_count: usize) -> (r: Vec<usize>)
    requires
        bin_count > 0,
        bin_count <= usize::MAX / 2 || pow_two(twos(bin_count as nat)) != bin_count,
    ensures
        r@ == rebin_factors_spec(bin_count as nat),
{
    let n = bin_count;
    let mut factors: Vec<usize> = Vec::new();
    factors.push(1);
    let mut factor: usize = 1;
    let ghost mut j: nat = 0;
    let ghost mut q: nat = n as nat;
    assert(n == 1 * q) by (nonlinear_arith)
        requires
            q == n,
    ;
    loop
        invariant
            factor as nat == pow_two(j),
            factor >= 1,
            n as nat == factor * q,
            q >= 1,
            twos(n as nat) == j + twos(q),
            bin_count == n,
            n > 0,
            n <= usize::MAX / 2 || pow_two(twos(n as nat)) != n,
            factors@ == Seq::new(j + 1, |i: int| pow_two(i as nat) as usize),
        ensures
            q % 2 != 0,
        decreases q,
    {
        assert(factor <= usize::MAX / 2) by {
            if factor > usize::MAX / 2 {
                assert(factor <= n) by (nonlinear_arith)
                    requires
                        n as nat == factor * q,
                        q >= 1,
                ;
                if q > 1 {
                    assert(n >= factor * 2) by (nonlinear_arith)
                        requires
                            n as nat == factor * q,
                            q >= 2,
                    ;
                } else {
                    assert(n == factor) by (nonlinear_arith)
                        requires
                            n as nat == factor * q,
                            q == 1,
                    ;
                    lemma_twos_of_power(j);
                    assert(twos(q) == 0);
                }
            }
        }
        proof {
            lemma_halving(n as int, factor as int, q as int);
        }
        if n % (factor * 2) != 0 {
            break;
        }
        factor = factor * 2;
        proof {
            assert(twos(q) == 1 + twos(q / 2));
            q = q / 2;
            j = j + 1;
            assert(pow_two(j) == 2 * pow_two((j - 1) as nat));
        }
        factors.push(factor);
        assert(factors@ =~= Seq::new(j + 1, |i: int| pow_two(i as nat) as usize));
    }
    proof {
        assert(q % 2 != 0);
        assert(twos(q) == 0);
    }
    if factors[factors.len() - 1] == n {
        factors.pop();
        assert(factors@ =~= Seq::new(j, |i: int| pow_two(i as nat) as usize));
    }
    factors
}

/// The sum of the counts in `s`.
pub open spec fn count_sum(s: Seq<u64>) -> nat
    decreases s.len(),
{
    if s.len() == 0 {
        0
    } else {
        count_sum(s.drop_last()) + s.last() as nat
    }
}

/// The bin count that the rebin factors of one axis of a two-dimensional
/// histogram are taken from: the count it was made with while a backup of the
/// original bins is held, else its present count.
pub open spec fn axis_rebin_source(bins: usize, backup_bins: Option<usize>) -> usize {
    match backup_bins {
        Some(b) => b,
        None => bins,
    }
}

/// The rebin factors of one axis of a two-dimensional histogram with `bins`
/// bins on that axis and, where it has been rebinned, `backup_bins` bins in
/// its original binning.
pub fn possible_axis_rebin_factors(bins: usize, backup_bins: Option<usize>) -> (r: Vec<usize>)
    requires
        axis_rebin_source(bins, backup_bins) > 0,
        axis_rebin_source(bins, backup_bins) <= usize::MAX / 2 || pow_two(
            twos(axis_rebin_source(bins, backup_bins) as nat),
        ) != axis_rebin_source(bins, backup_bins),
    ensures
        r@ == rebin_factors_spec(axis_rebin_source(bins, backup_bins) as nat),
{
    match backup_bins {
        Some(b) => possible_rebin_factors(b),
        None => possible_rebin_factors(bins),
    }
}

/// The counts of `original` merged in groups of `factor` consecutive bins.
pub open spec fn rebinned_spec(original: Seq<u64>, factor: nat) -> Seq<nat> {
    Seq::new(
        original.len() / factor,
        |j: int| count_sum(original.subrange(j * factor, (j + 1) * factor)),
    )
}

proof fn lemma_sum_append(a: Seq<u64>, b: Seq<u64>)
    ensures
        count_sum(a + b) == count_sum(a) + count_sum(b),
    decreases b.len(),
{
    if b.len() == 0 {
        assert(a + b =~= a);
    } else {
        lemma_sum_append(a, b.drop_last());
        assert((a + b).drop_last() =~= a + b.drop_last());
    }
}

proof fn lemma_sum_prefix_le(s: Seq<u64>, k: nat)
    requires
        k <= s.len(),
    ensures
        count_sum(s.take(k as int)) <= count_sum(s),
    decreases s.len() - k,
{
    if k < s.len() {
        lemma_sum_prefix_le(s, k + 1);
        assert(s.take((k + 1) as int).drop_last() =~= s.take(k as int));
    } else {
        assert(s.take(k as int) =~= s);
    }
}

proof fn lemma_group_index(j: int, f: int, k: int, n: int)
    by (nonlinear_arith)
    requires
        0 <= j,
        0 <= k < f,
        n % f == 0,
        j < n / f,
        f > 0,
        n >= 0,
    ensures
        j * f + k < n,
        (j + 1) * f == j * f + f,
        (j + 1) * f <= n,
{
    assert(n == f * (n / f));
    assert(j + 1 <= n / f);
    assert((j + 1) * f <= (n / f) * f);
}

/// The counts of `original_bins` merged in groups of `rebin_factor` consecutive
/// bins: bin `j` of the result holds the sum of bins `j * factor` up to
/// (not including) `(j + 1) * factor`.
pub fn rebin_counts(original_bins: &Vec<u64>, rebin_factor: usize) -> (r: Vec<u64>)
    requires
        rebin_factor > 0,
        original_bins.len() % rebin_factor == 0,
        forall|j: int|
            0 <= j < (original_bins.len() / rebin_factor) as int ==> #[trigger] count_sum(
                original_bins@.subrange(j * rebin_factor, (j + 1) * rebin_factor),
            ) <= u64::MAX,
    ensures
        r@.map_values(|c: u64| c as nat) == rebinned_spec(original_bins@, rebin_factor as nat),
{
    let n = original_bins.len();
    let f = rebin_factor;
    let groups = n / f;
    let ghost o = original_bins@;
    let mut out: Vec<u64> = Vec::new();
    let mut j: usize = 0;
    while j < groups
        invariant
            j <= groups == n / f,
            n == original_bins.len(),
            f == rebin_factor,
            f > 0,
            n % f == 0,
            o == original_bins@,
            forall|g: int| 0 <= g < (n / f) as int ==> #[trigger] count_sum(
                o.subrange(g * f, (g + 1) * f),
            ) <= u64::MAX,
            out@.map_values(|c: u64| c as nat) == rebinned_spec(o, f as nat).take(j as int),
        decreases groups - j,
    {
        proof {
            lemma_group_index(j as int, f as int, 0, n as int);
        }
        let start = j * f;
        let ghost group = o.subrange(start as int, start + f);
        assert(group =~= o.subrange(j * f, (j + 1) * f));
        assert(count_sum(group) <= u64::MAX);
        let mut total: u64 = 0;
        let mut k: usize = 0;
        assert(group.take(0) =~= Seq::<u64>::empty());
        while k < f
            invariant
                k <= f,
                f == rebin_factor,
                f > 0,
                j < n / f,
                n % f == 0,
                n == original_bins.len(),
                start == j * f,
                o == original_bins@,
                group == o.subrange(start as int, start + f),
                count_sum(group) <= u64::MAX,
                total == count_sum(group.take(k as int)),
            decreases f - k,
        {
            proof {
                lemma_group_index(j as int, f as int, k as int, n as int);
                lemma_sum_prefix_le(group, (k + 1) as nat);
                assert(group.take(k + 1).drop_last() =~= group.take(k as int));
                assert(group[k as int] == o[start + k]);
            }
            total = total + original_bins[start + k];
            k += 1;
        }
        assert(group.take(f as int) =~= group);
        let ghost before = out@.map_values(|c: u64| c as nat);
        out.push(total);
        assert(out@.map_values(|c: u64| c as nat) =~= before.push(count_sum(group)));
        assert(out@.map_values(|c: u64| c as nat) =~= rebinned_spec(o, f as nat).take(j + 1));
        j += 1;
    }
    assert(rebinned_spec(o, f as nat).take(groups as int) =~= rebinned_spec(o, f as nat));
    out
}

/// The sum of a sequence of counts.
pub open spec fn nat_sum(s: Seq<nat>) -> nat
    decreases s.len(),
{
    if s.len() == 0 {
        0
    } else {
        nat_sum(s.drop_last()) + s.last()
    }
}

/// Rebinning keeps the total count: the rebinned counts add up to the same
/// sum as the original ones.
pub proof fn lemma_rebin_preserves_total(original: Seq<u64>, factor: nat)
    requires
        factor > 0,
        original.len() % factor == 0,
    ensures
        nat_sum(rebinned_spec(original, factor)) == count_sum(original),
{
    let r = rebinned_spec(original, factor);
    let m = original.len() / factor;
    assert(original.len() == m * factor) by (nonlinear_arith)
        requires
            original.len() % factor == 0,
            m == original.len() / factor,
            factor > 0,
    ;
    lemma_rebin_prefix(original, factor, m);
    assert(r.take(m as int) =~= r);
    assert(original.subrange(0, (m * factor) as int) =~= original);
}

proof fn lemma_rebin_prefix(original: Seq<u64>, factor: nat, m: nat)
    requires
        factor > 0,
        m * factor <= original.len(),
        m <= original.len() / factor,
    ensures
        nat_sum(rebinned_spec(original, factor).take(m as int)) == count_sum(
            original.subrange(0, (m * factor) as int),
        ),
    decreases m,
{
    let r = rebinned_spec(original, factor);
    if m == 0 {
        assert(m * factor == 0) by (nonlinear_arith)
            requires
                m == 0,
        ;
        assert(r.take(0) =~= Seq::<nat>::empty());
        assert(original.subrange(0, 0) =~= Seq::<u64>::empty());
    } else {
        let p = (m - 1) as nat;
        assert(p * factor <= original.len()) by (nonlinear_arith)
            requires
                m * factor <= original.len(),
                p == m - 1,
                factor > 0,
        ;
        assert(m * factor == p * factor + factor) by (nonlinear_arith)
            requires
                p == m - 1,
        ;
        assert((p + 1) * factor == m * factor) by (nonlinear_arith)
            requires
                p == m - 1,
        ;
        assert(p < original.len() / factor);
        lemma_rebin_prefix(original, factor, p);
        assert(r.take(m as int).drop_last() =~= r.take(p as int));
        assert(r.take(m as int).last() == r[p as int]);
        assert(r[p as int] == count_sum(original.subrange((p * factor) as int, ((p + 1) * factor) as int)));
        assert(original.subrange(0, (m * factor) as int) =~= original.subrange(0, (p * factor) as int)
            + original.subrange((p * factor) as int, (m * factor) as int));
        lemma_sum_append(
            original.subrange(0, (p * factor) as int),
            original.subrange((p * factor) as int, (m * factor) as int),
        );
    }
}

} // verus!
