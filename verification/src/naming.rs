//! Names and file names: the next free name for a new cut, the default name of
//! a 2D cut, and the sanitizing of histogram and cut names for file names.
use vstd::prelude::*;
use vstd::set_lib::{lemma_int_range, lemma_len_subset, lemma_map_size, set_int_range};
use crate::decimal::{decimal, lemma_decimal_injective, to_decimal};
use crate::identifiers::no_double_underscore;
use crate::names::{contains_string, names_view};
use crate::text::{
    chars_of, is_alnum, is_alnum_spec, is_white_space, is_white_space_spec, lemma_skip_back_bounds,
    lemma_skip_from_bounds, skip_back, skip_from, squeeze, squeeze_chars, string_of, strip, trim_underscores,
    trim_underscores_spec, trim_spec, trimmed_chars,
};

verus! {

/// `base` followed by a space and `index` in decimal.
pub open spec fn indexed_name(base: Seq<char>, index: nat) -> Seq<char> {
    base + seq![' '] + decimal(index)
}

proof fn lemma_indexed_name_injective(base: Seq<char>, a: nat, b: nat)
    requires
        indexed_name(base, a) == indexed_name(base, b),
    ensures
        a == b,
{
    let l = base.len() + 1;
    assert(indexed_name(base, a).subrange(l as int, indexed_name(base, a).len() as int) =~= decimal(a));
    assert(indexed_name(base, b).subrange(l as int, indexed_name(base, b).len() as int) =~= decimal(b));
    lemma_decimal_injective(a, b);
}

/// Holding `base 1` up to `base m` takes at least `m` names.
proof fn lemma_names_run_out(base: Seq<char>, existing: Seq<Seq<char>>, m: nat)
    requires
        forall|j: nat| 1 <= j <= m ==> existing.contains(#[trigger] indexed_name(base, j)),
    ensures
        m <= existing.len(),
{
    let x = set_int_range(1, m as int + 1);
    lemma_int_range(1, m as int + 1);
    let f = |j: int| indexed_name(base, j as nat);
    assert forall|a: int, b: int| x.contains(a) && x.contains(b) && #[trigger] f(a) == #[trigger] f(b) implies a == b by {
        lemma_indexed_name_injective(base, a as nat, b as nat);
    }
    assert(vstd::relations::injective_on(f, x));
    let y = x.map(f);
    lemma_map_size(x, y, f);
    let e = existing.to_set();
    assert(y.subset_of(e)) by {
        assert forall|n: Seq<char>| y.contains(n) implies e.contains(n) by {
            let j = choose|j: int| x.contains(j) && f(j) == n;
            assert(existing.contains(indexed_name(base, j as nat)));
        }
    }
    existing.lemma_cardinality_of_set();
    lemma_len_subset(y, e);
}

/// The name for a new cut: `base` followed by the smallest index from 1 up for
/// which `existing` holds no such name.
pub fn next_cut_name(base_name: &str, existing_names: &Vec<String>) -> (r: String)
    requires
        existing_names.len() < usize::MAX,
    ensures
        exists|k: nat|
            #![trigger indexed_name(base_name@, k)]
            k >= 1 && r@ == indexed_name(base_name@, k) && !names_view(existing_names@).contains(
                indexed_name(base_name@, k),
            ) && forall|j: nat|
                1 <= j < k ==> names_view(existing_names@).contains(#[trigger] indexed_name(base_name@, j)),
{
    let ghost ev = names_view(existing_names@);
    let base = chars_of(base_name);
    let mut index: usize = 1;
    loop
        invariant
            1 <= index <= existing_names.len() + 1,
            ev == names_view(existing_names@),
            base@ == base_name@,
            existing_names.len() < usize::MAX,
            forall|j: nat| 1 <= j < index ==> ev.contains(#[trigger] indexed_name(base_name@, j)),
        decreases existing_names.len() + 1 - index,
    {
        let mut name = base.clone();
        name.push(' ');
        let digits = to_decimal(index);
        let mut m: usize = 0;
        let ghost start = name@;
        while m < digits.len()
            invariant
                m <= digits.len(),
                name@ == start + digits@.take(m as int),
            decreases digits.len() - m,
        {
            name.push(digits[m]);
            m += 1;
            assert(name@ =~= start + digits@.take(m as int));
        }
        assert(digits@.take(digits.len() as int) =~= digits@);
        assert(name@ =~= indexed_name(base_name@, index as nat));
        let candidate = string_of(&name);
        if !contains_string(existing_names, &candidate) {
            return candidate;
        }
        proof {
            if index == existing_names.len() + 1 {
                lemma_names_run_out(base_name@, ev, index as nat);
            }
        }
        index += 1;
    }
}

/// The base name of the 1D cuts of a histogram: its name followed by ` 1D Cut`.
pub fn cut_1d_base_name(histogram_name: &str) -> (r: String)
    ensures
        r@ == histogram_name@ + " 1D Cut"@,
{
    let mut v = chars_of(histogram_name);
    let suffix = chars_of(" 1D Cut");
    let ghost start = v@;
    let mut i: usize = 0;
    while i < suffix.len()
        invariant
            i <= suffix.len(),
            v@ == start + suffix@.take(i as int),
        decreases suffix.len() - i,
    {
        v.push(suffix[i]);
        i += 1;
        assert(v@ =~= start + suffix@.take(i as int));
    }
    assert(suffix@.take(suffix.len() as int) =~= suffix@);
    string_of(&v)
}

/// `c` may not stand in a file name on some platform: a path separator, a
/// drive colon, a wildcard, a quote, an angle bracket or a pipe.
pub open spec fn is_path_special(c: char) -> bool {
    c == '/' || c == '\\' || c == ':' || c == '*' || c == '?' || c == '"' || c == '<' || c == '>'
        || c == '|'
}

/// The character that stands for `c` in a histogram's file name.
pub open spec fn histogram_file_char(c: char) -> char {
    if is_path_special(c) || is_white_space_spec(c) {
        '_'
    } else {
        c
    }
}

/// The character that stands for `c` in a cut's file name.
pub open spec fn cut_file_char(c: char) -> char {
    if is_alnum_spec(c) || c == '-' {
        c
    } else {
        '_'
    }
}

/// Runs of underscores squeezed to one and leading and trailing ones dropped.
pub open spec fn tidy_underscores(s: Seq<char>) -> Seq<char> {
    trim_underscores_spec(squeeze(s, false))
}

/// The file-name component made from a histogram's name, `histogram` when
/// nothing is left of it.
pub open spec fn histogram_file_name_spec(name: Seq<char>) -> Seq<char> {
    let t = tidy_underscores(trim_spec(name).map_values(|c: char| histogram_file_char(c)));
    if t.len() == 0 {
        "histogram"@
    } else {
        t
    }
}

/// The file name made from `base`, `fallback` when nothing is left of it.
pub open spec fn cut_file_name_spec(base: Seq<char>, fallback: Seq<char>) -> Seq<char> {
    let t = tidy_underscores(base.map_values(|c: char| cut_file_char(c)));
    if t.len() == 0 {
        fallback
    } else {
        t
    }
}

/// The default name of a 2D cut on `x_column` and `y_column`.
pub open spec fn default_2d_cut_name_spec(x_column: Seq<char>, y_column: Seq<char>) -> Seq<char> {
    y_column + " v "@ + x_column + " Cut"@
}

fn map_file_chars(v: &Vec<char>, for_cut: bool) -> (r: Vec<char>)
    ensures
        for_cut ==> r@ == v@.map_values(|c: char| cut_file_char(c)),
        !for_cut ==> r@ == v@.map_values(|c: char| histogram_file_char(c)),
{
    let mut r: Vec<char> = Vec::new();
    let mut i: usize = 0;
    while i < v.len()
        invariant
            i <= v.len(),
            for_cut ==> r@ == v@.take(i as int).map_values(|c: char| cut_file_char(c)),
            !for_cut ==> r@ == v@.take(i as int).map_values(|c: char| histogram_file_char(c)),
        decreases v.len() - i,
    {
        let c = v[i];
        let m = if for_cut {
            if is_alnum(c) || c == '-' {
                c
            } else {
                '_'
            }
        } else {
            if c == '/' || c == '\\' || c == ':' || c == '*' || c == '?' || c == '"' || c == '<'
                || c == '>' || c == '|' || is_white_space(c) {
                '_'
            } else {
                c
            }
        };
        r.push(m);
        i += 1;
        proof {
            if for_cut {
                assert(r@ =~= v@.take(i as int).map_values(|c: char| cut_file_char(c)));
            } else {
                assert(r@ =~= v@.take(i as int).map_values(|c: char| histogram_file_char(c)));
            }
        }
    }
    assert(v@.take(v.len() as int) =~= v@);
    r
}

fn tidy_or(v: &Vec<char>, fallback: &str) -> (r: String)
    ensures
        tidy_underscores(v@).len() == 0 ==> r@ == fallback@,
        tidy_underscores(v@).len() > 0 ==> r@ == tidy_underscores(v@),
{
    let squeezed = squeeze_chars(v);
    let t = trim_underscores(&squeezed);
    if t.len() == 0 {
        let f = chars_of(fallback);
        string_of(&f)
    } else {
        string_of(&t)
    }
}

/// The file-name component made from a histogram's name: the trimmed name with
/// path characters and white space turned into underscores, runs of
/// underscores squeezed and leading and trailing ones dropped; `histogram`
/// when nothing is left.
pub fn sanitize_histogram_file_name_component(name: &str) -> (r: String)
    ensures
        r@ == histogram_file_name_spec(name@),
{
    let trimmed = trimmed_chars(name);
    let mapped = map_file_chars(&trimmed, false);
    tidy_or(&mapped, "histogram")
}

/// The file name of a 1D cut: its trimmed name (`1d_cut` when blank) with every
/// character but ASCII letters, digits and `-` turned into an underscore, runs
/// squeezed and leading and trailing underscores dropped; `1d_cut` when
/// nothing is left.
pub fn sanitized_cut_1d_file_name(name: &str) -> (r: String)
    ensures
        r@ == cut_file_name_spec(
            if trim_spec(name@).len() == 0 { "1d_cut"@ } else { trim_spec(name@) },
            "1d_cut"@,
        ),
{
    let trimmed = trimmed_chars(name);
    let base = if trimmed.len() == 0 {
        chars_of("1d_cut")
    } else {
        trimmed
    };
    let mapped = map_file_chars(&base, true);
    tidy_or(&mapped, "1d_cut")
}

/// The default name of a 2D cut: `<y> v <x> Cut`.
pub fn default_2d_cut_name(x_column: &str, y_column: &str) -> (r: String)
    ensures
        r@ == default_2d_cut_name_spec(x_column@, y_column@),
{
    let mut v = chars_of(y_column);
    append_str(&mut v, " v ");
    append_str(&mut v, x_column);
    append_str(&mut v, " Cut");
    string_of(&v)
}

/// The file name of a 2D cut: as for a 1D cut, from the trimmed polygon name,
/// or from the default name when that is blank; `cut` when nothing is left.
pub fn sanitized_cut_2d_file_name(polygon_name: &str, x_column: &str, y_column: &str) -> (r: String)
    ensures
        r@ == cut_file_name_spec(
            if trim_spec(polygon_name@).len() == 0 {
                default_2d_cut_name_spec(x_column@, y_column@)
            } else {
                trim_spec(polygon_name@)
            },
            "cut"@,
        ),
{
    let trimmed = trimmed_chars(polygon_name);
    let base = if trimmed.len() == 0 {
        let d = default_2d_cut_name(x_column, y_column);
        chars_of(d.as_str())
    } else {
        trimmed
    };
    let mapped = map_file_chars(&base, true);
    tidy_or(&mapped, "cut")
}

fn append_str(v: &mut Vec<char>, s: &str)
    ensures
        final(v)@ == old(v)@ + s@,
{
    let suffix = chars_of(s);
    let ghost start = v@;
    let mut i: usize = 0;
    while i < suffix.len()
        invariant
            i <= suffix.len(),
            suffix@ == s@,
            v@ == start + suffix@.take(i as int),
        decreases suffix.len() - i,
    {
        v.push(suffix[i]);
        i += 1;
        assert(v@ =~= start + suffix@.take(i as int));
    }
    assert(suffix@.take(suffix.len() as int) =~= suffix@);
}

/// Every character squeezing leaves was in `s` or is an underscore.
proof fn lemma_squeeze_keeps(s: Seq<char>, prev: bool, ok: spec_fn(char) -> bool)
    requires
        ok('_'),
        forall|i: int| 0 <= i < s.len() ==> #[trigger] ok(s[i]),
    ensures
        forall|i: int| 0 <= i < squeeze(s, prev).len() ==> #[trigger] ok(squeeze(s, prev)[i]),
    decreases s.len(),
{
    if s.len() > 0 {
        let rest = s.drop_first();
        assert forall|i: int| 0 <= i < rest.len() implies #[trigger] ok(rest[i]) by {
            assert(rest[i] == s[i + 1]);
        }
        lemma_squeeze_keeps(rest, true, ok);
        lemma_squeeze_keeps(rest, false, ok);
        let r = squeeze(s, prev);
        assert forall|i: int| 0 <= i < r.len() implies #[trigger] ok(r[i]) by {
            if s[0] == '_' {
                if prev {
                    assert(r == squeeze(rest, true));
                } else {
                    assert(r == seq!['_'] + squeeze(rest, true));
                    if i > 0 {
                        assert(r[i] == squeeze(rest, true)[i - 1]);
                    }
                }
            } else {
                assert(r == seq![s[0]] + squeeze(rest, false));
                if i > 0 {
                    assert(r[i] == squeeze(rest, false)[i - 1]);
                }
            }
        }
    }
}

/// What trimming underscores leaves neither starts nor ends with one, and
/// every character of it was in `s`.
proof fn lemma_trim_underscores_shape(s: Seq<char>, ok: spec_fn(char) -> bool)
    requires
        forall|i: int| 0 <= i < s.len() ==> #[trigger] ok(s[i]),
    ensures
        forall|i: int| 0 <= i < trim_underscores_spec(s).len() ==> #[trigger] ok(trim_underscores_spec(s)[i]),
        trim_underscores_spec(s).len() > 0 ==> trim_underscores_spec(s)[0] != '_'
            && trim_underscores_spec(s).last() != '_',
{
    let p = |c: char| c == '_';
    lemma_skip_from_bounds(s, p, 0);
    let lo = skip_from(s, p, 0);
    lemma_skip_back_bounds(s, p, lo, s.len() as int);
    let hi = skip_back(s, p, lo, s.len() as int);
    let t = s.subrange(lo, hi);
    assert(t == trim_underscores_spec(s));
    assert forall|i: int| 0 <= i < t.len() implies #[trigger] ok(t[i]) by {
        assert(t[i] == s[lo + i]);
    }
    if t.len() > 0 {
        assert(!p(s[lo]));
        assert(!p(s[hi - 1]));
    }
}

/// A histogram's file-name component is never empty, holds no path character
/// and no white space, and neither starts nor ends with an underscore.
pub proof fn lemma_histogram_file_name_is_safe(name: Seq<char>)
    ensures
        histogram_file_name_spec(name).len() > 0,
        forall|i: int|
            0 <= i < histogram_file_name_spec(name).len() ==> !is_path_special(
                #[trigger] histogram_file_name_spec(name)[i],
            ) && !is_white_space_spec(histogram_file_name_spec(name)[i]),
        histogram_file_name_spec(name)[0] != '_',
        histogram_file_name_spec(name).last() != '_',
{
    let ok = |c: char| !is_path_special(c) && !is_white_space_spec(c);
    let m = trim_spec(name).map_values(|c: char| histogram_file_char(c));
    assert forall|i: int| 0 <= i < m.len() implies #[trigger] ok(m[i]) by {}
    lemma_squeeze_keeps(m, false, ok);
    lemma_trim_underscores_shape(squeeze(m, false), ok);
    let r = histogram_file_name_spec(name);
    if tidy_underscores(m).len() == 0 {
        reveal_strlit("histogram");
        assert forall|i: int| 0 <= i < r.len() implies #[trigger] ok(r[i]) by {}
    }
    assert forall|i: int| 0 <= i < r.len() implies !is_path_special(#[trigger] r[i]) && !is_white_space_spec(r[i]) by {
        assert(ok(r[i]));
    }
}

proof fn lemma_squeeze_no_double(s: Seq<char>, prev: bool)
    ensures
        no_double_underscore(squeeze(s, prev)),
        prev && squeeze(s, prev).len() > 0 ==> squeeze(s, prev)[0] != '_',
    decreases s.len(),
{
    if s.len() > 0 {
        let rest = s.drop_first();
        lemma_squeeze_no_double(rest, true);
        lemma_squeeze_no_double(rest, false);
        let r = squeeze(s, prev);
        if s[0] == '_' {
            if !prev {
                let q = squeeze(rest, true);
                assert(r == seq!['_'] + q);
                assert forall|i: int| 0 <= i < r.len() - 1 implies !(#[trigger] r[i] == '_' && r[i + 1] == '_') by {
                    if i > 0 {
                        assert(r[i] == q[i - 1]);
                        assert(r[i + 1] == q[i]);
                    } else {
                        assert(r[1] == q[0]);
                    }
                }
            }
        } else {
            let q = squeeze(rest, false);
            assert(r == seq![s[0]] + q);
            assert forall|i: int| 0 <= i < r.len() - 1 implies !(#[trigger] r[i] == '_' && r[i + 1] == '_') by {
                if i > 0 {
                    assert(r[i] == q[i - 1]);
                    assert(r[i + 1] == q[i]);
                }
            }
        }
    }
}

proof fn lemma_squeeze_noop(s: Seq<char>, prev: bool)
    requires
        no_double_underscore(s),
        prev && s.len() > 0 ==> s[0] != '_',
    ensures
        squeeze(s, prev) == s,
    decreases s.len(),
{
    if s.len() > 0 {
        let rest = s.drop_first();
        assert forall|i: int| 0 <= i < rest.len() - 1 implies !(#[trigger] rest[i] == '_' && rest[i + 1] == '_') by {
            assert(rest[i] == s[i + 1]);
            assert(rest[i + 1] == s[i + 2]);
        }
        if s[0] == '_' {
            if rest.len() > 0 {
                assert(!(s[0] == '_' && s[1] == '_'));
                assert(rest[0] == s[1]);
            }
            lemma_squeeze_noop(rest, true);
        } else {
            lemma_squeeze_noop(rest, false);
        }
        assert(squeeze(s, prev) =~= s);
    }
}

proof fn lemma_strip_noop(s: Seq<char>, p: spec_fn(char) -> bool)
    requires
        s.len() > 0,
        !p(s[0]),
        !p(s[s.len() - 1]),
    ensures
        strip(s, p) == s,
{
    assert(skip_from(s, p, 0) == 0);
    assert(skip_back(s, p, 0, s.len() as int) == s.len());
    assert(s.subrange(0, s.len() as int) =~= s);
}

/// A histogram's file-name component never holds two underscores in a row,
/// and making a file-name component of it again changes nothing.
pub proof fn lemma_histogram_file_name_is_stable(name: Seq<char>)
    ensures
        no_double_underscore(histogram_file_name_spec(name)),
        histogram_file_name_spec(histogram_file_name_spec(name)) == histogram_file_name_spec(name),
{
    lemma_histogram_file_name_is_safe(name);
    let r = histogram_file_name_spec(name);
    let m = trim_spec(name).map_values(|c: char| histogram_file_char(c));
    let sq = squeeze(m, false);
    lemma_squeeze_no_double(m, false);
    if tidy_underscores(m).len() == 0 {
        reveal_strlit("histogram");
        assert(r == "histogram"@);
    } else {
        let us = |c: char| c == '_';
        lemma_skip_from_bounds(sq, us, 0);
        let lo = skip_from(sq, us, 0);
        lemma_skip_back_bounds(sq, us, lo, sq.len() as int);
        let hi = skip_back(sq, us, lo, sq.len() as int);
        assert(r == sq.subrange(lo, hi));
        assert forall|i: int| 0 <= i < r.len() - 1 implies !(#[trigger] r[i] == '_' && r[i + 1] == '_') by {
            assert(r[i] == sq[lo + i]);
            assert(r[i + 1] == sq[lo + i + 1]);
        }
    }
    // Making a component of `r` again: every step leaves it as it is.
    lemma_strip_noop(r, |c: char| is_white_space_spec(c));
    assert(trim_spec(r) == r);
    let m2 = trim_spec(r).map_values(|c: char| histogram_file_char(c));
    assert(m2 =~= r);
    lemma_squeeze_noop(r, false);
    lemma_strip_noop(r, |c: char| c == '_');
    assert(tidy_underscores(m2) == r);
}

/// A cut's file name is never empty (given a fallback that is not), is made of
/// ASCII letters, digits, `-` and `_` alone (given such a fallback), and
/// neither starts nor ends with an underscore (given such a fallback).
pub proof fn lemma_cut_file_name_is_safe(base: Seq<char>, fallback: Seq<char>)
    requires
        fallback.len() > 0,
        fallback[0] != '_',
        fallback.last() != '_',
        forall|i: int| 0 <= i < fallback.len() ==> is_alnum_spec(#[trigger] fallback[i]) || fallback[i] == '-'
            || fallback[i] == '_',
    ensures
        cut_file_name_spec(base, fallback).len() > 0,
        forall|i: int|
            0 <= i < cut_file_name_spec(base, fallback).len() ==> is_alnum_spec(
                #[trigger] cut_file_name_spec(base, fallback)[i],
            ) || cut_file_name_spec(base, fallback)[i] == '-' || cut_file_name_spec(base, fallback)[i] == '_',
        cut_file_name_spec(base, fallback)[0] != '_',
        cut_file_name_spec(base, fallback).last() != '_',
{
    let ok = |c: char| is_alnum_spec(c) || c == '-' || c == '_';
    let m = base.map_values(|c: char| cut_file_char(c));
    assert forall|i: int| 0 <= i < m.len() implies #[trigger] ok(m[i]) by {}
    lemma_squeeze_keeps(m, false, ok);
    lemma_trim_underscores_shape(squeeze(m, false), ok);
    let r = cut_file_name_spec(base, fallback);
    assert forall|i: int| 0 <= i < r.len() implies is_alnum_spec(#[trigger] r[i]) || r[i] == '-' || r[i] == '_' by {
        if tidy_underscores(m).len() > 0 {
            assert(ok(r[i]));
        }
    }
}

/// A histogram name put under a folder: `<prefix>/<name>`.
pub fn prefixed_name(prefix: &str, name: &str) -> (r: String)
    ensures
        r@ == prefix@ + seq!['/'] + name@,
{
    let mut v = chars_of(prefix);
    v.push('/');
    append_str(&mut v, name);
    string_of(&v)
}

/// The name for a new 1D cut of a histogram: `<histogram> 1D Cut <k>` with the
/// smallest `k` from 1 up that no existing cut has.
pub fn next_1d_cut_name(histogram_name: &str, existing_names: &Vec<String>) -> (r: String)
    requires
        existing_names.len() < usize::MAX,
    ensures
        exists|k: nat|
            #![trigger indexed_name(histogram_name@ + " 1D Cut"@, k)]
            k >= 1 && r@ == indexed_name(histogram_name@ + " 1D Cut"@, k) && !names_view(existing_names@).contains(
                indexed_name(histogram_name@ + " 1D Cut"@, k),
            ) && forall|j: nat|
                1 <= j < k ==> names_view(existing_names@).contains(
                    #[trigger] indexed_name(histogram_name@ + " 1D Cut"@, j),
                ),
{
    let base = cut_1d_base_name(histogram_name);
    next_cut_name(base.as_str(), existing_names)
}

/// The name for a new 2D cut on one pair of columns: `<y> v <x> Cut <k>` with
/// the smallest `k` from 1 up that no existing cut has.
pub fn next_2d_cut_name(x_column: &str, y_column: &str, existing_names: &Vec<String>) -> (r: String)
    requires
        existing_names.len() < usize::MAX,
    ensures
        exists|k: nat|
            #![trigger indexed_name(default_2d_cut_name_spec(x_column@, y_column@), k)]
            k >= 1 && r@ == indexed_name(default_2d_cut_name_spec(x_column@, y_column@), k)
                && !names_view(existing_names@).contains(indexed_name(default_2d_cut_name_spec(x_column@, y_column@), k))
                && forall|j: nat|
                1 <= j < k ==> names_view(existing_names@).contains(
                    #[trigger] indexed_name(default_2d_cut_name_spec(x_column@, y_column@), j),
                ),
{
    let base = default_2d_cut_name(x_column, y_column);
    next_cut_name(base.as_str(), existing_names)
}

} // verus!
