//! Expanding histogram configurations whose sources name column groups or
//! brace patterns into one histogram per column (1D) or per column pair (2D).
use vstd::prelude::*;
use crate::identifiers::{contains_placeholder, has_placeholder, placeholder_at, replace_placeholder, replace_placeholder_spec};
use crate::names::{contains_pair, cross, names_view, normalize_names_spec, normalized_axis_columns, pairs_view, pairs_with};
use crate::sources::{
    clone_resolved, lemma_normalized_keep, resolve_selection_spec, resolved_seq_view, resolved_view,
    resolver_view, selection_fits_in, ResolvedSourceSelection, SourceGroupResolver,
};
use crate::text::{chars_of, string_of, trim_spec};

verus! {

/// A resolved source: its column and, when it has one, its name token.
pub type SourceView = (Seq<char>, Option<Seq<char>>);

/// The sources that the fill selections stand for, in order.
pub open spec fn flat_sources(
    groups: Seq<(Seq<char>, Seq<SourceView>)>,
    fills: Seq<Seq<char>>,
) -> Seq<SourceView>
    decreases fills.len(),
{
    if fills.len() == 0 {
        Seq::empty()
    } else {
        flat_sources(groups, fills.drop_last()) + resolve_selection_spec(groups, fills.last())
    }
}

/// Whether one of `srcs` has column `col`.
pub open spec fn has_column(srcs: Seq<SourceView>, col: Seq<char>) -> bool {
    exists|i: int| 0 <= i < srcs.len() && (#[trigger] srcs[i]).0 == col
}

/// The first source of each column, in order.
pub open spec fn first_by_column(srcs: Seq<SourceView>) -> Seq<SourceView>
    decreases srcs.len(),
{
    if srcs.len() == 0 {
        Seq::empty()
    } else {
        let d = first_by_column(srcs.drop_last());
        if has_column(d, srcs.last().0) {
            d
        } else {
            d.push(srcs.last())
        }
    }
}

/// The histograms named after the sources: `{}` in the name is replaced by the
/// source's token (a source without a token gives none); a name without `{}`
/// is kept for every source.
pub open spec fn named_1d(name: Seq<char>, srcs: Seq<SourceView>) -> Seq<(Seq<char>, Seq<char>)>
    decreases srcs.len(),
{
    if srcs.len() == 0 {
        Seq::empty()
    } else {
        let rest = named_1d(name, srcs.drop_last());
        let s = srcs.last();
        if has_placeholder(name) {
            match s.1 {
                Some(tok) => rest.push((replace_placeholder_spec(name, tok), s.0)),
                None => rest,
            }
        } else {
            rest.push((name, s.0))
        }
    }
}

/// The (name, column) of each 1D histogram that a configuration expands to.
pub open spec fn expand_1d_spec(
    name: Seq<char>,
    fills: Seq<Seq<char>>,
    calculate: bool,
    groups: Seq<(Seq<char>, Seq<SourceView>)>,
) -> Seq<(Seq<char>, Seq<char>)> {
    if calculate {
        named_1d(name, first_by_column(flat_sources(groups, normalize_names_spec(fills))))
    } else {
        Seq::empty()
    }
}

/// The pair views of a list of string pairs.
pub open spec fn pair_names_view(pairs: Seq<(String, String)>) -> Seq<(Seq<char>, Seq<char>)> {
    pairs.map_values(|p: (String, String)| (p.0@, p.1@))
}

fn has_column_exec(srcs: &Vec<ResolvedSourceSelection>, col: &String) -> (r: bool)
    ensures
        r == has_column(resolved_seq_view(srcs@), col@),
{
    let ghost sv = resolved_seq_view(srcs@);
    let mut i: usize = 0;
    while i < srcs.len()
        invariant
            i <= srcs.len(),
            sv == resolved_seq_view(srcs@),
            forall|k: int| 0 <= k < i ==> (#[trigger] sv[k]).0 != col@,
        decreases srcs.len() - i,
    {
        assert(sv[i as int] == resolved_view(srcs@[i as int]));
        if srcs[i].column_name == *col {
            assert(sv[i as int].0 == col@);
            return true;
        }
        i += 1;
    }
    false
}

/// Every fill column of the list resolves against the groups without failing;
/// see `selection_fits_in`.
pub open spec fn fills_fit_in(groups: Seq<(Seq<char>, Seq<SourceView>)>, fills: Seq<Seq<char>>) -> bool {
    forall|j: int| 0 <= j < fills.len() ==> selection_fits_in(groups, #[trigger] fills[j])
}

proof fn lemma_fills_fit(groups: Seq<(Seq<char>, Seq<SourceView>)>, primary: Seq<char>, additional: Seq<Seq<char>>)
    requires
        fills_fit_in(groups, seq![primary] + additional),
    ensures
        fills_fit_in(groups, normalize_names_spec(seq![primary] + additional)),
{
    let all = seq![primary] + additional;
    let p = |x: Seq<char>| selection_fits_in(groups, x);
    assert forall|x: Seq<char>| #[trigger] p(trim_spec(x)) == p(x) by {
        crate::text::lemma_trim_idempotent(x);
    }
    assert forall|j: int| 0 <= j < all.len() implies p(#[trigger] all[j]) by {}
    lemma_normalized_keep(all, p);
    let n = normalize_names_spec(all);
    assert forall|j: int| 0 <= j < n.len() implies selection_fits_in(groups, #[trigger] n[j]) by {
        assert(p(n[j]));
    }
}

/// Resolves each fill column and gathers the sources in order.
fn gather_sources(fills: &Vec<String>, resolver: &SourceGroupResolver) -> (r: Vec<ResolvedSourceSelection>)
    requires
        fills_fit_in(resolver_view(resolver.groups@), names_view(fills@)),
    ensures
        resolved_seq_view(r@) == flat_sources(resolver_view(resolver.groups@), names_view(fills@)),
{
    let ghost gv = resolver_view(resolver.groups@);
    let ghost fv = names_view(fills@);
    let mut out: Vec<ResolvedSourceSelection> = Vec::new();
    let mut i: usize = 0;
    assert(fv.take(0) =~= Seq::<Seq<char>>::empty());
    assert(resolved_seq_view(out@) =~= Seq::<SourceView>::empty());
    while i < fills.len()
        invariant
            i <= fills.len(),
            gv == resolver_view(resolver.groups@),
            fv == names_view(fills@),
            fills_fit_in(gv, fv),
            resolved_seq_view(out@) == flat_sources(gv, fv.take(i as int)),
        decreases fills.len() - i,
    {
        assert(fv.take(i + 1).drop_last() =~= fv.take(i as int));
        assert(fv[i as int] == fills@[i as int]@);
        let resolved = resolver.resolve_selection(fills[i].as_str());
        let ghost base = resolved_seq_view(out@);
        let ghost add = resolved_seq_view(resolved@);
        let mut k: usize = 0;
        assert(base + add.take(0) =~= base);
        while k < resolved.len()
            invariant
                k <= resolved.len(),
                add == resolved_seq_view(resolved@),
                resolved_seq_view(out@) == base + add.take(k as int),
            decreases resolved.len() - k,
        {
            let item = clone_resolved(&resolved[k]);
            let ghost iv = resolved_view(item);
            assert(iv == add[k as int]);
            let ghost before = resolved_seq_view(out@);
            out.push(item);
            assert(resolved_seq_view(out@) =~= before.push(iv));
            assert(resolved_seq_view(out@) =~= base + add.take(k + 1));
            k += 1;
        }
        assert(add.take(add.len() as int) =~= add);
        i += 1;
    }
    assert(fv.take(fills.len() as int) =~= fv);
    out
}

/// The (name, column) of each 1D histogram that a configuration with this
/// name, these fill columns and this `calculate` flag expands to; see
/// `expand_1d_spec`.
pub fn expand_hist1d(
    name: &str,
    column_name: &str,
    additional_column_names: &Vec<String>,
    calculate: bool,
    resolver: &SourceGroupResolver,
) -> (r: Vec<(String, String)>)
    requires
        calculate ==> fills_fit_in(
            resolver_view(resolver.groups@),
            seq![column_name@] + names_view(additional_column_names@),
        ),
    ensures
        pair_names_view(r@) == expand_1d_spec(
            name@,
            seq![column_name@] + names_view(additional_column_names@),
            calculate,
            resolver_view(resolver.groups@),
        ),
{
    let mut out: Vec<(String, String)> = Vec::new();
    if !calculate {
        assert(pair_names_view(out@) =~= Seq::<(Seq<char>, Seq<char>)>::empty());
        return out;
    }
    let fills = normalized_axis_columns(column_name, additional_column_names);
    proof {
        lemma_fills_fit(resolver_view(resolver.groups@), column_name@, names_view(additional_column_names@));
    }
    let sources = gather_sources(&fills, resolver);
    let ghost sv = resolved_seq_view(sources@);
    let name_chars = chars_of(name);
    let templated = contains_placeholder(&name_chars);
    let name_string = string_of(&name_chars);
    let mut firsts: Vec<ResolvedSourceSelection> = Vec::new();
    let mut i: usize = 0;
    assert(sv.take(0) =~= Seq::<SourceView>::empty());
    assert(resolved_seq_view(firsts@) =~= Seq::<SourceView>::empty());
    assert(pair_names_view(out@) =~= Seq::<(Seq<char>, Seq<char>)>::empty());
    while i < sources.len()
        invariant
            i <= sources.len(),
            sv == resolved_seq_view(sources@),
            name_chars@ == name@,
            name_string@ == name@,
            templated == has_placeholder(name@),
            resolved_seq_view(firsts@) == first_by_column(sv.take(i as int)),
            pair_names_view(out@) == named_1d(name@, resolved_seq_view(firsts@)),
        decreases sources.len() - i,
    {
        let src = &sources[i];
        assert(sv[i as int] == resolved_view(*src));
        assert(sv.take(i + 1).drop_last() =~= sv.take(i as int));
        assert(sv.take(i + 1).last() == sv[i as int]);
        if !has_column_exec(&firsts, &src.column_name) {
            let ghost before_firsts = resolved_seq_view(firsts@);
            let item = clone_resolved(src);
            let ghost iv = resolved_view(item);
            firsts.push(item);
            assert(resolved_seq_view(firsts@) =~= before_firsts.push(iv));
            assert(resolved_seq_view(firsts@).drop_last() =~= before_firsts);
            let ghost before_out = pair_names_view(out@);
            if templated {
                match &src.name_token {
                    Some(token) => {
                        let token_chars = chars_of(token.as_str());
                        let replaced = replace_placeholder(&name_chars, &token_chars);
                        out.push((string_of(&replaced), src.column_name.clone()));
                        assert(pair_names_view(out@) =~= before_out.push(
                            (replace_placeholder_spec(name@, token@), src.column_name@),
                        ));
                    },
                    None => {},
                }
            } else {
                out.push((name_string.clone(), src.column_name.clone()));
                assert(pair_names_view(out@) =~= before_out.push((name@, src.column_name@)));
            }
        }
        i += 1;
    }
    assert(sv.take(sources.len() as int) =~= sv);
    out
}

/// The column pairs of a list of source pairs.
pub open spec fn pair_columns(k: Seq<(SourceView, SourceView)>) -> Seq<(Seq<char>, Seq<char>)> {
    k.map_values(|p: (SourceView, SourceView)| (p.0.0, p.1.0))
}

/// The source pairs whose two columns differ, each unordered pair of columns
/// kept only the first time it occurs (in either order).
pub open spec fn distinct_column_pairs(c: Seq<(SourceView, SourceView)>) -> Seq<(SourceView, SourceView)>
    decreases c.len(),
{
    if c.len() == 0 {
        Seq::empty()
    } else {
        let k = distinct_column_pairs(c.drop_last());
        let p = c.last();
        if p.0.0 == p.1.0 || pair_columns(k).contains((p.0.0, p.1.0)) || pair_columns(k).contains(
            (p.1.0, p.0.0),
        ) {
            k
        } else {
            k.push(p)
        }
    }
}

/// The name of the 2D histogram for a pair of sources, if it gets one: a name
/// with `{}` takes the x token, the y token, or both joined by `_`, and a pair
/// with no token gives no histogram.
pub open spec fn name_2d(name: Seq<char>, x: SourceView, y: SourceView) -> Option<Seq<char>> {
    if has_placeholder(name) {
        match (x.1, y.1) {
            (Some(a), None) => Some(replace_placeholder_spec(name, a)),
            (None, Some(b)) => Some(replace_placeholder_spec(name, b)),
            (Some(a), Some(b)) => Some(replace_placeholder_spec(name, a + seq!['_'] + b)),
            (None, None) => None,
        }
    } else {
        Some(name)
    }
}

/// The (name, x column, y column) of the histograms for the source pairs.
pub open spec fn named_2d(name: Seq<char>, pairs: Seq<(SourceView, SourceView)>) -> Seq<(Seq<char>, Seq<char>, Seq<char>)>
    decreases pairs.len(),
{
    if pairs.len() == 0 {
        Seq::empty()
    } else {
        let rest = named_2d(name, pairs.drop_last());
        let p = pairs.last();
        match name_2d(name, p.0, p.1) {
            Some(n) => rest.push((n, p.0.0, p.1.0)),
            None => rest,
        }
    }
}

/// The (name, x column, y column) of each 2D histogram that a configuration expands to.
pub open spec fn expand_2d_spec(
    name: Seq<char>,
    x_fills: Seq<Seq<char>>,
    y_fills: Seq<Seq<char>>,
    calculate: bool,
    groups: Seq<(Seq<char>, Seq<SourceView>)>,
) -> Seq<(Seq<char>, Seq<char>, Seq<char>)> {
    if calculate {
        named_2d(
            name,
            distinct_column_pairs(
                cross(
                    flat_sources(groups, normalize_names_spec(x_fills)),
                    flat_sources(groups, normalize_names_spec(y_fills)),
                ),
            ),
        )
    } else {
        Seq::empty()
    }
}

/// The views of a list of (name, x column, y column) triples.
pub open spec fn triples_view(t: Seq<(String, String, String)>) -> Seq<(Seq<char>, Seq<char>, Seq<char>)> {
    t.map_values(|e: (String, String, String)| (e.0@, e.1@, e.2@))
}

fn append_chars_vec(out: &mut Vec<char>, v: &Vec<char>)
    ensures
        final(out)@ == old(out)@ + v@,
{
    let ghost start = out@;
    let mut i: usize = 0;
    while i < v.len()
        invariant
            i <= v.len(),
            out@ == start + v@.take(i as int),
        decreases v.len() - i,
    {
        out.push(v[i]);
        i += 1;
        assert(out@ =~= start + v@.take(i as int));
    }
    assert(v@.take(v.len() as int) =~= v@);
}

fn name_2d_exec(
    name_chars: &Vec<char>,
    templated: bool,
    x: &ResolvedSourceSelection,
    y: &ResolvedSourceSelection,
) -> (r: Option<String>)
    requires
        templated == has_placeholder(name_chars@),
    ensures
        match r {
            Some(n) => name_2d(name_chars@, resolved_view(*x), resolved_view(*y)) == Some(n@),
            None => name_2d(name_chars@, resolved_view(*x), resolved_view(*y)) is None,
        },
{
    if !templated {
        return Some(string_of(name_chars));
    }
    match (&x.name_token, &y.name_token) {
        (Some(a), None) => {
            let av = chars_of(a.as_str());
            Some(string_of(&replace_placeholder(name_chars, &av)))
        },
        (None, Some(b)) => {
            let bv = chars_of(b.as_str());
            Some(string_of(&replace_placeholder(name_chars, &bv)))
        },
        (Some(a), Some(b)) => {
            let mut joined = chars_of(a.as_str());
            joined.push('_');
            let bv = chars_of(b.as_str());
            append_chars_vec(&mut joined, &bv);
            assert(joined@ =~= a@ + seq!['_'] + b@);
            Some(string_of(&replace_placeholder(name_chars, &joined)))
        },
        (None, None) => None,
    }
}

/// The (name, x column, y column) of each 2D histogram that a configuration
/// expands to; see `expand_2d_spec`.
pub fn expand_hist2d(
    name: &str,
    x_column_name: &str,
    additional_x_column_names: &Vec<String>,
    y_column_name: &str,
    additional_y_column_names: &Vec<String>,
    calculate: bool,
    resolver: &SourceGroupResolver,
) -> (r: Vec<(String, String, String)>)
    requires
        calculate ==> fills_fit_in(
            resolver_view(resolver.groups@),
            seq![x_column_name@] + names_view(additional_x_column_names@),
        ),
        calculate ==> fills_fit_in(
            resolver_view(resolver.groups@),
            seq![y_column_name@] + names_view(additional_y_column_names@),
        ),
    ensures
        triples_view(r@) == expand_2d_spec(
            name@,
            seq![x_column_name@] + names_view(additional_x_column_names@),
            seq![y_column_name@] + names_view(additional_y_column_names@),
            calculate,
            resolver_view(resolver.groups@),
        ),
{
    let mut out: Vec<(String, String, String)> = Vec::new();
    if !calculate {
        assert(triples_view(out@) =~= Seq::<(Seq<char>, Seq<char>, Seq<char>)>::empty());
        return out;
    }
    let x_fills = normalized_axis_columns(x_column_name, additional_x_column_names);
    let y_fills = normalized_axis_columns(y_column_name, additional_y_column_names);
    proof {
        lemma_fills_fit(resolver_view(resolver.groups@), x_column_name@, names_view(additional_x_column_names@));
        lemma_fills_fit(resolver_view(resolver.groups@), y_column_name@, names_view(additional_y_column_names@));
    }
    let xs = gather_sources(&x_fills, resolver);
    let ys = gather_sources(&y_fills, resolver);
    let ghost xv = resolved_seq_view(xs@);
    let ghost yv = resolved_seq_view(ys@);
    let name_chars = chars_of(name);
    let templated = contains_placeholder(&name_chars);
    let ghost nm = name@;
    let mut kept: Vec<(String, String)> = Vec::new();
    let ghost mut kept_pairs: Seq<(SourceView, SourceView)> = Seq::empty();
    let mut i: usize = 0;
    assert(xv.take(0) =~= Seq::<SourceView>::empty());
    assert(pairs_view(kept@) =~= Seq::<(Seq<char>, Seq<char>)>::empty());
    assert(pair_columns(kept_pairs) =~= Seq::<(Seq<char>, Seq<char>)>::empty());
    assert(triples_view(out@) =~= Seq::<(Seq<char>, Seq<char>, Seq<char>)>::empty());
    while i < xs.len()
        invariant
            i <= xs.len(),
            xv == resolved_seq_view(xs@),
            yv == resolved_seq_view(ys@),
            name_chars@ == nm,
            nm == name@,
            templated == has_placeholder(nm),
            kept_pairs == distinct_column_pairs(cross(xv.take(i as int), yv)),
            pairs_view(kept@) == pair_columns(kept_pairs),
            triples_view(out@) == named_2d(nm, kept_pairs),
        decreases xs.len() - i,
    {
        let ghost x = xv[i as int];
        assert(xv.take(i + 1).drop_last() =~= xv.take(i as int));
        assert(xv.take(i + 1).last() == x);
        assert(x == resolved_view(xs@[i as int]));
        let mut j: usize = 0;
        assert(pairs_with(x, yv.take(0)) =~= Seq::<(SourceView, SourceView)>::empty());
        assert(cross(xv.take(i as int), yv) + pairs_with(x, yv.take(0)) =~= cross(xv.take(i as int), yv));
        while j < ys.len()
            invariant
                i < xs.len(),
                j <= ys.len(),
                xv == resolved_seq_view(xs@),
                yv == resolved_seq_view(ys@),
                x == xv[i as int],
                x == resolved_view(xs@[i as int]),
                name_chars@ == nm,
                templated == has_placeholder(nm),
                kept_pairs == distinct_column_pairs(
                    cross(xv.take(i as int), yv) + pairs_with(x, yv.take(j as int)),
                ),
                pairs_view(kept@) == pair_columns(kept_pairs),
                triples_view(out@) == named_2d(nm, kept_pairs),
            decreases ys.len() - j,
        {
            let ghost y = yv[j as int];
            assert(y == resolved_view(ys@[j as int]));
            let ghost c = cross(xv.take(i as int), yv) + pairs_with(x, yv.take(j as int));
            let ghost c2 = cross(xv.take(i as int), yv) + pairs_with(x, yv.take(j + 1));
            assert(c2 =~= c.push((x, y)));
            assert(c2.drop_last() =~= c);
            let xc = &xs[i].column_name;
            let yc = &ys[j].column_name;
            if !(*xc == *yc) && !contains_pair(&kept, xc, yc) && !contains_pair(&kept, yc, xc) {
                let ghost before_kept = pairs_view(kept@);
                kept.push((xc.clone(), yc.clone()));
                proof {
                    kept_pairs = kept_pairs.push((x, y));
                }
                assert(pairs_view(kept@) =~= before_kept.push((x.0, y.0)));
                assert(pair_columns(kept_pairs) =~= before_kept.push((x.0, y.0)));
                assert(kept_pairs.drop_last() =~= distinct_column_pairs(c));
                let ghost before_out = triples_view(out@);
                match name_2d_exec(&name_chars, templated, &xs[i], &ys[j]) {
                    Some(n) => {
                        let ghost nv = n@;
                        out.push((n, xc.clone(), yc.clone()));
                        assert(triples_view(out@) =~= before_out.push((nv, x.0, y.0)));
                    },
                    None => {},
                }
            }
            j += 1;
        }
        assert(yv.take(ys.len() as int) =~= yv);
        i += 1;
    }
    assert(xv.take(xs.len() as int) =~= xv);
    out
}

proof fn lemma_replace_without_placeholder(s: Seq<char>, r: Seq<char>)
    requires
        !has_placeholder(s),
    ensures
        replace_placeholder_spec(s, r) == s,
    decreases s.len(),
{
    if s.len() > 0 {
        assert(!placeholder_at(s, 0));
        let rest = s.drop_first();
        assert forall|i: int| !placeholder_at(rest, i) by {
            if placeholder_at(rest, i) {
                assert(placeholder_at(s, i + 1));
            }
        }
        lemma_replace_without_placeholder(rest, r);
        assert(seq![s[0]] + rest =~= s);
    }
}

proof fn lemma_replace_first_placeholder(prefix: Seq<char>, suffix: Seq<char>, r: Seq<char>)
    requires
        !has_placeholder(prefix),
    ensures
        replace_placeholder_spec(prefix + seq!['{', '}'] + suffix, r) == prefix + r + replace_placeholder_spec(
            suffix,
            r,
        ),
    decreases prefix.len(),
{
    let t = prefix + seq!['{', '}'] + suffix;
    if prefix.len() == 0 {
        assert(t =~= seq!['{', '}'] + suffix);
        assert(placeholder_at(t, 0));
        assert(t.subrange(2, t.len() as int) =~= suffix);
        assert(prefix + r =~= r);
    } else {
        if prefix.len() >= 2 {
            assert(!placeholder_at(prefix, 0));
            assert(t[0] == prefix[0] && t[1] == prefix[1]);
        } else {
            assert(t[1] == '{');
        }
        assert(!placeholder_at(t, 0));
        let rest = prefix.drop_first();
        assert forall|i: int| !placeholder_at(rest, i) by {
            if placeholder_at(rest, i) {
                assert(placeholder_at(prefix, i + 1));
            }
        }
        lemma_replace_first_placeholder(rest, suffix, r);
        assert(t.drop_first() =~= rest + seq!['{', '}'] + suffix);
        assert(seq![prefix[0]] + (rest + r + replace_placeholder_spec(suffix, r)) =~= prefix + r
            + replace_placeholder_spec(suffix, r));
    }
}

/// When both sources of a 2D pair carry a name token, the expanded
/// histogram's name is the template with its first `{}` replaced by the x
/// token, `_` and the y token (and every later `{}` likewise).
pub proof fn lemma_2d_name_joins_both_tokens(
    prefix: Seq<char>,
    suffix: Seq<char>,
    x_column: Seq<char>,
    x_token: Seq<char>,
    y_column: Seq<char>,
    y_token: Seq<char>,
)
    requires
        !has_placeholder(prefix),
    ensures
        name_2d(prefix + seq!['{', '}'] + suffix, (x_column, Some(x_token)), (y_column, Some(y_token))) == Some(
            prefix + x_token + seq!['_'] + y_token + replace_placeholder_spec(suffix, x_token + seq!['_'] + y_token),
        ),
{
    let name = prefix + seq!['{', '}'] + suffix;
    assert(placeholder_at(name, prefix.len() as int));
    let r = x_token + seq!['_'] + y_token;
    lemma_replace_first_placeholder(prefix, suffix, r);
    assert(prefix + r + replace_placeholder_spec(suffix, r) =~= prefix + x_token + seq!['_'] + y_token
        + replace_placeholder_spec(suffix, r));
}

/// With one `{}` in the template and tokens without `_`, distinct pairs of x
/// and y tokens give distinct 2D histogram names.
pub proof fn lemma_2d_names_tell_token_pairs_apart(
    prefix: Seq<char>,
    suffix: Seq<char>,
    x1: SourceView,
    y1: SourceView,
    x2: SourceView,
    y2: SourceView,
    a1: Seq<char>,
    b1: Seq<char>,
    a2: Seq<char>,
    b2: Seq<char>,
)
    requires
        !has_placeholder(prefix),
        !has_placeholder(suffix),
        x1.1 == Some(a1),
        y1.1 == Some(b1),
        x2.1 == Some(a2),
        y2.1 == Some(b2),
        !a1.contains('_'),
        !b1.contains('_'),
        !a2.contains('_'),
        !b2.contains('_'),
        a1 != a2 || b1 != b2,
    ensures
        name_2d(prefix + seq!['{', '}'] + suffix, x1, y1) != name_2d(prefix + seq!['{', '}'] + suffix, x2, y2),
{
    lemma_2d_name_joins_both_tokens(prefix, suffix, x1.0, a1, y1.0, b1);
    lemma_2d_name_joins_both_tokens(prefix, suffix, x2.0, a2, y2.0, b2);
    lemma_replace_without_placeholder(suffix, a1 + seq!['_'] + b1);
    lemma_replace_without_placeholder(suffix, a2 + seq!['_'] + b2);
    let n1 = prefix + a1 + seq!['_'] + b1 + suffix;
    let n2 = prefix + a2 + seq!['_'] + b2 + suffix;
    if n1 == n2 {
        let m1 = a1 + seq!['_'] + b1;
        let m2 = a2 + seq!['_'] + b2;
        assert(n1 =~= prefix + m1 + suffix);
        assert(n2 =~= prefix + m2 + suffix);
        assert(n1.len() == prefix.len() + m1.len() + suffix.len());
        assert(n2.len() == prefix.len() + m2.len() + suffix.len());
        assert(m1.len() == m2.len());
        assert(m1 =~= n1.subrange(prefix.len() as int, (prefix.len() + m1.len()) as int));
        assert(m2 =~= n2.subrange(prefix.len() as int, (prefix.len() + m2.len()) as int));
        assert(m1 == m2);
        if a1.len() < a2.len() {
            assert(m1[a1.len() as int] == '_');
            assert(m2[a1.len() as int] == a2[a1.len() as int]);
            assert(a2.contains('_'));
        } else if a2.len() < a1.len() {
            assert(m2[a2.len() as int] == '_');
            assert(m1[a2.len() as int] == a1[a2.len() as int]);
            assert(a1.contains('_'));
        } else {
            assert(a1 =~= m1.take(a1.len() as int));
            assert(a2 =~= m2.take(a2.len() as int));
            assert(b1 =~= m1.skip((a1.len() + 1) as int));
            assert(b2 =~= m2.skip((a2.len() + 1) as int));
        }
    }
}

/// Each 2D histogram made from source pairs is named for its own pair, as
/// `name_2d` names it, with that pair's columns; and every pair that gets a
/// name gives a histogram.
pub proof fn lemma_named_2d_follows_pairs(name: Seq<char>, pairs: Seq<(SourceView, SourceView)>)
    ensures
        forall|i: int|
            0 <= i < named_2d(name, pairs).len() ==> exists|j: int|
                0 <= j < pairs.len() && name_2d(name, pairs[j].0, pairs[j].1) == Some(
                    (#[trigger] named_2d(name, pairs)[i]).0,
                ) && named_2d(name, pairs)[i].1 == pairs[j].0.0 && named_2d(name, pairs)[i].2 == pairs[j].1.0,
        forall|j: int|
            0 <= j < pairs.len() && (#[trigger] name_2d(name, pairs[j].0, pairs[j].1)) is Some ==> named_2d(
                name,
                pairs,
            ).contains((name_2d(name, pairs[j].0, pairs[j].1)->0, pairs[j].0.0, pairs[j].1.0)),
    decreases pairs.len(),
{
    if pairs.len() > 0 {
        let d = pairs.drop_last();
        lemma_named_2d_follows_pairs(name, d);
        let prev = named_2d(name, d);
        let r = named_2d(name, pairs);
        let last = pairs.last();
        assert forall|i: int| 0 <= i < r.len() implies exists|j: int|
            0 <= j < pairs.len() && name_2d(name, pairs[j].0, pairs[j].1) == Some((#[trigger] r[i]).0) && r[i].1
                == pairs[j].0.0 && r[i].2 == pairs[j].1.0 by {
            if i < prev.len() {
                assert(r[i] == prev[i]);
                let j = choose|j: int|
                    0 <= j < d.len() && name_2d(name, d[j].0, d[j].1) == Some((#[trigger] prev[i]).0) && prev[i].1
                        == d[j].0.0 && prev[i].2 == d[j].1.0;
                assert(pairs[j] == d[j]);
            } else {
                assert(pairs[pairs.len() - 1] == last);
            }
        }
        assert forall|j: int|
            0 <= j < pairs.len() && (#[trigger] name_2d(name, pairs[j].0, pairs[j].1)) is Some implies r.contains(
                (name_2d(name, pairs[j].0, pairs[j].1)->0, pairs[j].0.0, pairs[j].1.0),
            ) by {
            let e = (name_2d(name, pairs[j].0, pairs[j].1)->0, pairs[j].0.0, pairs[j].1.0);
            if j < d.len() {
                assert(d[j] == pairs[j]);
                assert(name_2d(name, d[j].0, d[j].1) is Some);
                let k = choose|k: int| 0 <= k < prev.len() && prev[k] == e;
                if name_2d(name, last.0, last.1) is Some {
                    assert(r[k] == prev[k]);
                }
            } else {
                assert(r[prev.len() as int] == e);
            }
        }
    }
}

/// A 2D histogram name takes the one token its pair carries, and a template
/// without `{}` is kept as it is.
pub proof fn lemma_2d_name_single_token(
    prefix: Seq<char>,
    suffix: Seq<char>,
    column: Seq<char>,
    other_column: Seq<char>,
    token: Seq<char>,
)
    requires
        !has_placeholder(prefix),
    ensures
        name_2d(prefix + seq!['{', '}'] + suffix, (column, Some(token)), (other_column, None)) == Some(
            prefix + token + replace_placeholder_spec(suffix, token),
        ),
        name_2d(prefix + seq!['{', '}'] + suffix, (other_column, None), (column, Some(token))) == Some(
            prefix + token + replace_placeholder_spec(suffix, token),
        ),
        forall|x: SourceView, y: SourceView| name_2d(prefix, x, y) == Some(prefix),
{
    assert(placeholder_at(prefix + seq!['{', '}'] + suffix, prefix.len() as int));
    lemma_replace_first_placeholder(prefix, suffix, token);
}

} // verus!
