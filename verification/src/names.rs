//! Lists of column names: trimming and de-duplicating them, and pairing the
//! columns of the two axes of a 2D histogram.
use vstd::prelude::*;
use crate::identifiers::nonempty_parts;
use crate::text::{chars_of, string_of, trim_spec, trimmed_chars};

verus! {

/// The character sequences of a list of strings.
pub open spec fn names_view(names: Seq<String>) -> Seq<Seq<char>> {
    names.map_values(|n: String| n@)
}

/// `s` with every repeated entry dropped; the first of equal entries stays.
pub open spec fn dedup_spec<A>(s: Seq<A>) -> Seq<A>
    decreases s.len(),
{
    if s.len() == 0 {
        Seq::empty()
    } else {
        let d = dedup_spec(s.drop_last());
        if d.contains(s.last()) {
            d
        } else {
            d.push(s.last())
        }
    }
}

/// Each name trimmed, blank names dropped, and repeated names dropped.
pub open spec fn normalize_names_spec(names: Seq<Seq<char>>) -> Seq<Seq<char>> {
    dedup_spec(nonempty_parts(names.map_values(|n: Seq<char>| trim_spec(n))))
}

proof fn lemma_dedup_keeps_all<A>(s: Seq<A>, x: A)
    requires
        s.contains(x),
    ensures
        dedup_spec(s).contains(x),
    decreases s.len(),
{
    if s.last() != x {
        let j = choose|j: int| 0 <= j < s.len() && s[j] == x;
        assert(s.drop_last()[j] == x);
        lemma_dedup_keeps_all(s.drop_last(), x);
        let d = dedup_spec(s.drop_last());
        let k = choose|k: int| 0 <= k < d.len() && d[k] == x;
        if !d.contains(s.last()) {
            assert(d.push(s.last())[k] == x);
        }
    } else {
        let d = dedup_spec(s.drop_last());
        if !d.contains(s.last()) {
            assert(d.push(s.last())[d.len() as int] == x);
        }
    }
}

proof fn lemma_nonempty_parts_keep_all(s: Seq<Seq<char>>, k: int)
    requires
        0 <= k < s.len(),
        s[k].len() > 0,
    ensures
        crate::identifiers::nonempty_parts(s).contains(s[k]),
    decreases s.len(),
{
    let n = crate::identifiers::nonempty_parts(s);
    let p = crate::identifiers::nonempty_parts(s.drop_last());
    if k < s.len() - 1 {
        assert(s.drop_last()[k] == s[k]);
        lemma_nonempty_parts_keep_all(s.drop_last(), k);
        let j = choose|j: int| 0 <= j < p.len() && p[j] == s[k];
        if s.last().len() > 0 {
            assert(n[j] == p[j]);
        }
    } else {
        assert(n[p.len() as int] == s[k]);
    }
}

/// A name that is not blank once trimmed is among the normalized names,
/// trimmed.
pub proof fn lemma_normalized_contains(names: Seq<Seq<char>>, k: int)
    requires
        0 <= k < names.len(),
        trim_spec(names[k]).len() > 0,
    ensures
        normalize_names_spec(names).contains(trim_spec(names[k])),
{
    let t = names.map_values(|n: Seq<char>| trim_spec(n));
    assert(t[k] == trim_spec(names[k]));
    lemma_nonempty_parts_keep_all(t, k);
    lemma_dedup_keeps_all(crate::identifiers::nonempty_parts(t), t[k]);
}

/// Whether `list` holds a string equal to `s`.
pub fn contains_string(list: &Vec<String>, s: &String) -> (r: bool)
    ensures
        r == names_view(list@).contains(s@),
{
    let mut i: usize = 0;
    while i < list.len()
        invariant
            i <= list.len(),
            forall|k: int| 0 <= k < i ==> list@[k]@ != s@,
        decreases list.len() - i,
    {
        if list[i] == *s {
            assert(names_view(list@)[i as int] == s@);
            return true;
        }
        i += 1;
    }
    assert forall|k: int| 0 <= k < names_view(list@).len() implies names_view(list@)[k] != s@ by {
        assert(names_view(list@)[k] == list@[k]@);
    }
    false
}

/// Trims `name` and adds it to `out` unless it is blank or already there.
fn add_normalized(out: &mut Vec<String>, name: &String, Ghost(prefix): Ghost<Seq<Seq<char>>>)
    requires
        names_view(old(out)@) == dedup_spec(nonempty_parts(prefix)),
    ensures
        names_view(final(out)@) == dedup_spec(nonempty_parts(prefix.push(trim_spec(name@)))),
{
    let t = trimmed_chars(name.as_str());
    let ghost p2 = prefix.push(t@);
    assert(p2.drop_last() =~= prefix);
    if t.len() == 0 {
        return;
    }
    assert(nonempty_parts(p2) == nonempty_parts(prefix).push(t@));
    assert(nonempty_parts(p2).drop_last() =~= nonempty_parts(prefix));
    let ts = string_of(&t);
    if !contains_string(out, &ts) {
        let ghost before = names_view(out@);
        out.push(ts);
        assert(names_view(out@) =~= before.push(t@));
    }
}

/// Trims the names, drops blank ones, and keeps only the first of equal names.
pub fn normalize_names(names: &Vec<String>) -> (r: Vec<String>)
    ensures
        names_view(r@) == normalize_names_spec(names_view(names@)),
{
    let ghost nv = names_view(names@);
    let ghost trimmed = nv.map_values(|n: Seq<char>| trim_spec(n));
    let mut out: Vec<String> = Vec::new();
    let mut i: usize = 0;
    assert(trimmed.take(0) =~= Seq::<Seq<char>>::empty());
    assert(names_view(out@) =~= Seq::<Seq<char>>::empty());
    while i < names.len()
        invariant
            i <= names.len(),
            nv == names_view(names@),
            trimmed == nv.map_values(|n: Seq<char>| trim_spec(n)),
            names_view(out@) == dedup_spec(nonempty_parts(trimmed.take(i as int))),
        decreases names.len() - i,
    {
        assert(trimmed.take(i + 1) =~= trimmed.take(i as int).push(trim_spec(names@[i as int]@)));
        add_normalized(&mut out, &names[i], Ghost(trimmed.take(i as int)));
        i += 1;
    }
    assert(trimmed.take(names.len() as int) =~= trimmed);
    out
}

/// The fill columns of one histogram axis: the primary column followed by the
/// additional ones, trimmed, blank ones dropped, repeats dropped.
pub fn normalized_axis_columns(primary_column_name: &str, additional_column_names: &Vec<String>) -> (r: Vec<String>)
    ensures
        names_view(r@) == normalize_names_spec(
            seq![primary_column_name@] + names_view(additional_column_names@),
        ),
{
    let mut all: Vec<String> = Vec::new();
    let pv = chars_of(primary_column_name);
    all.push(string_of(&pv));
    let mut i: usize = 0;
    while i < additional_column_names.len()
        invariant
            i <= additional_column_names.len(),
            names_view(all@) == seq![primary_column_name@] + names_view(additional_column_names@).take(i as int),
        decreases additional_column_names.len() - i,
    {
        let ghost before = names_view(all@);
        all.push(additional_column_names[i].clone());
        assert(names_view(additional_column_names@)[i as int] == additional_column_names@[i as int]@);
        assert(names_view(all@) =~= before.push(additional_column_names@[i as int]@));
        assert(names_view(all@) =~= seq![primary_column_name@] + names_view(additional_column_names@).take(i + 1));
        i += 1;
    }
    assert(names_view(additional_column_names@).take(additional_column_names.len() as int) =~= names_view(additional_column_names@));
    normalize_names(&all)
}

/// A named group of columns that histograms and expressions can refer to by its alias.
pub struct ColumnGroup {
    pub alias: String,
    pub column_names: Vec<String>,
}

impl ColumnGroup {
    /// The member names, trimmed, blank ones dropped, repeats dropped.
    pub fn normalized_column_names(&self) -> (r: Vec<String>)
        ensures
            names_view(r@) == normalize_names_spec(names_view(self.column_names@)),
    {
        normalize_names(&self.column_names)
    }

    /// Replaces the member names by their normalized form.
    pub fn set_column_names(&mut self, column_names: Vec<String>)
        ensures
            final(self).alias == old(self).alias,
            names_view(final(self).column_names@) == normalize_names_spec(names_view(column_names@)),
    {
        self.column_names = normalize_names(&column_names);
    }
}

/// The pairs of `x` with each of `ys`, in order.
pub open spec fn pairs_with<A>(x: A, ys: Seq<A>) -> Seq<(A, A)> {
    ys.map_values(|y: A| (x, y))
}

/// Every pair of an `xs` entry with a `ys` entry, `xs` in the outer order.
pub open spec fn cross<A>(xs: Seq<A>, ys: Seq<A>) -> Seq<(A, A)>
    decreases xs.len(),
{
    if xs.len() == 0 {
        Seq::empty()
    } else {
        cross(xs.drop_last(), ys) + pairs_with(xs.last(), ys)
    }
}

/// The pairs of `c` with two different sides, each unordered pair kept only
/// the first time it occurs (in either order).
pub open spec fn distinct_unordered<A>(c: Seq<(A, A)>) -> Seq<(A, A)>
    decreases c.len(),
{
    if c.len() == 0 {
        Seq::empty()
    } else {
        let k = distinct_unordered(c.drop_last());
        let p = c.last();
        if p.0 == p.1 || k.contains(p) || k.contains((p.1, p.0)) {
            k
        } else {
            k.push(p)
        }
    }
}

/// The character sequences of a list of string pairs.
pub open spec fn pairs_view(pairs: Seq<(String, String)>) -> Seq<(Seq<char>, Seq<char>)> {
    pairs.map_values(|p: (String, String)| (p.0@, p.1@))
}

pub fn contains_pair(pairs: &Vec<(String, String)>, a: &String, b: &String) -> (r: bool)
    ensures
        r == pairs_view(pairs@).contains((a@, b@)),
{
    let mut i: usize = 0;
    while i < pairs.len()
        invariant
            i <= pairs.len(),
            forall|k: int| 0 <= k < i ==> pairs_view(pairs@)[k] != (a@, b@),
        decreases pairs.len() - i,
    {
        if pairs[i].0 == *a && pairs[i].1 == *b {
            assert(pairs_view(pairs@)[i as int] == (a@, b@));
            return true;
        }
        i += 1;
    }
    false
}

/// The (x, y) column pairs that a 2D histogram fills, for merging: every x
/// column with every y column, leaving out a column paired with itself and a
/// pair whose two columns already formed a pair, in either order.
pub fn fill_pairs_for_merge(x_columns: &Vec<String>, y_columns: &Vec<String>) -> (r: Vec<(String, String)>)
    ensures
        pairs_view(r@) == distinct_unordered(cross(names_view(x_columns@), names_view(y_columns@))),
{
    let ghost xs = names_view(x_columns@);
    let ghost ys = names_view(y_columns@);
    let mut pairs: Vec<(String, String)> = Vec::new();
    let mut i: usize = 0;
    assert(pairs_view(pairs@) =~= Seq::<(Seq<char>, Seq<char>)>::empty());
    assert(xs.take(0) =~= Seq::<Seq<char>>::empty());
    while i < x_columns.len()
        invariant
            i <= x_columns.len(),
            xs == names_view(x_columns@),
            ys == names_view(y_columns@),
            pairs_view(pairs@) == distinct_unordered(cross(xs.take(i as int), ys)),
        decreases x_columns.len() - i,
    {
        let ghost x = xs[i as int];
        assert(xs.take(i + 1).drop_last() =~= xs.take(i as int));
        let mut j: usize = 0;
        assert(pairs_with(x, ys.take(0)) =~= Seq::<(Seq<char>, Seq<char>)>::empty());
        assert(cross(xs.take(i as int), ys) + pairs_with(x, ys.take(0)) =~= cross(xs.take(i as int), ys));
        while j < y_columns.len()
            invariant
                i < x_columns.len(),
                j <= y_columns.len(),
                xs == names_view(x_columns@),
                ys == names_view(y_columns@),
                x == xs[i as int],
                pairs_view(pairs@) == distinct_unordered(
                    cross(xs.take(i as int), ys) + pairs_with(x, ys.take(j as int)),
                ),
            decreases y_columns.len() - j,
        {
            let ghost c = cross(xs.take(i as int), ys) + pairs_with(x, ys.take(j as int));
            let ghost c2 = cross(xs.take(i as int), ys) + pairs_with(x, ys.take(j + 1));
            assert(c2 =~= c.push((x, ys[j as int])));
            assert(c2.drop_last() =~= c);
            let xc = &x_columns[i];
            let yc = &y_columns[j];
            assert(xc@ == x);
            assert(yc@ == ys[j as int]);
            if !(*xc == *yc) && !contains_pair(&pairs, xc, yc) && !contains_pair(&pairs, yc, xc) {
                let ghost before = pairs_view(pairs@);
                pairs.push((xc.clone(), yc.clone()));
                assert(pairs_view(pairs@) =~= before.push((x, ys[j as int])));
            }
            j += 1;
        }
        assert(ys.take(y_columns.len() as int) =~= ys);
        i += 1;
    }
    assert(xs.take(x_columns.len() as int) =~= xs);
    pairs
}

} // verus!
