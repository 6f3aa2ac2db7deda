//! Histogram configurations: what a 1D or 2D histogram is filled from, how a
//! configuration naming column groups or brace patterns expands into one
//! histogram per source, and which expanded histograms are kept once the
//! columns of the data are known. The range and bins of a histogram are held
//! in `shape`, which the rules here carry along without reading.
use vstd::prelude::*;
use crate::cuts::{
    columns_present, cut_active, cuts_view, lemma_usable_cuts_are_kept_cuts, lemma_usable_cuts_are_usable,
    usable_spec, CutView, Cut1DView, Cuts,
};
use crate::cuts::parse_spec;
use crate::expansion::{expand_1d_spec, expand_2d_spec, expand_hist1d, expand_hist2d, pair_names_view, triples_view};
use crate::identifiers::nonempty_parts;
use crate::names::{contains_string, fill_pairs_for_merge, names_view, normalize_names_spec, normalized_axis_columns};
use crate::names::{cross, distinct_unordered, pairs_view};
use crate::sources::{resolver_view, SourceGroupResolver};
use crate::expansion::{fills_fit_in, SourceView};
use crate::text::{string_of, trim_spec, trimmed_chars};
use crate::configs::{
    columns_view, dedup_adjacent, groups_pairs, merge_column_groups, merge_columns_spec, merge_computed_columns,
    merge_groups_spec, merge_variables, merge_variables_spec, prepend_computed_columns, prepend_spec,
    sorted_unique_names, merge_adds_hist1d, merge_adds_hist2d,
};
use crate::cuts::merge_spec;
use crate::cuts::{columns_spec, sync_spec};
use crate::naming::prefixed_name;
use crate::sorting::sorted_names;

verus! {

/// A 1D cut as it is once parsed; 2D cuts are left as they are.
pub open spec fn parsed_view(c: CutView) -> CutView {
    match c {
        CutView::Cut1D(c) => CutView::Cut1D(Cut1DView { conditions: parse_spec(c.expression), ..c }),
        CutView::Cut2D(c) => CutView::Cut2D(c),
    }
}

/// Every cut as it is once parsed.
pub open spec fn parsed_all(cuts: Seq<CutView>) -> Seq<CutView> {
    cuts.map_values(|c: CutView| parsed_view(c))
}

fn parse_all(cuts: &mut Cuts)
    ensures
        final(cuts)@ == parsed_all(old(cuts)@),
{
    cuts.parse_conditions();
    assert(cuts@ =~= parsed_all(old(cuts)@));
}

/// The trimmed names that are not blank, in order.
pub open spec fn trimmed_names(names: Seq<Seq<char>>) -> Seq<Seq<char>> {
    nonempty_parts(names.map_values(|n: Seq<char>| trim_spec(n)))
}

fn trimmed_nonblank(columns: &Vec<String>) -> (r: Vec<String>)
    ensures
        names_view(r@) == trimmed_names(names_view(columns@)),
{
    let ghost t = names_view(columns@).map_values(|n: Seq<char>| trim_spec(n));
    let mut r: Vec<String> = Vec::new();
    let mut i: usize = 0;
    while i < columns.len()
        invariant
            i <= columns.len(),
            t == names_view(columns@).map_values(|n: Seq<char>| trim_spec(n)),
            names_view(r@) == nonempty_parts(t.take(i as int)),
        decreases columns.len() - i,
    {
        assert(t.take(i + 1).drop_last() =~= t.take(i as int));
        assert(t.take(i + 1).last() == trim_spec(columns@[i as int]@));
        let c = trimmed_chars(columns[i].as_str());
        if c.len() > 0 {
            let ghost before = names_view(r@);
            let s = string_of(&c);
            r.push(s);
            assert(names_view(r@) =~= before.push(c@));
        }
        i += 1;
    }
    assert(t.take(columns.len() as int) =~= t);
    r
}

/// A 1D histogram configuration: its name (with `{}` for a source's token),
/// the columns it is filled from, its range and bins (`shape`), its cuts, and
/// whether it is computed and can be interacted with.
pub struct Hist1DConfig<S> {
    pub name: String,
    pub column_name: String,
    pub additional_column_names: Vec<String>,
    pub shape: S,
    pub cuts: Cuts,
    pub calculate: bool,
    pub enabled: bool,
}

/// What a 1D histogram configuration holds.
pub struct Hist1DView<S> {
    pub name: Seq<char>,
    pub column_name: Seq<char>,
    pub additional_column_names: Seq<Seq<char>>,
    pub shape: S,
    pub cuts: Seq<CutView>,
    pub calculate: bool,
    pub enabled: bool,
}

impl<S> View for Hist1DConfig<S> {
    type V = Hist1DView<S>;

    open spec fn view(&self) -> Hist1DView<S> {
        Hist1DView {
            name: self.name@,
            column_name: self.column_name@,
            additional_column_names: names_view(self.additional_column_names@),
            shape: self.shape,
            cuts: self.cuts@,
            calculate: self.calculate,
            enabled: self.enabled,
        }
    }
}

/// The columns a 1D configuration is filled from, as written.
pub open spec fn fills_1d<S>(v: Hist1DView<S>) -> Seq<Seq<char>> {
    seq![v.column_name] + v.additional_column_names
}

/// The 1D histograms a configuration expands to: one per source, named as
/// `expand_1d_spec` names it, filled from that source's column alone.
pub open spec fn expand_1d_views<S>(v: Hist1DView<S>, groups: Seq<(Seq<char>, Seq<(Seq<char>, Option<Seq<char>>)>)>) -> Seq<
    Hist1DView<S>,
> {
    expand_1d_spec(v.name, fills_1d(v), v.calculate, groups).map_values(
        |p: (Seq<char>, Seq<char>)|
            Hist1DView { name: p.0, column_name: p.1, additional_column_names: Seq::empty(), ..v },
    )
}

/// The 1D histogram kept once the columns are known: one that is computed
/// and whose column is there, with its cuts parsed and reduced to the active
/// ones whose columns are there.
pub open spec fn validated_1d<S>(v: Hist1DView<S>, names: Seq<Seq<char>>) -> Option<Hist1DView<S>> {
    if v.calculate && names.contains(v.column_name) {
        Some(Hist1DView { cuts: parsed_all(usable_spec(parsed_all(v.cuts), names)), ..v })
    } else {
        None
    }
}


impl<S: Copy> Hist1DConfig<S> {
    /// A new configuration, computed and enabled, without cuts.
    pub fn new(name: &str, column_name: &str, shape: S) -> (r: Self)
        ensures
            r@ == (Hist1DView {
                name: name@,
                column_name: column_name@,
                additional_column_names: Seq::empty(),
                shape,
                cuts: Seq::empty(),
                calculate: true,
                enabled: true,
            }),
    {
        let r = Hist1DConfig {
            name: name.to_string(),
            column_name: column_name.to_string(),
            additional_column_names: Vec::new(),
            shape,
            cuts: Cuts::new(Vec::new()),
            calculate: true,
            enabled: true,
        };
        assert(r@.additional_column_names =~= Seq::<Seq<char>>::empty());
        assert(r@.cuts =~= Seq::<CutView>::empty());
        r
    }

    /// The columns the histogram is filled from: trimmed, blank ones dropped,
    /// repeats dropped.
    pub fn fill_columns(&self) -> (r: Vec<String>)
        ensures
            names_view(r@) == normalize_names_spec(fills_1d(self@)),
    {
        normalized_axis_columns(self.column_name.as_str(), &self.additional_column_names)
    }

    /// Sets the fill columns: trimmed and without blank ones, the first as the
    /// primary column and the rest as additional ones; none at all clears both.
    pub fn set_fill_columns(&mut self, columns: Vec<String>)
        ensures
            ({
                let t = trimmed_names(names_view(columns@));
                &&& final(self)@.column_name == (if t.len() == 0 { Seq::<char>::empty() } else { t[0] })
                &&& final(self)@.additional_column_names == (if t.len() == 0 {
                    Seq::<Seq<char>>::empty()
                } else {
                    t.drop_first()
                })
                &&& final(self)@.name == old(self)@.name
                &&& final(self)@.shape == old(self)@.shape
                &&& final(self)@.cuts == old(self)@.cuts
                &&& final(self)@.calculate == old(self)@.calculate
                &&& final(self)@.enabled == old(self)@.enabled
            }),
    {
        let mut fills = trimmed_nonblank(&columns);
        if fills.len() == 0 {
            self.column_name = String::new();
            self.additional_column_names = Vec::new();
            assert(self@.additional_column_names =~= Seq::<Seq<char>>::empty());
            return;
        }
        let ghost fv = names_view(fills@);
        let first = fills.remove(0);
        self.column_name = first;
        self.additional_column_names = fills;
        assert(names_view(self.additional_column_names@) =~= fv.drop_first());
    }

    fn copy_with(&self, name: String, column_name: String) -> (r: Self)
        ensures
            r@ == (Hist1DView { name: name@, column_name: column_name@, additional_column_names: Seq::empty(), ..self@ }),
    {
        let cuts = self.cuts.copy();
        let r = Hist1DConfig {
            name,
            column_name,
            additional_column_names: Vec::new(),
            shape: self.shape,
            cuts,
            calculate: self.calculate,
            enabled: self.enabled,
        };
        assert(r@.additional_column_names =~= Seq::<Seq<char>>::empty());
        r
    }

    /// The 1D histograms this configuration expands to; see
    /// `expand_1d_views`.
    pub fn expand(&self, resolver: &SourceGroupResolver) -> (r: Vec<Self>)
        requires
            self.calculate ==> fills_fit_in(resolver_view(resolver.groups@), fills_1d(self@)),
        ensures
            r@.map_values(|c: Self| c@) == expand_1d_views(self@, resolver_view(resolver.groups@)),
    {
        assert(fills_1d(self@) == seq![self.column_name@] + names_view(self.additional_column_names@));
        let pairs = expand_hist1d(
            self.name.as_str(),
            self.column_name.as_str(),
            &self.additional_column_names,
            self.calculate,
            resolver,
        );
        let ghost pv = pair_names_view(pairs@);
        let ghost target = expand_1d_views(self@, resolver_view(resolver.groups@));
        let mut r: Vec<Self> = Vec::new();
        let mut i: usize = 0;
        while i < pairs.len()
            invariant
                i <= pairs.len(),
                pv == pair_names_view(pairs@),
                target.len() == pv.len(),
                target == pv.map_values(
                    |p: (Seq<char>, Seq<char>)|
                        Hist1DView { name: p.0, column_name: p.1, additional_column_names: Seq::empty(), ..self@ },
                ),
                r@.map_values(|c: Self| c@) == target.take(i as int),
            decreases pairs.len() - i,
        {
            let c = self.copy_with(pairs[i].0.clone(), pairs[i].1.clone());
            let ghost before = r@.map_values(|c: Self| c@);
            r.push(c);
            assert(r@.map_values(|c: Self| c@) =~= before.push(c@));
            assert(pv[i as int] == (pairs@[i as int].0@, pairs@[i as int].1@));
            i += 1;
            assert(r@.map_values(|c: Self| c@) =~= target.take(i as int));
        }
        assert(target.take(pairs.len() as int) =~= target);
        r
    }

    /// The histogram kept once the columns are known; see `validated_1d`.
    pub fn validated(&self, column_names: &Vec<String>) -> (r: Option<Self>)
        ensures
            match r {
                Some(c) => validated_1d(self@, names_view(column_names@)) == Some(c@),
                None => validated_1d(self@, names_view(column_names@)) is None,
            },
    {
        if !self.calculate || !contains_string(column_names, &self.column_name) {
            return None;
        }
        let mut cuts = self.cuts.copy();
        parse_all(&mut cuts);
        let mut kept = cuts.usable_with_columns(column_names);
        parse_all(&mut kept);
        let r = Hist1DConfig {
            name: self.name.clone(),
            column_name: self.column_name.clone(),
            additional_column_names: copy_names(&self.additional_column_names),
            shape: self.shape,
            cuts: kept,
            calculate: self.calculate,
            enabled: self.enabled,
        };
        Some(r)
    }
}

fn copy_names(v: &Vec<String>) -> (r: Vec<String>)
    ensures
        names_view(r@) == names_view(v@),
{
    let mut r: Vec<String> = Vec::new();
    let mut i: usize = 0;
    while i < v.len()
        invariant
            i <= v.len(),
            names_view(r@) == names_view(v@).take(i as int),
        decreases v.len() - i,
    {
        let s = v[i].clone();
        let ghost before = names_view(r@);
        r.push(s);
        assert(names_view(r@) =~= before.push(s@));
        i += 1;
        assert(names_view(r@) =~= names_view(v@).take(i as int));
    }
    assert(names_view(v@).take(v.len() as int) =~= names_view(v@));
    r
}

/// A 2D histogram configuration: its name (with `{}` for the sources'
/// tokens), the columns of its two axes, its ranges and bins (`shape`), its
/// cuts, and whether it is computed and can be interacted with.
pub struct Hist2DConfig<S> {
    pub name: String,
    pub x_column_name: String,
    pub y_column_name: String,
    pub additional_x_column_names: Vec<String>,
    pub additional_y_column_names: Vec<String>,
    pub shape: S,
    pub cuts: Cuts,
    pub calculate: bool,
    pub enabled: bool,
}

/// What a 2D histogram configuration holds.
pub struct Hist2DView<S> {
    pub name: Seq<char>,
    pub x_column_name: Seq<char>,
    pub y_column_name: Seq<char>,
    pub additional_x_column_names: Seq<Seq<char>>,
    pub additional_y_column_names: Seq<Seq<char>>,
    pub shape: S,
    pub cuts: Seq<CutView>,
    pub calculate: bool,
    pub enabled: bool,
}

impl<S> View for Hist2DConfig<S> {
    type V = Hist2DView<S>;

    open spec fn view(&self) -> Hist2DView<S> {
        Hist2DView {
            name: self.name@,
            x_column_name: self.x_column_name@,
            y_column_name: self.y_column_name@,
            additional_x_column_names: names_view(self.additional_x_column_names@),
            additional_y_column_names: names_view(self.additional_y_column_names@),
            shape: self.shape,
            cuts: self.cuts@,
            calculate: self.calculate,
            enabled: self.enabled,
        }
    }
}

/// The x columns of a 2D configuration, as written.
pub open spec fn x_fills<S>(v: Hist2DView<S>) -> Seq<Seq<char>> {
    seq![v.x_column_name] + v.additional_x_column_names
}

/// The y columns of a 2D configuration, as written.
pub open spec fn y_fills<S>(v: Hist2DView<S>) -> Seq<Seq<char>> {
    seq![v.y_column_name] + v.additional_y_column_names
}

/// The 2D histograms a configuration expands to: one per pair of sources, named
/// as `expand_2d_spec` names it, filled from that pair's columns alone.
pub open spec fn expand_2d_views<S>(v: Hist2DView<S>, groups: Seq<(Seq<char>, Seq<(Seq<char>, Option<Seq<char>>)>)>) -> Seq<
    Hist2DView<S>,
> {
    expand_2d_spec(v.name, x_fills(v), y_fills(v), v.calculate, groups).map_values(
        |t: (Seq<char>, Seq<char>, Seq<char>)|
            Hist2DView {
                name: t.0,
                x_column_name: t.1,
                y_column_name: t.2,
                additional_x_column_names: Seq::empty(),
                additional_y_column_names: Seq::empty(),
                ..v
            },
    )
}

/// The 2D histogram kept once the columns are known: one that is computed and
/// whose two columns are there, with its cuts parsed and reduced to the active
/// ones whose columns are there.
pub open spec fn validated_2d<S>(v: Hist2DView<S>, names: Seq<Seq<char>>) -> Option<Hist2DView<S>> {
    if v.calculate && names.contains(v.x_column_name) && names.contains(v.y_column_name) {
        Some(Hist2DView { cuts: parsed_all(usable_spec(parsed_all(v.cuts), names)), ..v })
    } else {
        None
    }
}

impl<S: Copy> Hist2DConfig<S> {
    /// A new configuration, computed and enabled, without cuts.
    pub fn new(name: &str, x_column_name: &str, y_column_name: &str, shape: S) -> (r: Self)
        ensures
            r@ == (Hist2DView {
                name: name@,
                x_column_name: x_column_name@,
                y_column_name: y_column_name@,
                additional_x_column_names: Seq::empty(),
                additional_y_column_names: Seq::empty(),
                shape,
                cuts: Seq::empty(),
                calculate: true,
                enabled: true,
            }),
    {
        let r = Hist2DConfig {
            name: name.to_string(),
            x_column_name: x_column_name.to_string(),
            y_column_name: y_column_name.to_string(),
            additional_x_column_names: Vec::new(),
            additional_y_column_names: Vec::new(),
            shape,
            cuts: Cuts::new(Vec::new()),
            calculate: true,
            enabled: true,
        };
        assert(r@.additional_x_column_names =~= Seq::<Seq<char>>::empty());
        assert(r@.additional_y_column_names =~= Seq::<Seq<char>>::empty());
        assert(r@.cuts =~= Seq::<CutView>::empty());
        r
    }

    /// The x columns the histogram is filled from: trimmed, blank ones dropped,
    /// repeats dropped.
    pub fn x_fill_columns(&self) -> (r: Vec<String>)
        ensures
            names_view(r@) == normalize_names_spec(x_fills(self@)),
    {
        normalized_axis_columns(self.x_column_name.as_str(), &self.additional_x_column_names)
    }

    /// The y columns the histogram is filled from: trimmed, blank ones dropped,
    /// repeats dropped.
    pub fn y_fill_columns(&self) -> (r: Vec<String>)
        ensures
            names_view(r@) == normalize_names_spec(y_fills(self@)),
    {
        normalized_axis_columns(self.y_column_name.as_str(), &self.additional_y_column_names)
    }

    /// The (x, y) pairs the histogram fills, for merging; see
    /// `fill_pairs_for_merge`.
    pub fn fill_pairs_for_merge(&self) -> (r: Vec<(String, String)>)
        ensures
            pairs_view(r@) == distinct_unordered(
                cross(normalize_names_spec(x_fills(self@)), normalize_names_spec(y_fills(self@))),
            ),
    {
        let xs = self.x_fill_columns();
        let ys = self.y_fill_columns();
        fill_pairs_for_merge(&xs, &ys)
    }

    /// Sets the x columns: trimmed and without blank ones, the first as the
    /// primary column and the rest as additional ones; none at all clears both.
    pub fn set_x_fill_columns(&mut self, columns: Vec<String>)
        ensures
            ({
                let t = trimmed_names(names_view(columns@));
                &&& final(self)@.x_column_name == (if t.len() == 0 { Seq::<char>::empty() } else { t[0] })
                &&& final(self)@.additional_x_column_names == (if t.len() == 0 {
                    Seq::<Seq<char>>::empty()
                } else {
                    t.drop_first()
                })
                &&& final(self)@ == (Hist2DView {
                    x_column_name: final(self)@.x_column_name,
                    additional_x_column_names: final(self)@.additional_x_column_names,
                    ..old(self)@
                })
            }),
    {
        let mut fills = trimmed_nonblank(&columns);
        if fills.len() == 0 {
            self.x_column_name = String::new();
            self.additional_x_column_names = Vec::new();
            assert(self@.additional_x_column_names =~= Seq::<Seq<char>>::empty());
            return;
        }
        let ghost fv = names_view(fills@);
        let first = fills.remove(0);
        self.x_column_name = first;
        self.additional_x_column_names = fills;
        assert(names_view(self.additional_x_column_names@) =~= fv.drop_first());
    }

    /// Sets the y columns: trimmed and without blank ones, the first as the
    /// primary column and the rest as additional ones; none at all clears both.
    pub fn set_y_fill_columns(&mut self, columns: Vec<String>)
        ensures
            ({
                let t = trimmed_names(names_view(columns@));
                &&& final(self)@.y_column_name == (if t.len() == 0 { Seq::<char>::empty() } else { t[0] })
                &&& final(self)@.additional_y_column_names == (if t.len() == 0 {
                    Seq::<Seq<char>>::empty()
                } else {
                    t.drop_first()
                })
                &&& final(self)@ == (Hist2DView {
                    y_column_name: final(self)@.y_column_name,
                    additional_y_column_names: final(self)@.additional_y_column_names,
                    ..old(self)@
                })
            }),
    {
        let mut fills = trimmed_nonblank(&columns);
        if fills.len() == 0 {
            self.y_column_name = String::new();
            self.additional_y_column_names = Vec::new();
            assert(self@.additional_y_column_names =~= Seq::<Seq<char>>::empty());
            return;
        }
        let ghost fv = names_view(fills@);
        let first = fills.remove(0);
        self.y_column_name = first;
        self.additional_y_column_names = fills;
        assert(names_view(self.additional_y_column_names@) =~= fv.drop_first());
    }

    fn copy_with(&self, name: String, x_column_name: String, y_column_name: String) -> (r: Self)
        ensures
            r@ == (Hist2DView {
                name: name@,
                x_column_name: x_column_name@,
                y_column_name: y_column_name@,
                additional_x_column_names: Seq::empty(),
                additional_y_column_names: Seq::empty(),
                ..self@
            }),
    {
        let cuts = self.cuts.copy();
        let r = Hist2DConfig {
            name,
            x_column_name,
            y_column_name,
            additional_x_column_names: Vec::new(),
            additional_y_column_names: Vec::new(),
            shape: self.shape,
            cuts,
            calculate: self.calculate,
            enabled: self.enabled,
        };
        assert(r@.additional_x_column_names =~= Seq::<Seq<char>>::empty());
        assert(r@.additional_y_column_names =~= Seq::<Seq<char>>::empty());
        r
    }

    /// The 2D histograms this configuration expands to; see
    /// `expand_2d_views`.
    pub fn expand(&self, resolver: &SourceGroupResolver) -> (r: Vec<Self>)
        requires
            self.calculate ==> fills_fit_in(resolver_view(resolver.groups@), x_fills(self@)),
            self.calculate ==> fills_fit_in(resolver_view(resolver.groups@), y_fills(self@)),
        ensures
            r@.map_values(|c: Self| c@) == expand_2d_views(self@, resolver_view(resolver.groups@)),
    {
        assert(x_fills(self@) == seq![self.x_column_name@] + names_view(self.additional_x_column_names@));
        assert(y_fills(self@) == seq![self.y_column_name@] + names_view(self.additional_y_column_names@));
        let triples = expand_hist2d(
            self.name.as_str(),
            self.x_column_name.as_str(),
            &self.additional_x_column_names,
            self.y_column_name.as_str(),
            &self.additional_y_column_names,
            self.calculate,
            resolver,
        );
        let ghost tv = triples_view(triples@);
        let ghost target = expand_2d_views(self@, resolver_view(resolver.groups@));
        let mut r: Vec<Self> = Vec::new();
        let mut i: usize = 0;
        while i < triples.len()
            invariant
                i <= triples.len(),
                tv == triples_view(triples@),
                target.len() == tv.len(),
                target == tv.map_values(
                    |t: (Seq<char>, Seq<char>, Seq<char>)|
                        Hist2DView {
                            name: t.0,
                            x_column_name: t.1,
                            y_column_name: t.2,
                            additional_x_column_names: Seq::empty(),
                            additional_y_column_names: Seq::empty(),
                            ..self@
                        },
                ),
                r@.map_values(|c: Self| c@) == target.take(i as int),
            decreases triples.len() - i,
        {
            let c = self.copy_with(triples[i].0.clone(), triples[i].1.clone(), triples[i].2.clone());
            let ghost before = r@.map_values(|c: Self| c@);
            r.push(c);
            assert(r@.map_values(|c: Self| c@) =~= before.push(c@));
            assert(tv[i as int] == (triples@[i as int].0@, triples@[i as int].1@, triples@[i as int].2@));
            i += 1;
            assert(r@.map_values(|c: Self| c@) =~= target.take(i as int));
        }
        assert(target.take(triples.len() as int) =~= target);
        r
    }

    /// The histogram kept once the columns are known; see `validated_2d`.
    pub fn validated(&self, column_names: &Vec<String>) -> (r: Option<Self>)
        ensures
            match r {
                Some(c) => validated_2d(self@, names_view(column_names@)) == Some(c@),
                None => validated_2d(self@, names_view(column_names@)) is None,
            },
    {
        if !self.calculate || !contains_string(column_names, &self.x_column_name) || !contains_string(
            column_names,
            &self.y_column_name,
        ) {
            return None;
        }
        let mut cuts = self.cuts.copy();
        parse_all(&mut cuts);
        let mut kept = cuts.usable_with_columns(column_names);
        parse_all(&mut kept);
        let r = Hist2DConfig {
            name: self.name.clone(),
            x_column_name: self.x_column_name.clone(),
            y_column_name: self.y_column_name.clone(),
            additional_x_column_names: copy_names(&self.additional_x_column_names),
            additional_y_column_names: copy_names(&self.additional_y_column_names),
            shape: self.shape,
            cuts: kept,
            calculate: self.calculate,
            enabled: self.enabled,
        };
        Some(r)
    }
}

/// A histogram configuration of either kind.
pub enum Config<A, B> {
    Hist1D(Hist1DConfig<A>),
    Hist2D(Hist2DConfig<B>),
}

/// What a histogram configuration of either kind holds.
pub enum ConfigView<A, B> {
    Hist1D(Hist1DView<A>),
    Hist2D(Hist2DView<B>),
}

impl<A, B> View for Config<A, B> {
    type V = ConfigView<A, B>;

    open spec fn view(&self) -> ConfigView<A, B> {
        match self {
            Config::Hist1D(c) => ConfigView::Hist1D(c@),
            Config::Hist2D(c) => ConfigView::Hist2D(c@),
        }
    }
}

/// The views of a list of configurations.
pub open spec fn configs_view<A, B>(configs: Seq<Config<A, B>>) -> Seq<ConfigView<A, B>> {
    configs.map_values(|c: Config<A, B>| c@)
}

/// Expanding one configuration against the resolved groups reads every
/// number without failing: it is not computed (and is not expanded), or each
/// of its fill columns names a group or has `range_fits`.
pub open spec fn config_fits_in<A, B>(c: ConfigView<A, B>, groups: Seq<(Seq<char>, Seq<SourceView>)>) -> bool {
    match c {
        ConfigView::Hist1D(v) => v.calculate ==> fills_fit_in(groups, fills_1d(v)),
        ConfigView::Hist2D(v) => v.calculate ==> fills_fit_in(groups, x_fills(v)) && fills_fit_in(groups, y_fills(v)),
    }
}

/// Expanding every configuration against the resolved groups reads every
/// number without failing; see `config_fits_in`.
pub open spec fn configs_fit<A, B>(configs: Seq<ConfigView<A, B>>, groups: Seq<(Seq<char>, Seq<SourceView>)>) -> bool {
    forall|i: int| 0 <= i < configs.len() ==> config_fits_in(#[trigger] configs[i], groups)
}

/// The configurations one configuration expands to.
pub open spec fn expand_one<A, B>(
    c: ConfigView<A, B>,
    groups: Seq<(Seq<char>, Seq<(Seq<char>, Option<Seq<char>>)>)>,
) -> Seq<ConfigView<A, B>> {
    match c {
        ConfigView::Hist1D(v) => expand_1d_views(v, groups).map_values(|e: Hist1DView<A>| ConfigView::<A, B>::Hist1D(e)),
        ConfigView::Hist2D(v) => expand_2d_views(v, groups).map_values(|e: Hist2DView<B>| ConfigView::<A, B>::Hist2D(e)),
    }
}

/// Every configuration expanded, in order.
pub open spec fn expand_all<A, B>(
    configs: Seq<ConfigView<A, B>>,
    groups: Seq<(Seq<char>, Seq<(Seq<char>, Option<Seq<char>>)>)>,
) -> Seq<ConfigView<A, B>>
    decreases configs.len(),
{
    if configs.len() == 0 {
        Seq::empty()
    } else {
        expand_all(configs.drop_last(), groups) + expand_one(configs.last(), groups)
    }
}

/// A configuration kept once the columns are known; see `validated_1d` and
/// `validated_2d`.
pub open spec fn validated_one<A, B>(c: ConfigView<A, B>, names: Seq<Seq<char>>) -> Option<ConfigView<A, B>> {
    match c {
        ConfigView::Hist1D(v) => match validated_1d(v, names) {
            Some(w) => Some(ConfigView::Hist1D(w)),
            None => None,
        },
        ConfigView::Hist2D(v) => match validated_2d(v, names) {
            Some(w) => Some(ConfigView::Hist2D(w)),
            None => None,
        },
    }
}

/// The configurations kept, in order.
pub open spec fn keep_valid<A, B>(configs: Seq<ConfigView<A, B>>, names: Seq<Seq<char>>) -> Seq<ConfigView<A, B>>
    decreases configs.len(),
{
    if configs.len() == 0 {
        Seq::empty()
    } else {
        let prev = keep_valid(configs.drop_last(), names);
        match validated_one(configs.last(), names) {
            Some(c) => prev.push(c),
            None => prev,
        }
    }
}

fn expand_config<A: Copy, B: Copy>(c: &Config<A, B>, resolver: &SourceGroupResolver, out: &mut Vec<Config<A, B>>)
    requires
        config_fits_in(c@, resolver_view(resolver.groups@)),
    ensures
        configs_view(final(out)@) == configs_view(old(out)@) + expand_one(c@, resolver_view(resolver.groups@)),
{
    let ghost start = configs_view(out@);
    let ghost groups = resolver_view(resolver.groups@);
    match c {
        Config::Hist1D(h) => {
            let mut expanded = h.expand(resolver);
            let ghost ev = expanded@.map_values(|e: Hist1DConfig<A>| e@);
            let ghost add = ev.map_values(|e: Hist1DView<A>| ConfigView::<A, B>::Hist1D(e));
            let n = expanded.len();
            let mut i: usize = 0;
            while i < n
                invariant
                    i <= n,
                    expanded.len() == n - i,
                    ev.len() == n,
                    expanded@.map_values(|e: Hist1DConfig<A>| e@) == ev.skip(i as int),
                    configs_view(out@) == start + add.take(i as int),
                    add == ev.map_values(|e: Hist1DView<A>| ConfigView::<A, B>::Hist1D(e)),
                decreases n - i,
            {
                let ghost old_exp = expanded@;
                assert(old_exp.map_values(|e: Hist1DConfig<A>| e@)[0] == ev.skip(i as int)[0]);
                let e = expanded.remove(0);
                assert(e == old_exp[0]);
                assert(e@ == ev[i as int]);
                assert(expanded@ =~= old_exp.drop_first());
                assert(expanded@.map_values(|e: Hist1DConfig<A>| e@) =~= old_exp.map_values(|e: Hist1DConfig<A>| e@).drop_first());
                let ghost before = configs_view(out@);
                let item = Config::Hist1D(e);
                out.push(item);
                assert(configs_view(out@) =~= before.push(item@));
                assert(expanded@.map_values(|e: Hist1DConfig<A>| e@) =~= ev.skip(i + 1));
                i += 1;
                assert(configs_view(out@) =~= start + add.take(i as int));
            }
            assert(add.take(n as int) =~= add);
        },
        Config::Hist2D(h) => {
            let mut expanded = h.expand(resolver);
            let ghost ev = expanded@.map_values(|e: Hist2DConfig<B>| e@);
            let ghost add = ev.map_values(|e: Hist2DView<B>| ConfigView::<A, B>::Hist2D(e));
            let n = expanded.len();
            let mut i: usize = 0;
            while i < n
                invariant
                    i <= n,
                    expanded.len() == n - i,
                    ev.len() == n,
                    expanded@.map_values(|e: Hist2DConfig<B>| e@) == ev.skip(i as int),
                    configs_view(out@) == start + add.take(i as int),
                    add == ev.map_values(|e: Hist2DView<B>| ConfigView::<A, B>::Hist2D(e)),
                decreases n - i,
            {
                let ghost old_exp = expanded@;
                assert(old_exp.map_values(|e: Hist2DConfig<B>| e@)[0] == ev.skip(i as int)[0]);
                let e = expanded.remove(0);
                assert(e == old_exp[0]);
                assert(e@ == ev[i as int]);
                assert(expanded@ =~= old_exp.drop_first());
                assert(expanded@.map_values(|e: Hist2DConfig<B>| e@) =~= old_exp.map_values(|e: Hist2DConfig<B>| e@).drop_first());
                let ghost before = configs_view(out@);
                let item = Config::Hist2D(e);
                out.push(item);
                assert(configs_view(out@) =~= before.push(item@));
                assert(expanded@.map_values(|e: Hist2DConfig<B>| e@) =~= ev.skip(i + 1));
                i += 1;
                assert(configs_view(out@) =~= start + add.take(i as int));
            }
            assert(add.take(n as int) =~= add);
        },
    }
}

/// Every configuration expanded over the column groups and brace patterns its
/// sources name, in order; see `expand_all`.
pub fn expand_configs<A: Copy, B: Copy>(configs: &Vec<Config<A, B>>, resolver: &SourceGroupResolver) -> (r: Vec<Config<A, B>>)
    requires
        configs_fit(configs_view(configs@), resolver_view(resolver.groups@)),
    ensures
        configs_view(r@) == expand_all(configs_view(configs@), resolver_view(resolver.groups@)),
{
    let ghost cv = configs_view(configs@);
    let ghost groups = resolver_view(resolver.groups@);
    let mut out: Vec<Config<A, B>> = Vec::new();
    let mut i: usize = 0;
    assert(configs_view(out@) =~= Seq::<ConfigView<A, B>>::empty());
    while i < configs.len()
        invariant
            i <= configs.len(),
            cv == configs_view(configs@),
            groups == resolver_view(resolver.groups@),
            configs_fit(cv, groups),
            configs_view(out@) == expand_all(cv.take(i as int), groups),
        decreases configs.len() - i,
    {
        assert(cv.take(i + 1).drop_last() =~= cv.take(i as int));
        assert(cv.take(i + 1).last() == configs@[i as int]@);
        assert(cv[i as int] == configs@[i as int]@);
        expand_config(&configs[i], resolver, &mut out);
        i += 1;
    }
    assert(cv.take(configs.len() as int) =~= cv);
    out
}

/// The expanded configurations kept once the columns of the data are known:
/// every configuration is expanded, then each expansion is kept when it is
/// computed and its columns are there, with its cuts parsed and reduced to
/// the active ones whose columns are there.
pub fn valid_histogram_configs<A: Copy, B: Copy>(
    configs: &Vec<Config<A, B>>,
    resolver: &SourceGroupResolver,
    column_names: &Vec<String>,
) -> (r: Vec<Config<A, B>>)
    requires
        configs_fit(configs_view(configs@), resolver_view(resolver.groups@)),
    ensures
        configs_view(r@) == keep_valid(
            expand_all(configs_view(configs@), resolver_view(resolver.groups@)),
            names_view(column_names@),
        ),
{
    let expanded = expand_configs(configs, resolver);
    let ghost ev = configs_view(expanded@);
    let ghost nv = names_view(column_names@);
    let mut out: Vec<Config<A, B>> = Vec::new();
    let mut i: usize = 0;
    assert(configs_view(out@) =~= Seq::<ConfigView<A, B>>::empty());
    while i < expanded.len()
        invariant
            i <= expanded.len(),
            ev == configs_view(expanded@),
            nv == names_view(column_names@),
            configs_view(out@) == keep_valid(ev.take(i as int), nv),
        decreases expanded.len() - i,
    {
        assert(ev.take(i + 1).drop_last() =~= ev.take(i as int));
        assert(ev.take(i + 1).last() == expanded@[i as int]@);
        let kept = match &expanded[i] {
            Config::Hist1D(h) => match h.validated(column_names) {
                Some(v) => Some(Config::Hist1D(v)),
                None => None,
            },
            Config::Hist2D(h) => match h.validated(column_names) {
                Some(v) => Some(Config::Hist2D(v)),
                None => None,
            },
        };
        match kept {
            Some(c) => {
                let ghost before = configs_view(out@);
                out.push(c);
                assert(configs_view(out@) =~= before.push(c@));
            },
            None => {},
        }
        i += 1;
    }
    assert(ev.take(expanded.len() as int) =~= ev);
    out
}

/// Every cut of the list is active and reads only columns that are there.
pub open spec fn cuts_usable(cuts: Seq<CutView>, names: Seq<Seq<char>>) -> bool {
    forall|i: int| 0 <= i < cuts.len() ==> cut_active(#[trigger] cuts[i]) && columns_present(cuts[i], names)
}

proof fn lemma_kept_cuts_usable(cuts: Seq<CutView>, names: Seq<Seq<char>>)
    ensures
        cuts_usable(parsed_all(usable_spec(parsed_all(cuts), names)), names),
{
    let p = parsed_all(cuts);
    let u = usable_spec(p, names);
    lemma_usable_cuts_are_usable(p, names);
    lemma_usable_cuts_are_kept_cuts(p, names);
    assert forall|i: int| 0 <= i < u.len() implies parsed_view(#[trigger] u[i]) == u[i] by {
        let k = choose|k: int| 0 <= k < p.len() && p[k] == u[i];
        assert(p[k] == parsed_view(cuts[k]));
    }
    assert(parsed_all(u) =~= u);
}

/// Every histogram kept once the columns are known is computed, is filled
/// from columns that are there, and keeps only active cuts whose columns are
/// there.
pub proof fn lemma_valid_configs_are_fillable<A, B>(configs: Seq<ConfigView<A, B>>, names: Seq<Seq<char>>)
    ensures
        forall|i: int|
            0 <= i < keep_valid(configs, names).len() ==> match #[trigger] keep_valid(configs, names)[i] {
                ConfigView::Hist1D(v) => v.calculate && names.contains(v.column_name) && cuts_usable(v.cuts, names),
                ConfigView::Hist2D(v) => v.calculate && names.contains(v.x_column_name) && names.contains(
                    v.y_column_name,
                ) && cuts_usable(v.cuts, names),
            },
    decreases configs.len(),
{
    if configs.len() > 0 {
        lemma_valid_configs_are_fillable(configs.drop_last(), names);
        let prev = keep_valid(configs.drop_last(), names);
        let r = keep_valid(configs, names);
        match configs.last() {
            ConfigView::Hist1D(v) => lemma_kept_cuts_usable(v.cuts, names),
            ConfigView::Hist2D(v) => lemma_kept_cuts_usable(v.cuts, names),
        }
        assert forall|i: int| 0 <= i < r.len() implies match #[trigger] r[i] {
            ConfigView::Hist1D(v) => v.calculate && names.contains(v.column_name) && cuts_usable(v.cuts, names),
            ConfigView::Hist2D(v) => v.calculate && names.contains(v.x_column_name) && names.contains(
                v.y_column_name,
            ) && cuts_usable(v.cuts, names),
        } by {
            if i < prev.len() {
                assert(r[i] == prev[i]);
            }
        }
    }
}

/// A set of histogram configurations with what they draw on: computed
/// columns as (expression, alias) pairs, named variables, column groups and
/// cuts. `A` and `B` hold the ranges and bins of 1D and 2D histograms, `V` the
/// value of a variable.
pub struct Configs<A, B, V> {
    pub configs: Vec<Config<A, B>>,
    pub columns: Vec<(String, String)>,
    pub variables: Vec<(String, V)>,
    pub column_groups: Vec<crate::names::ColumnGroup>,
    pub cuts: Cuts,
}

/// The columns one configuration reads: its fill columns (normalized), then
/// the columns of its cuts.
pub open spec fn used_by<A, B>(c: ConfigView<A, B>) -> Seq<Seq<char>> {
    match c {
        ConfigView::Hist1D(v) => normalize_names_spec(fills_1d(v)) + columns_spec(v.cuts),
        ConfigView::Hist2D(v) => normalize_names_spec(x_fills(v)) + normalize_names_spec(y_fills(v)) + columns_spec(
            v.cuts,
        ),
    }
}

/// The columns every configuration reads, configuration after configuration.
pub open spec fn used_columns_spec<A, B>(configs: Seq<ConfigView<A, B>>) -> Seq<Seq<char>>
    decreases configs.len(),
{
    if configs.len() == 0 {
        Seq::empty()
    } else {
        used_columns_spec(configs.drop_last()) + used_by(configs.last())
    }
}

/// A configuration with its name put under `prefix`.
pub open spec fn prefixed<A, B>(c: ConfigView<A, B>, prefix: Seq<char>) -> ConfigView<A, B> {
    match c {
        ConfigView::Hist1D(v) => ConfigView::Hist1D(Hist1DView { name: prefix + seq!['/'] + v.name, ..v }),
        ConfigView::Hist2D(v) => ConfigView::Hist2D(Hist2DView { name: prefix + seq!['/'] + v.name, ..v }),
    }
}

/// A configuration with its cuts brought in line with the cuts on offer.
pub open spec fn synced<A, B>(c: ConfigView<A, B>, offered: Seq<CutView>) -> ConfigView<A, B> {
    match c {
        ConfigView::Hist1D(v) => ConfigView::Hist1D(Hist1DView { cuts: sync_spec(v.cuts, offered), ..v }),
        ConfigView::Hist2D(v) => ConfigView::Hist2D(Hist2DView { cuts: sync_spec(v.cuts, offered), ..v }),
    }
}

fn append_names(out: &mut Vec<String>, mut more: Vec<String>)
    ensures
        names_view(final(out)@) == names_view(old(out)@) + names_view(more@),
{
    let ghost a = names_view(out@);
    let ghost b = names_view(more@);
    out.append(&mut more);
    assert(names_view(out@) =~= a + b);
}

impl<A: Copy, B: Copy, V> Configs<A, B, V> {
    /// Adds a 1D histogram filled from `column_name`, with a copy of `cuts`
    /// when there are any.
    pub fn hist1d(&mut self, name: &str, column_name: &str, shape: A, cuts: &Option<Cuts>)
        ensures
            final(self).configs@.len() == old(self).configs@.len() + 1,
            configs_view(final(self).configs@).drop_last() == configs_view(old(self).configs@),
            configs_view(final(self).configs@).last() == ConfigView::<A, B>::Hist1D(
                Hist1DView {
                    name: name@,
                    column_name: column_name@,
                    additional_column_names: Seq::empty(),
                    shape,
                    cuts: match cuts {
                        Some(c) => c@,
                        None => Seq::empty(),
                    },
                    calculate: true,
                    enabled: true,
                },
            ),
    {
        let mut config = Hist1DConfig::new(name, column_name, shape);
        if let Some(c) = cuts {
            config.cuts = c.copy();
        }
        let ghost before = configs_view(self.configs@);
        let item = Config::Hist1D(config);
        self.configs.push(item);
        assert(configs_view(self.configs@) =~= before.push(item@));
    }

    /// Adds a 2D histogram filled from `x_column_name` and `y_column_name`,
    /// with a copy of `cuts` when there are any.
    pub fn hist2d(&mut self, name: &str, x_column_name: &str, y_column_name: &str, shape: B, cuts: &Option<Cuts>)
        ensures
            final(self).configs@.len() == old(self).configs@.len() + 1,
            configs_view(final(self).configs@).drop_last() == configs_view(old(self).configs@),
            configs_view(final(self).configs@).last() == ConfigView::<A, B>::Hist2D(
                Hist2DView {
                    name: name@,
                    x_column_name: x_column_name@,
                    y_column_name: y_column_name@,
                    additional_x_column_names: Seq::empty(),
                    additional_y_column_names: Seq::empty(),
                    shape,
                    cuts: match cuts {
                        Some(c) => c@,
                        None => Seq::empty(),
                    },
                    calculate: true,
                    enabled: true,
                },
            ),
    {
        let mut config = Hist2DConfig::new(name, x_column_name, y_column_name, shape);
        if let Some(c) = cuts {
            config.cuts = c.copy();
        }
        let ghost before = configs_view(self.configs@);
        let item = Config::Hist2D(config);
        self.configs.push(item);
        assert(configs_view(self.configs@) =~= before.push(item@));
    }

    /// Whether there is no histogram configuration.
    pub fn is_empty(&self) -> (r: bool)
        ensures
            r == (self.configs.len() == 0),
    {
        self.configs.len() == 0
    }

    /// Puts calibration columns in front of the computed columns; see
    /// `prepend_computed_columns`.
    pub fn prepend_computed_columns(&mut self, computed_columns: Vec<(String, String)>)
        ensures
            columns_view(final(self).columns@) == prepend_spec(
                columns_view(old(self).columns@),
                columns_view(computed_columns@),
            ),
            final(self).configs@ == old(self).configs@,
            final(self).variables@ == old(self).variables@,
            final(self).column_groups@ == old(self).column_groups@,
            final(self).cuts@ == old(self).cuts@,
    {
        prepend_computed_columns(&mut self.columns, computed_columns);
    }

    /// The columns the configurations read, sorted, each once.
    pub fn get_used_columns(&self) -> (r: Vec<String>)
        ensures
            names_view(r@) == dedup_adjacent(sorted_names(used_columns_spec(configs_view(self.configs@)))),
    {
        let ghost cv = configs_view(self.configs@);
        let mut used: Vec<String> = Vec::new();
        let mut i: usize = 0;
        assert(names_view(used@) =~= Seq::<Seq<char>>::empty());
        while i < self.configs.len()
            invariant
                i <= self.configs.len(),
                cv == configs_view(self.configs@),
                names_view(used@) == used_columns_spec(cv.take(i as int)),
            decreases self.configs.len() - i,
        {
            assert(cv.take(i + 1).drop_last() =~= cv.take(i as int));
            assert(cv.take(i + 1).last() == self.configs@[i as int]@);
            match &self.configs[i] {
                Config::Hist1D(h) => {
                    append_names(&mut used, h.fill_columns());
                    append_names(&mut used, h.cuts.required_columns());
                },
                Config::Hist2D(h) => {
                    append_names(&mut used, h.x_fill_columns());
                    append_names(&mut used, h.y_fill_columns());
                    append_names(&mut used, h.cuts.required_columns());
                },
            }
            i += 1;
        }
        assert(cv.take(self.configs.len() as int) =~= cv);
        sorted_unique_names(&used)
    }

    /// Puts every histogram under the folder `prefix`: each name becomes
    /// `<prefix>/<name>`.
    pub fn set_prefix(&mut self, prefix: &str)
        ensures
            configs_view(final(self).configs@) == configs_view(old(self).configs@).map_values(
                |c: ConfigView<A, B>| prefixed(c, prefix@),
            ),
    {
        let ghost start = configs_view(self.configs@);
        let mut rest: Vec<Config<A, B>> = Vec::new();
        std::mem::swap(&mut rest, &mut self.configs);
        let n = rest.len();
        let mut i: usize = 0;
        assert(configs_view(self.configs@) =~= Seq::<ConfigView<A, B>>::empty());
        while i < n
            invariant
                i <= n == start.len(),
                rest.len() == n - i,
                configs_view(rest@) == start.skip(i as int),
                configs_view(self.configs@) == start.take(i as int).map_values(
                    |c: ConfigView<A, B>| prefixed(c, prefix@),
                ),
            decreases n - i,
        {
            let ghost old_rest = rest@;
            assert(configs_view(old_rest)[0] == start[i as int]);
            let c = rest.remove(0);
            assert(rest@ =~= old_rest.drop_first());
            assert(configs_view(rest@) =~= configs_view(old_rest).drop_first());
            assert(configs_view(rest@) =~= start.skip(i + 1));
            let renamed = match c {
                Config::Hist1D(mut h) => {
                    h.name = prefixed_name(prefix, h.name.as_str());
                    Config::Hist1D(h)
                },
                Config::Hist2D(mut h) => {
                    h.name = prefixed_name(prefix, h.name.as_str());
                    Config::Hist2D(h)
                },
            };
            assert(renamed@ == prefixed(start[i as int], prefix@));
            let ghost before = configs_view(self.configs@);
            self.configs.push(renamed);
            assert(configs_view(self.configs@) =~= before.push(renamed@));
            i += 1;
            assert(configs_view(self.configs@) =~= start.take(i as int).map_values(
                |c: ConfigView<A, B>| prefixed(c, prefix@),
            ));
        }
        assert(start.take(n as int) =~= start);
    }

    /// Brings the cuts of every histogram in line with the cuts on offer; see
    /// `Cuts::sync_with`.
    pub fn sync_histogram_cuts(&mut self, available_cuts: &Cuts)
        ensures
            configs_view(final(self).configs@) == configs_view(old(self).configs@).map_values(
                |c: ConfigView<A, B>| synced(c, available_cuts@),
            ),
    {
        let ghost start = configs_view(self.configs@);
        let mut rest: Vec<Config<A, B>> = Vec::new();
        std::mem::swap(&mut rest, &mut self.configs);
        let n = rest.len();
        let mut i: usize = 0;
        assert(configs_view(self.configs@) =~= Seq::<ConfigView<A, B>>::empty());
        while i < n
            invariant
                i <= n == start.len(),
                rest.len() == n - i,
                configs_view(rest@) == start.skip(i as int),
                configs_view(self.configs@) == start.take(i as int).map_values(
                    |c: ConfigView<A, B>| synced(c, available_cuts@),
                ),
            decreases n - i,
        {
            let ghost old_rest = rest@;
            assert(configs_view(old_rest)[0] == start[i as int]);
            let c = rest.remove(0);
            assert(rest@ =~= old_rest.drop_first());
            assert(configs_view(rest@) =~= configs_view(old_rest).drop_first());
            assert(configs_view(rest@) =~= start.skip(i + 1));
            let updated = match c {
                Config::Hist1D(mut h) => {
                    h.cuts.sync_with(available_cuts);
                    Config::Hist1D(h)
                },
                Config::Hist2D(mut h) => {
                    h.cuts.sync_with(available_cuts);
                    Config::Hist2D(h)
                },
            };
            assert(updated@ == synced(start[i as int], available_cuts@));
            let ghost before = configs_view(self.configs@);
            self.configs.push(updated);
            assert(configs_view(self.configs@) =~= before.push(updated@));
            i += 1;
            assert(configs_view(self.configs@) =~= start.take(i as int).map_values(
                |c: ConfigView<A, B>| synced(c, available_cuts@),
            ));
        }
        assert(start.take(n as int) =~= start);
    }

    /// Merges the definitions of `other` in: its computed columns, variables
    /// and column groups whose alias or name is not taken, and its cuts whose
    /// name is not taken (see `merge_computed_columns`, `merge_variables`,
    /// `merge_column_groups` and `Cuts::merge`). The histogram configurations
    /// are left as they are.
    pub fn merge_definitions(&mut self, other: Configs<A, B, V>)
        ensures
            columns_view(final(self).columns@) == merge_columns_spec(
                columns_view(old(self).columns@),
                columns_view(other.columns@),
            ),
            final(self).variables@ == merge_variables_spec(old(self).variables@, other.variables@),
            groups_pairs(final(self).column_groups@) == merge_groups_spec(
                groups_pairs(old(self).column_groups@),
                groups_pairs(other.column_groups@),
            ),
            final(self).cuts@ == merge_spec(old(self).cuts@, other.cuts@),
            final(self).configs@ == old(self).configs@,
    {
        merge_computed_columns(&mut self.columns, other.columns);
        merge_variables(&mut self.variables, other.variables);
        merge_column_groups(&mut self.column_groups, &other.column_groups);
        self.cuts.merge(&other.cuts);
    }

    /// The configurations expanded over the column groups and brace patterns
    /// their sources name; see `expand_configs`.
    pub fn expand(&self, available_columns: &Vec<String>) -> (r: Vec<Config<A, B>>)
        requires
            crate::sources::resolver_fit(
                self.column_groups@.map_values(|g: crate::names::ColumnGroup| crate::sources::group_view(g)),
                names_view(available_columns@),
            ),
            configs_fit(
                configs_view(self.configs@),
                crate::sources::resolver_state(
                    self.column_groups@.map_values(|g: crate::names::ColumnGroup| crate::sources::group_view(g)),
                    names_view(available_columns@),
                ).0,
            ),
        ensures
            configs_view(r@) == expand_all(
                configs_view(self.configs@),
                crate::sources::resolver_state(
                    self.column_groups@.map_values(|g: crate::names::ColumnGroup| crate::sources::group_view(g)),
                    names_view(available_columns@),
                ).0,
            ),
    {
        let resolver = crate::sources::build_source_group_resolver_for_columns(&self.column_groups, available_columns);
        expand_configs(&self.configs, &resolver)
    }
}

fn clone_pairs(v: &Vec<(String, String)>) -> (r: Vec<(String, String)>)
    ensures
        r@ == v@,
{
    let mut r: Vec<(String, String)> = Vec::new();
    let mut i: usize = 0;
    while i < v.len()
        invariant
            i <= v.len(),
            r@ == v@.take(i as int),
        decreases v.len() - i,
    {
        r.push((v[i].0.clone(), v[i].1.clone()));
        assert(r@ =~= v@.take(i + 1));
        i += 1;
    }
    assert(v@.take(v.len() as int) =~= v@);
    r
}

fn clone_strings(v: &Vec<String>) -> (r: Vec<String>)
    ensures
        r@ == v@,
{
    let mut r: Vec<String> = Vec::new();
    let mut i: usize = 0;
    while i < v.len()
        invariant
            i <= v.len(),
            r@ == v@.take(i as int),
        decreases v.len() - i,
    {
        r.push(v[i].clone());
        assert(r@ =~= v@.take(i + 1));
        i += 1;
    }
    assert(v@.take(v.len() as int) =~= v@);
    r
}

fn clone_groups(v: &Vec<crate::names::ColumnGroup>) -> (r: Vec<crate::names::ColumnGroup>)
    ensures
        crate::computed::groups_view(r@) == crate::computed::groups_view(v@),
{
    let ghost gv = crate::computed::groups_view(v@);
    let mut r: Vec<crate::names::ColumnGroup> = Vec::new();
    let mut i: usize = 0;
    while i < v.len()
        invariant
            i <= v.len(),
            gv == crate::computed::groups_view(v@),
            crate::computed::groups_view(r@) == gv.take(i as int),
        decreases v.len() - i,
    {
        let g = crate::names::ColumnGroup { alias: v[i].alias.clone(), column_names: clone_strings(&v[i].column_names) };
        let ghost before = crate::computed::groups_view(r@);
        r.push(g);
        assert(crate::computed::groups_view(r@) =~= before.push(crate::sources::group_view(g)));
        assert(crate::computed::groups_view(r@) =~= gv.take(i + 1));
        i += 1;
    }
    assert(gv.take(v.len() as int) =~= gv);
    r
}

fn names_of_pairs<V>(v: &Vec<(String, V)>) -> (r: Vec<String>)
    ensures
        names_view(r@) == crate::configs::pair_names(v@),
{
    let mut r: Vec<String> = Vec::new();
    let mut i: usize = 0;
    while i < v.len()
        invariant
            i <= v.len(),
            names_view(r@) == crate::configs::pair_names(v@).take(i as int),
        decreases v.len() - i,
    {
        let ghost before = names_view(r@);
        r.push(v[i].0.clone());
        assert(names_view(r@) =~= before.push(v@[i as int].0@));
        assert(names_view(r@) =~= crate::configs::pair_names(v@).take(i + 1));
        i += 1;
    }
    assert(crate::configs::pair_names(v@).take(v.len() as int) =~= crate::configs::pair_names(v@));
    r
}

/// The variables kept when the configurations are checked against the
/// columns `names`: those that may be used beside the columns and the aliases
/// of every computed column to come; see `valid_variables_spec`.
pub open spec fn checked_variables<V>(
    names: Seq<Seq<char>>,
    columns: Seq<(Seq<char>, Seq<char>)>,
    groups: Seq<(Seq<char>, Seq<Seq<char>>)>,
    variables: Seq<(String, V)>,
) -> Seq<(String, V)> {
    let future = crate::computed::collect_state(names, columns, groups, crate::configs::pair_names(variables)).2;
    crate::configs::valid_variables_spec(variables, names, future)
}

/// The columns and the computed columns added when the configurations are
/// checked against the columns `names`; see `plan_state`.
pub open spec fn checked_plan<V>(
    names: Seq<Seq<char>>,
    columns: Seq<(Seq<char>, Seq<char>)>,
    groups: Seq<(Seq<char>, Seq<Seq<char>>)>,
    variables: Seq<(String, V)>,
) -> crate::column_plan::PlanState {
    crate::column_plan::plan_state(
        names,
        columns,
        groups,
        crate::configs::pair_names(checked_variables(names, columns, groups, variables)),
    )
}

/// Checking the configurations against the columns `names` reads every
/// number without failing and names no over-long group alias: collecting the
/// computed columns' aliases (see `collect_fit`), adding the computed columns
/// with the variables kept (see `plan_fit`), resolving the groups against the
/// columns then there (see `resolver_fit`), and expanding the configurations
/// against them (see `configs_fit`).
pub open spec fn valid_configs_fit<A, B, V>(
    names: Seq<Seq<char>>,
    columns: Seq<(Seq<char>, Seq<char>)>,
    groups: Seq<(Seq<char>, Seq<Seq<char>>)>,
    configs: Seq<ConfigView<A, B>>,
    variables: Seq<(String, V)>,
) -> bool {
    let plan = checked_plan(names, columns, groups, variables);
    &&& crate::computed::collect_fit(names, columns, groups, crate::configs::pair_names(variables))
    &&& crate::column_plan::plan_fit(
        names,
        columns,
        groups,
        crate::configs::pair_names(checked_variables(names, columns, groups, variables)),
    )
    &&& crate::sources::resolver_fit(groups, plan.0)
    &&& configs_fit(configs, crate::sources::resolver_state(groups, plan.0).0)
}

impl<A: Copy, B: Copy, V: Copy> Configs<A, B, V> {
    /// Checks the configurations against the columns `column_names` of the
    /// data. The variables that may be used are kept; the computed columns are
    /// added where they can be (returned in order as expression trees with
    /// their aliases), and their new aliases join the columns; the cuts are
    /// parsed; every configuration is expanded against the columns and kept
    /// when it is computed and its columns are there, with its active cuts
    /// whose columns are there; and the cuts whose columns are there are kept,
    /// each name once. The computed columns and column groups are carried
    /// over; the cuts of `self` are left parsed.
    pub fn valid_configs(&mut self, column_names: &Vec<String>) -> (r: (Configs<A, B, V>, Vec<(crate::expr_parser::ExprTree, String)>))
        requires
            valid_configs_fit(
                names_view(column_names@),
                columns_view(old(self).columns@),
                crate::computed::groups_view(old(self).column_groups@),
                configs_view(old(self).configs@),
                old(self).variables@,
            ),
        ensures
            ({
                let names = names_view(column_names@);
                let cols = columns_view(old(self).columns@);
                let groups = crate::computed::groups_view(old(self).column_groups@);
                let plan = checked_plan(names, cols, groups, old(self).variables@);
                &&& r.0.variables@ == checked_variables(names, cols, groups, old(self).variables@)
                &&& crate::column_plan::additions_view(r.1@) == plan.1
                &&& configs_view(r.0.configs@) == keep_valid(
                    expand_all(configs_view(old(self).configs@), crate::sources::resolver_state(groups, plan.0).0),
                    plan.0,
                )
                &&& r.0.cuts@ == crate::cuts::available_spec(parsed_all(old(self).cuts@), plan.0)
                &&& r.0.columns@ == old(self).columns@
                &&& crate::computed::groups_view(r.0.column_groups@) == groups
            }),
            final(self).cuts@ == parsed_all(old(self).cuts@),
            final(self).configs@ == old(self).configs@,
            final(self).columns@ == old(self).columns@,
            final(self).variables@ == old(self).variables@,
            final(self).column_groups@ == old(self).column_groups@,
    {
        let all_names = names_of_pairs(&self.variables);
        let future = crate::computed::collect_expanded_computed_column_aliases(
            column_names,
            &self.columns,
            &self.column_groups,
            &all_names,
        );
        let variables = crate::configs::valid_variables(&self.variables, column_names, &future.1);
        let variable_names = names_of_pairs(&variables);
        let mut names = clone_strings(column_names);
        let additions = crate::column_plan::computed_columns_to_add(
            &mut names,
            &self.columns,
            &self.column_groups,
            &variable_names,
        );
        self.cuts.parse_conditions();
        assert(self.cuts@ =~= parsed_all(old(self).cuts@));
        let resolver = crate::sources::build_source_group_resolver_for_columns(&self.column_groups, &names);
        let configs = valid_histogram_configs(&self.configs, &resolver, &names);
        let cuts = self.cuts.available_with_columns(&names);
        let checked = Configs {
            configs,
            columns: clone_pairs(&self.columns),
            variables,
            column_groups: clone_groups(&self.column_groups),
            cuts,
        };
        (checked, additions)
    }
}

/// The columns offered when editing the configurations over the columns
/// `names`: those columns and every alias the computed columns expand to,
/// sorted, each once.
pub open spec fn ui_columns_spec<V>(
    names: Seq<Seq<char>>,
    columns: Seq<(Seq<char>, Seq<char>)>,
    groups: Seq<(Seq<char>, Seq<Seq<char>>)>,
    variables: Seq<(String, V)>,
) -> Seq<Seq<char>> {
    let aliases = crate::computed::collect_state(names, columns, groups, crate::configs::pair_names(variables)).2;
    dedup_adjacent(sorted_names(names + aliases))
}

fn append_all(a: &mut Vec<String>, b: &Vec<String>)
    ensures
        names_view(final(a)@) == names_view(old(a)@) + names_view(b@),
{
    let ghost start = names_view(a@);
    let mut i: usize = 0;
    while i < b.len()
        invariant
            i <= b.len(),
            names_view(a@) == start + names_view(b@).take(i as int),
        decreases b.len() - i,
    {
        let ghost before = names_view(a@);
        a.push(b[i].clone());
        assert(names_view(a@) =~= before.push(b@[i as int]@));
        assert(names_view(a@) =~= start + names_view(b@).take(i + 1));
        i += 1;
    }
    assert(names_view(b@).take(b.len() as int) =~= names_view(b@));
}

impl<A: Copy, B: Copy, V: Copy> Configs<A, B, V> {
    /// The columns offered when editing the configurations over the columns
    /// `base_columns`; see `ui_columns_spec`.
    pub fn available_columns_for_ui(&self, base_columns: &Vec<String>) -> (r: Vec<String>)
        requires
            crate::computed::collect_fit(
                names_view(base_columns@),
                columns_view(self.columns@),
                crate::computed::groups_view(self.column_groups@),
                crate::configs::pair_names(self.variables@),
            ),
        ensures
            names_view(r@) == ui_columns_spec(
                names_view(base_columns@),
                columns_view(self.columns@),
                crate::computed::groups_view(self.column_groups@),
                self.variables@,
            ),
    {
        let all_names = names_of_pairs(&self.variables);
        let collected = crate::computed::collect_expanded_computed_column_aliases(
            base_columns,
            &self.columns,
            &self.column_groups,
            &all_names,
        );
        let mut all = clone_strings(base_columns);
        append_all(&mut all, &collected.1);
        sorted_unique_names(&all)
    }

    /// The source names offered for histograms when editing over the columns
    /// `base_columns`: the offered columns and the aliases of the column groups
    /// that resolve against them, sorted, each once.
    pub fn available_histogram_source_names_for_ui(&self, base_columns: &Vec<String>) -> (r: Vec<String>)
        requires
            crate::computed::collect_fit(
                names_view(base_columns@),
                columns_view(self.columns@),
                crate::computed::groups_view(self.column_groups@),
                crate::configs::pair_names(self.variables@),
            ),
        ensures
            ({
                let cols = ui_columns_spec(
                    names_view(base_columns@),
                    columns_view(self.columns@),
                    crate::computed::groups_view(self.column_groups@),
                    self.variables@,
                );
                names_view(r@) == dedup_adjacent(
                    sorted_names(cols + crate::configs::offered_aliases_spec(groups_pairs(self.column_groups@), cols)),
                )
            }),
    {
        let mut cols = self.available_columns_for_ui(base_columns);
        let aliases = crate::configs::available_column_group_aliases_for_available_columns(&self.column_groups, &cols);
        append_all(&mut cols, &aliases);
        sorted_unique_names(&cols)
    }
}

/// Two configurations of the same kind and name.
pub open spec fn same_key<A, B>(a: ConfigView<A, B>, b: ConfigView<A, B>) -> bool {
    match (a, b) {
        (ConfigView::Hist1D(x), ConfigView::Hist1D(y)) => x.name == y.name,
        (ConfigView::Hist2D(x), ConfigView::Hist2D(y)) => x.name == y.name,
        _ => false,
    }
}

/// The first index below `k` whose configuration has the kind and name of the
/// one at `p`.
pub open spec fn first_match_below<A, B>(all: Seq<ConfigView<A, B>>, p: int, k: int) -> Option<int>
    decreases k,
{
    if k <= 0 {
        None
    } else {
        let prev = first_match_below(all, p, k - 1);
        if prev is Some {
            prev
        } else if same_key(all[k - 1], all[p]) {
            Some(k - 1)
        } else {
            None
        }
    }
}

/// The 1D configuration `o` fills from a column that `e` fills from.
pub open spec fn shares_1d<S>(e: Hist1DView<S>, o: Hist1DView<S>) -> bool {
    exists|i: int|
        0 <= i < normalize_names_spec(fills_1d(o)).len() && normalize_names_spec(fills_1d(e)).contains(
            #[trigger] normalize_names_spec(fills_1d(o))[i],
        )
}

/// The (x, y) pairs a 2D configuration fills, for merging.
pub open spec fn merge_pairs<S>(v: Hist2DView<S>) -> Seq<(Seq<char>, Seq<char>)> {
    distinct_unordered(cross(normalize_names_spec(x_fills(v)), normalize_names_spec(y_fills(v))))
}

/// The 2D configuration `o` fills a pair that `e` fills.
pub open spec fn shares_2d<S>(e: Hist2DView<S>, o: Hist2DView<S>) -> bool {
    exists|i: int| 0 <= i < merge_pairs(o).len() && merge_pairs(e).contains(#[trigger] merge_pairs(o)[i])
}

/// Whether `o` is added beside `e`, the first configuration of its kind and
/// name: when it shares no fill column or pair with `e` and has its shape.
pub open spec fn keeps_against<A, B>(e: ConfigView<A, B>, o: ConfigView<A, B>, same_shape: bool) -> bool {
    match e {
        ConfigView::Hist1D(ev) => match o {
            ConfigView::Hist1D(ov) => same_shape && !shares_1d(ev, ov),
            ConfigView::Hist2D(_) => true,
        },
        ConfigView::Hist2D(ev) => match o {
            ConfigView::Hist2D(ov) => same_shape && !shares_2d(ev, ov),
            ConfigView::Hist1D(_) => true,
        },
    }
}

/// Whether the configuration at `p` of `all` is added when merging: when no
/// configuration before it has its kind and name, or when the first that has
/// shares none of its fill columns (1D) or fill pairs (2D) and has the same
/// shape (`same_shape`).
pub open spec fn merge_keeps<A, B>(all: Seq<ConfigView<A, B>>, p: int, same_shape: bool) -> bool {
    match first_match_below(all, p, p) {
        None => true,
        Some(k) => keeps_against(all[k], all[p], same_shape),
    }
}

/// The configurations `others` that a merge adds to the `n` configurations
/// there, in order, where `all` is those `n` followed by `others`.
pub open spec fn merged_in<A, B>(all: Seq<ConfigView<A, B>>, n: int, others: Seq<ConfigView<A, B>>, same_shape: Seq<bool>) -> Seq<
    ConfigView<A, B>,
>
    decreases others.len(),
{
    if others.len() == 0 {
        Seq::empty()
    } else {
        let j = others.len() - 1;
        let prev = merged_in(all, n, others.drop_last(), same_shape);
        if merge_keeps(all, n + j, same_shape[j]) {
            prev.push(others[j])
        } else {
            prev
        }
    }
}

proof fn lemma_first_match_below<A, B>(all: Seq<ConfigView<A, B>>, p: int, k: int)
    ensures
        first_match_below(all, p, k) matches Some(x) ==> 0 <= x < k,
    decreases k,
{
    if k > 0 {
        lemma_first_match_below(all, p, k - 1);
    }
}

fn same_key_exec<A, B>(a: &Config<A, B>, b: &Config<A, B>) -> (r: bool)
    ensures
        r == same_key(a@, b@),
{
    match (a, b) {
        (Config::Hist1D(x), Config::Hist1D(y)) => x.name == y.name,
        (Config::Hist2D(x), Config::Hist2D(y)) => x.name == y.name,
        _ => false,
    }
}

fn config_at<'a, A, B>(configs: &'a Vec<Config<A, B>>, other: &'a Vec<Config<A, B>>, k: usize) -> (r: &'a Config<A, B>)
    requires
        k < configs.len() + other.len(),
    ensures
        r@ == (configs_view(configs@) + configs_view(other@))[k as int],
{
    if k < configs.len() {
        &configs[k]
    } else {
        &other[k - configs.len()]
    }
}

/// For each configuration of `other`, the first configuration with its kind
/// and name among `configs` followed by `other` (an index into that
/// sequence), if one comes before it.
pub fn merge_matches<A, B>(configs: &Vec<Config<A, B>>, other: &Vec<Config<A, B>>) -> (r: Vec<Option<usize>>)
    requires
        configs.len() + other.len() <= usize::MAX,
    ensures
        r@.len() == other@.len(),
        forall|j: int|
            0 <= j < other@.len() ==> #[trigger] r@[j] == match first_match_below(
                configs_view(configs@) + configs_view(other@),
                configs@.len() + j,
                configs@.len() + j,
            ) {
                Some(k) => Some(k as usize),
                None => None::<usize>,
            },
{
    let ghost all = configs_view(configs@) + configs_view(other@);
    let n = configs.len();
    let mut r: Vec<Option<usize>> = Vec::new();
    let mut j: usize = 0;
    while j < other.len()
        invariant
            j <= other.len(),
            n == configs.len(),
            n + other.len() <= usize::MAX,
            all == configs_view(configs@) + configs_view(other@),
            r@.len() == j,
            forall|m: int|
                0 <= m < j ==> #[trigger] r@[m] == match first_match_below(all, n + m, n + m) {
                    Some(k) => Some(k as usize),
                    None => None::<usize>,
                },
        decreases other.len() - j,
    {
        let p = n + j;
        let target = &other[j];
        assert(target@ == all[p as int]);
        let mut k: usize = 0;
        let mut found: Option<usize> = None;
        while k < p
            invariant
                k <= p == n + j,
                j < other.len(),
                n == configs.len(),
                all == configs_view(configs@) + configs_view(other@),
                target@ == all[p as int],
                found == match first_match_below(all, p as int, k as int) {
                    Some(x) => Some(x as usize),
                    None => None::<usize>,
                },
            decreases p - k,
        {
            if found.is_none() {
                let c = config_at(configs, other, k);
                if same_key_exec(c, target) {
                    found = Some(k);
                }
            }
            k += 1;
        }
        r.push(found);
        j += 1;
    }
    r
}

impl<A: Copy, B: Copy, V> Configs<A, B, V> {
    /// Merges the histogram configurations `other` in, in order: each is
    /// added when no configuration before it (among these and `other`) has
    /// its kind and name, or when the first that has shares none of its fill
    /// columns or pairs and has the same shape, as `same_shape` tells for
    /// each (see `merge_matches` for which configuration it is compared
    /// with). As each one added becomes the first of its name, this is the
    /// configuration found among those there at the time it is merged.
    pub fn merge_configs(&mut self, other: Vec<Config<A, B>>, same_shape: &Vec<bool>)
        requires
            same_shape.len() == other.len(),
            old(self).configs.len() + other.len() <= usize::MAX,
        ensures
            configs_view(final(self).configs@) == configs_view(old(self).configs@) + merged_in(
                configs_view(old(self).configs@) + configs_view(other@),
                old(self).configs@.len() as int,
                configs_view(other@),
                same_shape@,
            ),
            final(self).columns@ == old(self).columns@,
            final(self).variables@ == old(self).variables@,
            final(self).column_groups@ == old(self).column_groups@,
            final(self).cuts@ == old(self).cuts@,
    {
        let ghost all = configs_view(self.configs@) + configs_view(other@);
        let ghost ov = configs_view(other@);
        let ghost start = configs_view(self.configs@);
        let n = self.configs.len();
        let matches = merge_matches(&self.configs, &other);
        let mut keep: Vec<bool> = Vec::new();
        let mut j: usize = 0;
        while j < other.len()
            invariant
                j <= other.len() == same_shape.len() == matches.len(),
                n == self.configs.len(),
                n + other.len() <= usize::MAX,
                all == configs_view(self.configs@) + configs_view(other@),
                self.columns@ == old(self).columns@,
                self.variables@ == old(self).variables@,
                self.column_groups@ == old(self).column_groups@,
                self.cuts@ == old(self).cuts@,
                keep@.len() == j,
                forall|m: int| 0 <= m < j ==> #[trigger] keep@[m] == merge_keeps(all, n + m, same_shape@[m]),
                forall|m: int|
                    0 <= m < other@.len() ==> #[trigger] matches@[m] == match first_match_below(all, n + m, n + m) {
                        Some(k) => Some(k as usize),
                        None => None::<usize>,
                    },
            decreases other.len() - j,
        {
            let p = n + j;
            let o = &other[j];
            assert(o@ == all[p as int]);
            proof {
                lemma_first_match_below(all, p as int, p as int);
            }
            let decision = match matches[j] {
                None => true,
                Some(k) => {
                    let e = config_at(&self.configs, &other, k);
                    assert(e@ == all[k as int]);
                    match (e, o) {
                        (Config::Hist1D(eh), Config::Hist1D(oh)) => {
                            let ec = eh.fill_columns();
                            let oc = oh.fill_columns();
                            let d = merge_adds_hist1d(Some(&ec), &oc, same_shape[j]);
                            proof {
                                let ne = names_view(ec@);
                                let no = names_view(oc@);
                                assert(ne == normalize_names_spec(fills_1d(eh@)));
                                assert(no == normalize_names_spec(fills_1d(oh@)));
                                if shares_1d(eh@, oh@) {
                                    let i = choose|i: int|
                                        0 <= i < normalize_names_spec(fills_1d(oh@)).len() && normalize_names_spec(
                                            fills_1d(eh@),
                                        ).contains(#[trigger] normalize_names_spec(fills_1d(oh@))[i]);
                                    assert(no[i] == oc@[i]@);
                                    assert(ne.contains(oc@[i]@));
                                }
                                if exists|i: int| 0 <= i < oc@.len() && ne.contains(#[trigger] oc@[i]@) {
                                    let i = choose|i: int| 0 <= i < oc@.len() && ne.contains(#[trigger] oc@[i]@);
                                    assert(no[i] == oc@[i]@);
                                    assert(ne.contains(no[i]));
                                }
                                assert(d == keeps_against(e@, o@, same_shape@[j as int]));
                            }
                            d
                        },
                        (Config::Hist2D(eh), Config::Hist2D(oh)) => {
                            let ep = eh.fill_pairs_for_merge();
                            let op = oh.fill_pairs_for_merge();
                            let d = merge_adds_hist2d(Some(&ep), &op, same_shape[j]);
                            proof {
                                let pe = pairs_view(ep@);
                                let po = pairs_view(op@);
                                assert(pe == merge_pairs(eh@));
                                assert(po == merge_pairs(oh@));
                                assert(po.len() == op@.len());
                                assert(d == keeps_against(e@, o@, same_shape@[j as int]));
                            }
                            d
                        },
                        _ => true,
                    }
                },
            };
            proof {
                if matches@[j as int] is Some {
                    let k = matches@[j as int]->0;
                    assert(first_match_below(all, p as int, p as int) == Some(k as int));
                }
            }
            assert(decision == merge_keeps(all, p as int, same_shape@[j as int]));
            keep.push(decision);
            j += 1;
        }
        let mut rest = other;
        let mut i: usize = 0;
        while i < keep.len()
            invariant
                i <= keep.len() == ov.len(),
                rest@.len() == ov.len() - i,
                forall|m: int| 0 <= m < rest@.len() ==> #[trigger] rest@[m]@ == ov[i + m],
                forall|m: int| 0 <= m < keep@.len() ==> #[trigger] keep@[m] == merge_keeps(all, n + m, same_shape@[m]),
                n == start.len(),
                all == start + ov,
                same_shape@.len() == ov.len(),
                self.columns@ == old(self).columns@,
                self.variables@ == old(self).variables@,
                self.column_groups@ == old(self).column_groups@,
                self.cuts@ == old(self).cuts@,
                configs_view(self.configs@) == start + merged_in(all, n as int, ov.take(i as int), same_shape@),
            decreases keep.len() - i,
        {
            assert(ov.take(i + 1).drop_last() =~= ov.take(i as int));
            let c = rest.remove(0);
            assert(c@ == ov[i as int]);
            if keep[i] {
                let ghost before = configs_view(self.configs@);
                self.configs.push(c);
                assert(configs_view(self.configs@) =~= before.push(ov[i as int]));
            }
            proof {
                assert forall|m: int| 0 <= m < rest@.len() implies #[trigger] rest@[m]@ == ov[i + 1 + m] by {}
            }
            i += 1;
        }
        assert(ov.take(ov.len() as int) =~= ov);
    }
}

proof fn lemma_first_match_same_key<A, B>(all: Seq<ConfigView<A, B>>, p: int, k: int)
    ensures
        first_match_below(all, p, k) matches Some(x) ==> 0 <= x < k && same_key(all[x], all[p]),
    decreases k,
{
    if k > 0 {
        lemma_first_match_same_key(all, p, k - 1);
    }
}

/// A merged configuration that has the kind and name of one before it is
/// added only when it has that configuration's shape: told that the shapes
/// differ, the merge refuses it, 1D and 2D alike. One whose kind and name
/// are new is always added.
pub proof fn lemma_merge_needs_same_shape<A, B>(all: Seq<ConfigView<A, B>>, p: int)
    requires
        0 <= p < all.len(),
    ensures
        (exists|k: int| 0 <= k < p && #[trigger] same_key(all[k], all[p])) ==> !merge_keeps(all, p, false),
        (forall|k: int| 0 <= k < p ==> !#[trigger] same_key(all[k], all[p])) ==> merge_keeps(all, p, false)
            && merge_keeps(all, p, true),
{
    lemma_first_match_same_key(all, p, p);
    lemma_first_match_found(all, p, p);
    match first_match_below(all, p, p) {
        Some(k) => {
            assert(same_key(all[k], all[p]));
        },
        None => {},
    }
}

proof fn lemma_first_match_found<A, B>(all: Seq<ConfigView<A, B>>, p: int, k: int)
    requires
        k <= p,
    ensures
        (exists|j: int| 0 <= j < k && #[trigger] same_key(all[j], all[p])) ==> first_match_below(all, p, k) is Some,
        first_match_below(all, p, k) is Some ==> exists|j: int| 0 <= j < k && #[trigger] same_key(all[j], all[p]),
    decreases k,
{
    if k > 0 {
        lemma_first_match_found(all, p, k - 1);
        if exists|j: int| 0 <= j < k && #[trigger] same_key(all[j], all[p]) {
            let j = choose|j: int| 0 <= j < k && #[trigger] same_key(all[j], all[p]);
            if j < k - 1 {
                assert(first_match_below(all, p, k - 1) is Some);
            }
        }
        if first_match_below(all, p, k) is Some {
            if first_match_below(all, p, k - 1) is None {
                assert(same_key(all[k - 1], all[p]));
            }
        }
    }
}

/// The cuts of a configuration, of either kind.
pub open spec fn config_cuts<A, B>(c: ConfigView<A, B>) -> Seq<CutView> {
    match c {
        ConfigView::Hist1D(v) => v.cuts,
        ConfigView::Hist2D(v) => v.cuts,
    }
}

/// The fill columns of a configuration, of either kind, as written.
pub open spec fn config_fills<A, B>(c: ConfigView<A, B>) -> Seq<Seq<char>> {
    match c {
        ConfigView::Hist1D(v) => fills_1d(v),
        ConfigView::Hist2D(v) => x_fills(v) + y_fills(v),
    }
}

proof fn lemma_used_by_covers<A, B>(c: ConfigView<A, B>)
    ensures
        forall|k: int|
            0 <= k < columns_spec(config_cuts(c)).len() ==> used_by(c).contains(
                #[trigger] columns_spec(config_cuts(c))[k],
            ),
        forall|k: int|
            0 <= k < config_fills(c).len() && trim_spec(#[trigger] config_fills(c)[k]).len() > 0 ==> used_by(
                c,
            ).contains(trim_spec(config_fills(c)[k])),
{
    let cc = columns_spec(config_cuts(c));
    let u = used_by(c);
    let n = u.len() - cc.len();
    assert forall|k: int| 0 <= k < cc.len() implies u.contains(#[trigger] cc[k]) by {
        assert(u[n + k] == cc[k]);
    }
    match c {
        ConfigView::Hist1D(v) => {
            let f = fills_1d(v);
            assert forall|k: int| 0 <= k < f.len() && trim_spec(#[trigger] f[k]).len() > 0 implies u.contains(
                trim_spec(f[k]),
            ) by {
                crate::names::lemma_normalized_contains(f, k);
                let m = normalize_names_spec(f);
                let j = choose|j: int| 0 <= j < m.len() && m[j] == trim_spec(f[k]);
                assert(u[j] == m[j]);
            }
        },
        ConfigView::Hist2D(v) => {
            let xf = x_fills(v);
            let yf = y_fills(v);
            let f = xf + yf;
            assert forall|k: int| 0 <= k < f.len() && trim_spec(#[trigger] f[k]).len() > 0 implies u.contains(
                trim_spec(f[k]),
            ) by {
                if k < xf.len() {
                    assert(f[k] == xf[k]);
                    crate::names::lemma_normalized_contains(xf, k);
                    let m = normalize_names_spec(xf);
                    let j = choose|j: int| 0 <= j < m.len() && m[j] == trim_spec(xf[k]);
                    assert(u[j] == m[j]);
                } else {
                    assert(f[k] == yf[k - xf.len()]);
                    crate::names::lemma_normalized_contains(yf, k - xf.len());
                    let m = normalize_names_spec(yf);
                    let mx = normalize_names_spec(xf);
                    let j = choose|j: int| 0 <= j < m.len() && m[j] == trim_spec(yf[k - xf.len()]);
                    assert(u[mx.len() + j] == m[j]);
                }
            }
        },
    }
}

proof fn lemma_used_columns_cover_all<A, B>(configs: Seq<ConfigView<A, B>>, i: int, x: Seq<char>)
    requires
        0 <= i < configs.len(),
        used_by(configs[i]).contains(x),
    ensures
        used_columns_spec(configs).contains(x),
    decreases configs.len(),
{
    let prev = used_columns_spec(configs.drop_last());
    let last = used_by(configs.last());
    let u = used_columns_spec(configs);
    if i < configs.len() - 1 {
        assert(configs.drop_last()[i] == configs[i]);
        lemma_used_columns_cover_all(configs.drop_last(), i, x);
        let j = choose|j: int| 0 <= j < prev.len() && prev[j] == x;
        assert(u[j] == prev[j]);
    } else {
        let j = choose|j: int| 0 <= j < last.len() && last[j] == x;
        assert(u[prev.len() + j] == last[j]);
    }
}

/// The columns the configurations read hold every column that a cut of any
/// configuration requires, 1D and 2D alike, and every fill column (trimmed,
/// when not blank); the list returned by `get_used_columns` holds each of
/// them once.
pub proof fn lemma_used_columns_cover_cuts_and_fills<A, B>(configs: Seq<ConfigView<A, B>>)
    ensures
        forall|i: int, k: int|
            0 <= i < configs.len() && 0 <= k < columns_spec(config_cuts(configs[i])).len() ==> dedup_adjacent(
                sorted_names(used_columns_spec(configs)),
            ).contains(#[trigger] columns_spec(config_cuts(configs[i]))[k]),
        forall|i: int, k: int|
            0 <= i < configs.len() && 0 <= k < config_fills(configs[i]).len() && trim_spec(
                #[trigger] config_fills(configs[i])[k],
            ).len() > 0 ==> dedup_adjacent(sorted_names(used_columns_spec(configs))).contains(
                trim_spec(config_fills(configs[i])[k]),
            ),
        dedup_adjacent(sorted_names(used_columns_spec(configs))).no_duplicates(),
{
    crate::configs::lemma_sorted_unique_names(used_columns_spec(configs));
    assert forall|i: int, k: int|
        0 <= i < configs.len() && 0 <= k < columns_spec(config_cuts(configs[i])).len() implies dedup_adjacent(
            sorted_names(used_columns_spec(configs)),
        ).contains(#[trigger] columns_spec(config_cuts(configs[i]))[k]) by {
        lemma_used_by_covers(configs[i]);
        lemma_used_columns_cover_all(configs, i, columns_spec(config_cuts(configs[i]))[k]);
    }
    assert forall|i: int, k: int|
        0 <= i < configs.len() && 0 <= k < config_fills(configs[i]).len() && trim_spec(
            #[trigger] config_fills(configs[i])[k],
        ).len() > 0 implies dedup_adjacent(sorted_names(used_columns_spec(configs))).contains(
            trim_spec(config_fills(configs[i])[k]),
        ) by {
        lemma_used_by_covers(configs[i]);
        lemma_used_columns_cover_all(configs, i, trim_spec(config_fills(configs[i])[k]));
    }
}

/// One of the first `n` configurations of `all` has the kind and name of `c`.
pub open spec fn key_among<A, B>(all: Seq<ConfigView<A, B>>, n: int, c: ConfigView<A, B>) -> bool {
    exists|k: int| 0 <= k < n && #[trigger] same_key(all[k], c)
}

/// Merging configurations whose kinds and names are all already there, each
/// with a different shape, adds none of them.
pub proof fn lemma_merge_refuses_other_shapes<A, B>(
    all: Seq<ConfigView<A, B>>,
    n: int,
    others: Seq<ConfigView<A, B>>,
    same_shape: Seq<bool>,
)
    requires
        0 <= n,
        n + others.len() <= all.len(),
        others.len() <= same_shape.len(),
        forall|j: int| 0 <= j < others.len() ==> all[n + j] == #[trigger] others[j] && !same_shape[j],
        forall|j: int| 0 <= j < others.len() ==> key_among(all, n, #[trigger] others[j]),
    ensures
        merged_in(all, n, others, same_shape) == Seq::<ConfigView<A, B>>::empty(),
    decreases others.len(),
{
    if others.len() > 0 {
        let j = others.len() - 1;
        assert forall|i: int| 0 <= i < others.drop_last().len() implies key_among(all, n, #[trigger] others.drop_last()[i]) by {
            assert(others.drop_last()[i] == others[i]);
        }
        assert forall|i: int| 0 <= i < others.drop_last().len() implies all[n + i] == #[trigger] others.drop_last()[i]
            && !same_shape[i] by {
            assert(others.drop_last()[i] == others[i]);
        }
        lemma_merge_refuses_other_shapes(all, n, others.drop_last(), same_shape);
        assert(all[n + j] == others[j] && !same_shape[j]);
        lemma_merge_needs_same_shape(all, n + j);
        assert(all[n + j] == others[j]);
        assert(key_among(all, n, others[j]));
        let k = choose|k: int| 0 <= k < n && #[trigger] same_key(all[k], others[j]);
        assert(same_key(all[k], all[n + j]));
        assert(!merge_keeps(all, n + j, same_shape[j]));
    }
}

/// Merging configurations whose kinds and names are all new, and distinct,
/// adds every one of them, in order.
pub proof fn lemma_merge_adds_new_names<A, B>(
    all: Seq<ConfigView<A, B>>,
    n: int,
    others: Seq<ConfigView<A, B>>,
    same_shape: Seq<bool>,
)
    requires
        0 <= n,
        n + others.len() <= all.len(),
        others.len() <= same_shape.len(),
        forall|j: int| 0 <= j < others.len() ==> all[n + j] == #[trigger] others[j],
        forall|p: int, k: int| 0 <= k < p < all.len() ==> !#[trigger] same_key(all[k], all[p]),
    ensures
        merged_in(all, n, others, same_shape) == others,
    decreases others.len(),
{
    if others.len() > 0 {
        let j = others.len() - 1;
        assert forall|i: int| 0 <= i < others.drop_last().len() implies all[n + i] == #[trigger] others.drop_last()[i] by {
            assert(others.drop_last()[i] == others[i]);
        }
        lemma_merge_adds_new_names(all, n, others.drop_last(), same_shape);
        assert(all[n + j] == others[j]);
        lemma_merge_needs_same_shape(all, n + j);
        assert(forall|k: int| 0 <= k < n + j ==> !#[trigger] same_key(all[k], all[n + j]));
        if same_shape[j] {
            assert(merge_keeps(all, n + j, true));
        } else {
            assert(merge_keeps(all, n + j, false));
        }
        assert(others.drop_last().push(others[j]) =~= others);
    }
}

} // verus!
