//! Cuts on histogram data: 1D cuts written as conditions on columns and 2D
//! cuts drawn as polygons, and the collection of cuts with its rules for
//! adding, removing, merging and activating them.
use vstd::prelude::*;
use crate::identifiers::join_spec;
use crate::names::names_view;
use crate::naming::{
    cut_file_name_spec, default_2d_cut_name, default_2d_cut_name_spec, sanitized_cut_1d_file_name,
    sanitized_cut_2d_file_name,
};
use crate::sorting::{lemma_sorted_names_ignore_order, sort_names, sorted_names};
use crate::float_literal::{check_float_literal, is_float_literal};
use crate::text::{chars_of, string_of, trim_chars, trim_spec, trimmed_chars};

verus! {

/// One condition of a 1D cut: a column, a comparison operator and the literal
/// it is compared with, kept as the text that was written.
#[derive(Clone, Debug)]
pub struct ParsedCondition {
    pub column_name: String,
    pub operator: String,
    pub literal_value: String,
}

impl View for ParsedCondition {
    type V = (Seq<char>, Seq<char>, Seq<char>);

    open spec fn view(&self) -> Self::V {
        (self.column_name@, self.operator@, self.literal_value@)
    }
}

/// A 1D cut: a named expression of conditions joined by `&`, whether it is
/// active, and the conditions once they are parsed.
#[derive(Clone, Debug)]
pub struct Cut1D {
    pub name: String,
    pub expression: String,
    pub active: bool,
    pub parsed_conditions: Option<Vec<ParsedCondition>>,
}

/// What a 1D cut holds.
pub struct Cut1DView {
    pub name: Seq<char>,
    pub expression: Seq<char>,
    pub active: bool,
    pub conditions: Option<Seq<(Seq<char>, Seq<char>, Seq<char>)>>,
}

/// The views of a list of conditions.
pub open spec fn conditions_view(c: Seq<ParsedCondition>) -> Seq<(Seq<char>, Seq<char>, Seq<char>)> {
    c.map_values(|p: ParsedCondition| p@)
}

impl View for Cut1D {
    type V = Cut1DView;

    open spec fn view(&self) -> Cut1DView {
        Cut1DView {
            name: self.name@,
            expression: self.expression@,
            active: self.active,
            conditions: match self.parsed_conditions {
                Some(v) => Some(conditions_view(v@)),
                None => None,
            },
        }
    }
}

/// A 2D cut: the name of its polygon, the columns on its two axes, and whether
/// it is active. The polygon's vertices are not held here.
#[derive(Clone, Debug)]
pub struct Cut2D {
    pub name: String,
    pub x_column: String,
    pub y_column: String,
    pub active: bool,
}

/// What a 2D cut holds.
pub struct Cut2DView {
    pub name: Seq<char>,
    pub x_column: Seq<char>,
    pub y_column: Seq<char>,
    pub active: bool,
}

impl View for Cut2D {
    type V = Cut2DView;

    open spec fn view(&self) -> Cut2DView {
        Cut2DView { name: self.name@, x_column: self.x_column@, y_column: self.y_column@, active: self.active }
    }
}

/// A cut of either kind.
#[derive(Clone, Debug)]
pub enum Cut {
    Cut1D(Cut1D),
    Cut2D(Cut2D),
}

/// What a cut of either kind holds.
pub enum CutView {
    Cut1D(Cut1DView),
    Cut2D(Cut2DView),
}

impl View for Cut {
    type V = CutView;

    open spec fn view(&self) -> CutView {
        match self {
            Cut::Cut1D(c) => CutView::Cut1D(c@),
            Cut::Cut2D(c) => CutView::Cut2D(c@),
        }
    }
}

/// The name of a cut.
pub open spec fn cut_name(c: CutView) -> Seq<char> {
    match c {
        CutView::Cut1D(c) => c.name,
        CutView::Cut2D(c) => c.name,
    }
}

/// Whether a cut is active.
pub open spec fn cut_active(c: CutView) -> bool {
    match c {
        CutView::Cut1D(c) => c.active,
        CutView::Cut2D(c) => c.active,
    }
}

/// The columns a cut reads: those of its parsed conditions for a 1D cut (none
/// before parsing), its two axes for a 2D cut.
pub open spec fn cut_columns(c: CutView) -> Seq<Seq<char>> {
    match c {
        CutView::Cut1D(c) => match c.conditions {
            Some(conds) => conds.map_values(|p: (Seq<char>, Seq<char>, Seq<char>)| p.0),
            None => Seq::empty(),
        },
        CutView::Cut2D(c) => seq![c.x_column, c.y_column],
    }
}

/// The views of a list of cuts.
pub open spec fn cuts_view(cuts: Seq<Cut>) -> Seq<CutView> {
    cuts.map_values(|c: Cut| c@)
}

/// The names of a list of cuts.
pub open spec fn cut_names(cuts: Seq<CutView>) -> Seq<Seq<char>> {
    cuts.map_values(|c: CutView| cut_name(c))
}

fn clone_condition(p: &ParsedCondition) -> (r: ParsedCondition)
    ensures
        r@ == p@,
{
    ParsedCondition {
        column_name: p.column_name.clone(),
        operator: p.operator.clone(),
        literal_value: p.literal_value.clone(),
    }
}

fn clone_conditions(v: &Vec<ParsedCondition>) -> (r: Vec<ParsedCondition>)
    ensures
        conditions_view(r@) == conditions_view(v@),
{
    let mut r: Vec<ParsedCondition> = Vec::new();
    let mut i: usize = 0;
    while i < v.len()
        invariant
            i <= v.len(),
            conditions_view(r@) == conditions_view(v@).take(i as int),
        decreases v.len() - i,
    {
        let item = clone_condition(&v[i]);
        let ghost before = conditions_view(r@);
        r.push(item);
        assert(conditions_view(r@) =~= before.push(item@));
        i += 1;
        assert(conditions_view(r@) =~= conditions_view(v@).take(i as int));
    }
    assert(conditions_view(v@).take(v.len() as int) =~= conditions_view(v@));
    r
}

impl Cut1D {
    /// A new active 1D cut, not parsed yet.
    pub fn new(name: &str, expression: &str) -> (r: Self)
        ensures
            r@ == (Cut1DView { name: name@, expression: expression@, active: true, conditions: None }),
    {
        Cut1D {
            name: name.to_string(),
            expression: expression.to_string(),
            active: true,
            parsed_conditions: None,
        }
    }

    /// The columns of the parsed conditions, in order; none before parsing.
    pub fn required_columns(&self) -> (r: Vec<String>)
        ensures
            names_view(r@) == cut_columns(CutView::Cut1D(self@)),
    {
        let mut r: Vec<String> = Vec::new();
        match &self.parsed_conditions {
            Some(conditions) => {
                let ghost cols = conditions_view(conditions@).map_values(
                    |p: (Seq<char>, Seq<char>, Seq<char>)| p.0,
                );
                let mut i: usize = 0;
                while i < conditions.len()
                    invariant
                        i <= conditions.len(),
                        cols == conditions_view(conditions@).map_values(
                            |p: (Seq<char>, Seq<char>, Seq<char>)| p.0,
                        ),
                        names_view(r@) == cols.take(i as int),
                    decreases conditions.len() - i,
                {
                    let c = conditions[i].column_name.clone();
                    let ghost before = names_view(r@);
                    r.push(c);
                    assert(names_view(r@) =~= before.push(c@));
                    assert(cols[i as int] == conditions@[i as int]@.0);
                    i += 1;
                    assert(names_view(r@) =~= cols.take(i as int));
                }
                assert(cols.take(conditions.len() as int) =~= cols);
            },
            None => {
                assert(names_view(r@) =~= Seq::<Seq<char>>::empty());
            },
        }
        r
    }

    /// The file name the cut is saved under; see `sanitized_cut_1d_file_name`.
    pub fn sanitized_file_name(&self) -> (r: String)
        ensures
            r@ == cut_file_name_spec(
                if trim_spec(self.name@).len() == 0 { "1d_cut"@ } else { trim_spec(self.name@) },
                "1d_cut"@,
            ),
    {
        sanitized_cut_1d_file_name(self.name.as_str())
    }

    fn clone_exact(&self) -> (r: Self)
        ensures
            r@ == self@,
    {
        Cut1D {
            name: self.name.clone(),
            expression: self.expression.clone(),
            active: self.active,
            parsed_conditions: match &self.parsed_conditions {
                Some(v) => Some(clone_conditions(v)),
                None => None,
            },
        }
    }
}

impl Cut2D {
    /// The default name of a 2D cut: `<y> v <x> Cut`.
    pub fn default_name(x_column: &str, y_column: &str) -> (r: String)
        ensures
            r@ == default_2d_cut_name_spec(x_column@, y_column@),
    {
        default_2d_cut_name(x_column, y_column)
    }

    /// The file name the cut is saved under; see `sanitized_cut_2d_file_name`.
    pub fn sanitized_file_name(&self) -> (r: String)
        ensures
            r@ == cut_file_name_spec(
                if trim_spec(self.name@).len() == 0 {
                    default_2d_cut_name_spec(self.x_column@, self.y_column@)
                } else {
                    trim_spec(self.name@)
                },
                "cut"@,
            ),
    {
        sanitized_cut_2d_file_name(self.name.as_str(), self.x_column.as_str(), self.y_column.as_str())
    }

    /// The columns on the cut's two axes.
    pub fn required_columns(&self) -> (r: Vec<String>)
        ensures
            names_view(r@) == cut_columns(CutView::Cut2D(self@)),
    {
        let r = vec![self.x_column.clone(), self.y_column.clone()];
        assert(names_view(r@) =~= seq![self.x_column@, self.y_column@]);
        r
    }

    fn clone_exact(&self) -> (r: Self)
        ensures
            r@ == self@,
    {
        Cut2D {
            name: self.name.clone(),
            x_column: self.x_column.clone(),
            y_column: self.y_column.clone(),
            active: self.active,
        }
    }
}

impl Cut {
    /// The cut's name: that of a 1D cut, or that of a 2D cut's polygon.
    pub fn name(&self) -> (r: &str)
        ensures
            r@ == cut_name(self@),
    {
        match self {
            Cut::Cut1D(c) => c.name.as_str(),
            Cut::Cut2D(c) => c.name.as_str(),
        }
    }

    /// Whether the cut is active.
    pub fn is_active(&self) -> (r: bool)
        ensures
            r == cut_active(self@),
    {
        match self {
            Cut::Cut1D(c) => c.active,
            Cut::Cut2D(c) => c.active,
        }
    }

    /// The columns the cut reads; see `cut_columns`.
    pub fn required_columns(&self) -> (r: Vec<String>)
        ensures
            names_view(r@) == cut_columns(self@),
    {
        match self {
            Cut::Cut1D(c) => c.required_columns(),
            Cut::Cut2D(c) => c.required_columns(),
        }
    }

    /// A new active 1D cut, not parsed yet.
    pub fn new_1d(name: &str, expression: &str) -> (r: Self)
        ensures
            r@ == CutView::Cut1D(Cut1DView { name: name@, expression: expression@, active: true, conditions: None }),
    {
        Cut::Cut1D(Cut1D::new(name, expression))
    }

    /// A copy of the cut.
    pub fn clone_exact(&self) -> (r: Self)
        ensures
            r@ == self@,
    {
        match self {
            Cut::Cut1D(c) => Cut::Cut1D(c.clone_exact()),
            Cut::Cut2D(c) => Cut::Cut2D(c.clone_exact()),
        }
    }
}

/// A collection of cuts, told apart by name.
#[derive(Clone, Debug)]
pub struct Cuts {
    pub cuts: Vec<Cut>,
}

impl View for Cuts {
    type V = Seq<CutView>;

    open spec fn view(&self) -> Seq<CutView> {
        cuts_view(self.cuts@)
    }
}

/// `cuts` with `c` added at the end, unless a cut of its name is there already.
pub open spec fn add_spec(cuts: Seq<CutView>, c: CutView) -> Seq<CutView> {
    if cut_names(cuts).contains(cut_name(c)) {
        cuts
    } else {
        cuts.push(c)
    }
}

/// The index of the first cut named `name` among the first `n`, or -1.
pub open spec fn first_named(cuts: Seq<CutView>, name: Seq<char>, n: int) -> int
    decreases n,
{
    if n <= 0 {
        -1
    } else {
        let k = first_named(cuts, name, n - 1);
        if k >= 0 {
            k
        } else if cut_name(cuts[n - 1]) == name {
            n - 1
        } else {
            -1
        }
    }
}

/// `cuts` without the first cut named `name`, if there is one.
pub open spec fn remove_spec(cuts: Seq<CutView>, name: Seq<char>) -> Seq<CutView> {
    let k = first_named(cuts, name, cuts.len() as int);
    if k >= 0 {
        cuts.remove(k)
    } else {
        cuts
    }
}

/// `cuts` with each cut of `others` added in turn, as `add_spec` adds it.
pub open spec fn merge_spec(cuts: Seq<CutView>, others: Seq<CutView>) -> Seq<CutView>
    decreases others.len(),
{
    if others.len() == 0 {
        cuts
    } else {
        add_spec(merge_spec(cuts, others.drop_last()), others.last())
    }
}

/// The active cuts, in order.
pub open spec fn active_spec(cuts: Seq<CutView>) -> Seq<CutView>
    decreases cuts.len(),
{
    if cuts.len() == 0 {
        Seq::empty()
    } else if cut_active(cuts.last()) {
        active_spec(cuts.drop_last()).push(cuts.last())
    } else {
        active_spec(cuts.drop_last())
    }
}

/// The columns every cut reads, cut after cut.
pub open spec fn columns_spec(cuts: Seq<CutView>) -> Seq<Seq<char>>
    decreases cuts.len(),
{
    if cuts.len() == 0 {
        Seq::empty()
    } else {
        columns_spec(cuts.drop_last()) + cut_columns(cuts.last())
    }
}

/// No two cuts share a name.
pub open spec fn names_distinct(cuts: Seq<CutView>) -> bool {
    cut_names(cuts).no_duplicates()
}

proof fn lemma_first_named_range(cuts: Seq<CutView>, name: Seq<char>, n: int)
    requires
        0 <= n <= cuts.len(),
    ensures
        -1 <= first_named(cuts, name, n) < n,
        first_named(cuts, name, n) >= 0 ==> cut_name(cuts[first_named(cuts, name, n)]) == name,
        first_named(cuts, name, n) == -1 ==> forall|i: int| 0 <= i < n ==> cut_name(#[trigger] cuts[i]) != name,
        first_named(cuts, name, n) >= 0 ==> forall|i: int| 0 <= i < first_named(cuts, name, n) ==> cut_name(
            #[trigger] cuts[i],
        ) != name,
    decreases n,
{
    if n > 0 {
        lemma_first_named_range(cuts, name, n - 1);
    }
}

impl Cuts {
    /// A collection holding `cuts`.
    pub fn new(cuts: Vec<Cut>) -> (r: Self)
        ensures
            r@ == cuts_view(cuts@),
    {
        Cuts { cuts }
    }

    /// A copy of the collection.
    pub fn copy(&self) -> (r: Self)
        ensures
            r@ == self@,
    {
        let mut out: Vec<Cut> = Vec::new();
        let mut i: usize = 0;
        while i < self.cuts.len()
            invariant
                i <= self.cuts.len(),
                cuts_view(out@) == self@.take(i as int),
            decreases self.cuts.len() - i,
        {
            let c = self.cuts[i].clone_exact();
            let ghost before = cuts_view(out@);
            out.push(c);
            assert(cuts_view(out@) =~= before.push(c@));
            i += 1;
            assert(cuts_view(out@) =~= self@.take(i as int));
        }
        assert(self@.take(self.cuts.len() as int) =~= self@);
        Cuts { cuts: out }
    }

    /// Whether the collection holds no cut.
    pub fn is_empty(&self) -> (r: bool)
        ensures
            r == (self@.len() == 0),
    {
        self.cuts.len() == 0
    }

    /// Whether a cut named `name` is in the collection.
    pub fn contains_name(&self, name: &str) -> (r: bool)
        ensures
            r == cut_names(self@).contains(name@),
    {
        let mut i: usize = 0;
        while i < self.cuts.len()
            invariant
                i <= self.cuts.len(),
                forall|k: int| 0 <= k < i ==> cut_names(self@)[k] != name@,
            decreases self.cuts.len() - i,
        {
            let n = self.cuts[i].name();
            if str_eq(n, name) {
                assert(cut_names(self@)[i as int] == name@);
                return true;
            }
            i += 1;
        }
        assert forall|k: int| 0 <= k < cut_names(self@).len() implies cut_names(self@)[k] != name@ by {}
        false
    }

    /// Adds `cut` at the end, unless a cut of its name is there already.
    pub fn add_cut(&mut self, cut: Cut)
        ensures
            final(self)@ == add_spec(old(self)@, cut@),
    {
        if !self.contains_name(cut.name()) {
            let ghost before = self@;
            let ghost cv = cut@;
            self.cuts.push(cut);
            assert(self@ =~= before.push(cv));
        }
    }

    /// Removes the first cut named `name`, if there is one.
    pub fn remove_cut(&mut self, name: &str)
        ensures
            final(self)@ == remove_spec(old(self)@, name@),
    {
        let ghost start = self@;
        let mut i: usize = 0;
        let mut found = false;
        while i < self.cuts.len()
            invariant_except_break
                i <= self.cuts.len(),
                !found,
                first_named(start, name@, i as int) == -1,
            invariant
                self@ == start,
            ensures
                found ==> i < self.cuts.len() && first_named(start, name@, start.len() as int) == i,
                !found ==> first_named(start, name@, start.len() as int) == -1,
            decreases self.cuts.len() - i,
        {
            if str_eq(self.cuts[i].name(), name) {
                assert(first_named(start, name@, i + 1) == i);
                proof {
                    lemma_first_named_extends(start, name@, i + 1);
                }
                found = true;
                break;
            }
            i += 1;
        }
        if found {
            self.cuts.remove(i);
            assert(self@ =~= start.remove(i as int));
        }
    }

    /// Adds each cut of `other` whose name is not in the collection yet.
    pub fn merge(&mut self, other: &Cuts)
        ensures
            final(self)@ == merge_spec(old(self)@, other@),
    {
        let ghost start = self@;
        let mut i: usize = 0;
        while i < other.cuts.len()
            invariant
                i <= other.cuts.len(),
                self@ == merge_spec(start, other@.take(i as int)),
            decreases other.cuts.len() - i,
        {
            let c = other.cuts[i].clone_exact();
            assert(other@.take(i + 1).drop_last() =~= other@.take(i as int));
            self.add_cut(c);
            i += 1;
        }
        assert(other@.take(other.cuts.len() as int) =~= other@);
    }

    /// The active cuts, in order.
    pub fn get_active_cuts(&self) -> (r: Self)
        ensures
            r@ == active_spec(self@),
    {
        let mut out: Vec<Cut> = Vec::new();
        let mut i: usize = 0;
        while i < self.cuts.len()
            invariant
                i <= self.cuts.len(),
                cuts_view(out@) == active_spec(self@.take(i as int)),
            decreases self.cuts.len() - i,
        {
            assert(self@.take(i + 1).drop_last() =~= self@.take(i as int));
            if self.cuts[i].is_active() {
                let c = self.cuts[i].clone_exact();
                let ghost before = cuts_view(out@);
                out.push(c);
                assert(cuts_view(out@) =~= before.push(c@));
            }
            i += 1;
        }
        assert(self@.take(self.cuts.len() as int) =~= self@);
        Cuts { cuts: out }
    }

    /// The columns every cut reads, cut after cut.
    pub fn required_columns(&self) -> (r: Vec<String>)
        ensures
            names_view(r@) == columns_spec(self@),
    {
        let mut out: Vec<String> = Vec::new();
        let mut i: usize = 0;
        while i < self.cuts.len()
            invariant
                i <= self.cuts.len(),
                names_view(out@) == columns_spec(self@.take(i as int)),
            decreases self.cuts.len() - i,
        {
            assert(self@.take(i + 1).drop_last() =~= self@.take(i as int));
            let mut cols = self.cuts[i].required_columns();
            let ghost before = names_view(out@);
            let ghost added = names_view(cols@);
            out.append(&mut cols);
            assert(names_view(out@) =~= before + added);
            i += 1;
        }
        assert(self@.take(self.cuts.len() as int) =~= self@);
        out
    }
}

proof fn lemma_first_named_extends(cuts: Seq<CutView>, name: Seq<char>, n: int)
    requires
        0 <= n <= cuts.len(),
        first_named(cuts, name, n) >= 0,
    ensures
        first_named(cuts, name, cuts.len() as int) == first_named(cuts, name, n),
    decreases cuts.len() - n,
{
    if n < cuts.len() {
        lemma_first_named_extends(cuts, name, n + 1);
    }
}

/// Whether two strings are equal.
fn str_eq(a: &str, b: &str) -> (r: bool)
    ensures
        r == (a@ == b@),
{
    let n = a.unicode_len();
    if n != b.unicode_len() {
        return false;
    }
    let mut i: usize = 0;
    while i < n
        invariant
            i <= n == a@.len() == b@.len(),
            forall|k: int| 0 <= k < i ==> a@[k] == b@[k],
        decreases n - i,
    {
        if a.get_char(i) != b.get_char(i) {
            return false;
        }
        i += 1;
    }
    assert(a@ =~= b@);
    true
}

proof fn lemma_add_is_extension(cuts: Seq<CutView>, c: CutView)
    ensures
        add_spec(cuts, c).len() >= cuts.len(),
        add_spec(cuts, c).take(cuts.len() as int) == cuts,
        cut_names(add_spec(cuts, c)).contains(cut_name(c)),
{
    let r = add_spec(cuts, c);
    assert(r.take(cuts.len() as int) =~= cuts);
    if !cut_names(cuts).contains(cut_name(c)) {
        assert(cut_names(r)[cuts.len() as int] == cut_name(c));
    }
}

proof fn lemma_names_of_prefix(longer: Seq<CutView>, shorter: Seq<CutView>, name: Seq<char>)
    requires
        longer.len() >= shorter.len(),
        longer.take(shorter.len() as int) == shorter,
        cut_names(shorter).contains(name),
    ensures
        cut_names(longer).contains(name),
{
    let k = choose|k: int| 0 <= k < cut_names(shorter).len() && cut_names(shorter)[k] == name;
    assert(longer[k] == shorter[k]);
    assert(cut_names(longer)[k] == name);
}

proof fn lemma_merge_is_extension(cuts: Seq<CutView>, others: Seq<CutView>)
    ensures
        merge_spec(cuts, others).len() >= cuts.len(),
        merge_spec(cuts, others).take(cuts.len() as int) == cuts,
        forall|i: int| 0 <= i < others.len() ==> cut_names(merge_spec(cuts, others)).contains(cut_name(#[trigger] others[i])),
    decreases others.len(),
{
    if others.len() > 0 {
        let prev = merge_spec(cuts, others.drop_last());
        lemma_merge_is_extension(cuts, others.drop_last());
        lemma_add_is_extension(prev, others.last());
        let r = merge_spec(cuts, others);
        assert(r.take(cuts.len() as int) =~= prev.take(cuts.len() as int));
        assert forall|i: int| 0 <= i < others.len() implies cut_names(r).contains(cut_name(#[trigger] others[i])) by {
            if i < others.len() - 1 {
                assert(others[i] == others.drop_last()[i]);
                lemma_names_of_prefix(r, prev, cut_name(others[i]));
            }
        }
    }
}

proof fn lemma_merge_of_known(cuts: Seq<CutView>, others: Seq<CutView>)
    requires
        forall|i: int| 0 <= i < others.len() ==> cut_names(cuts).contains(cut_name(#[trigger] others[i])),
    ensures
        merge_spec(cuts, others) == cuts,
    decreases others.len(),
{
    if others.len() > 0 {
        assert forall|i: int| 0 <= i < others.drop_last().len() implies cut_names(cuts).contains(
            cut_name(#[trigger] others.drop_last()[i]),
        ) by {
            assert(others.drop_last()[i] == others[i]);
        }
        lemma_merge_of_known(cuts, others.drop_last());
        assert(cut_names(cuts).contains(cut_name(others[others.len() - 1])));
    }
}

/// Merging the same cuts a second time changes nothing.
pub proof fn lemma_merge_idempotent(cuts: Seq<CutView>, others: Seq<CutView>)
    ensures
        merge_spec(merge_spec(cuts, others), others) == merge_spec(cuts, others),
{
    lemma_merge_is_extension(cuts, others);
    lemma_merge_of_known(merge_spec(cuts, others), others);
}

/// After a cut is added, a cut of its name is in the collection, and what was
/// there before stays, in the same order.
pub proof fn lemma_add_then_contains(cuts: Seq<CutView>, c: CutView)
    ensures
        cut_names(add_spec(cuts, c)).contains(cut_name(c)),
        add_spec(cuts, c).take(cuts.len() as int) == cuts,
{
    lemma_add_is_extension(cuts, c);
}

/// Adding a cut of a new name and then removing that name gives the
/// collection back.
pub proof fn lemma_remove_undoes_add(cuts: Seq<CutView>, c: CutView)
    requires
        !cut_names(cuts).contains(cut_name(c)),
    ensures
        remove_spec(add_spec(cuts, c), cut_name(c)) == cuts,
{
    let a = add_spec(cuts, c);
    let n = cuts.len() as int;
    assert(a == cuts.push(c));
    lemma_first_named_range(a, cut_name(c), n);
    assert forall|i: int| 0 <= i < n implies cut_name(#[trigger] a[i]) != cut_name(c) by {
        assert(cut_names(cuts)[i] == cut_name(cuts[i]));
    }
    if first_named(a, cut_name(c), n) >= 0 {
        let k = first_named(a, cut_name(c), n);
        assert(cut_name(a[k]) == cut_name(c));
    }
    assert(first_named(a, cut_name(c), n) == -1);
    assert(first_named(a, cut_name(c), n + 1) == n);
    assert(a.remove(n) =~= cuts);
}

/// Adding and merging keep the names of a collection distinct.
pub proof fn lemma_add_keeps_names_distinct(cuts: Seq<CutView>, c: CutView)
    requires
        names_distinct(cuts),
    ensures
        names_distinct(add_spec(cuts, c)),
{
    if !cut_names(cuts).contains(cut_name(c)) {
        let a = cuts.push(c);
        assert(cut_names(a) =~= cut_names(cuts).push(cut_name(c)));
        assert forall|i: int, j: int| 0 <= i < j < cut_names(a).len() implies cut_names(a)[i] != cut_names(a)[j] by {
            if j == cuts.len() {
                assert(cut_names(a)[i] == cut_names(cuts)[i]);
            } else {
                assert(cut_names(a)[i] == cut_names(cuts)[i]);
                assert(cut_names(a)[j] == cut_names(cuts)[j]);
            }
        }
    }
}

/// Merging keeps the names of a collection distinct.
pub proof fn lemma_merge_keeps_names_distinct(cuts: Seq<CutView>, others: Seq<CutView>)
    requires
        names_distinct(cuts),
    ensures
        names_distinct(merge_spec(cuts, others)),
    decreases others.len(),
{
    if others.len() > 0 {
        lemma_merge_keeps_names_distinct(cuts, others.drop_last());
        lemma_add_keeps_names_distinct(merge_spec(cuts, others.drop_last()), others.last());
    }
}

/// The key of a collection of cuts: their names in the order of strings,
/// joined with commas.
pub open spec fn key_spec(cuts: Seq<CutView>) -> Seq<char> {
    join_spec(sorted_names(cut_names(cuts)), seq![','])
}

/// A cut that a histogram holds, and whether it takes part in filtering.
#[derive(Clone, Debug)]
pub struct ActiveHistogramCut {
    pub histogram_name: String,
    pub enabled: bool,
    pub cut: Cut,
}

/// `cuts` with `c` in place of the first cut of its name, or added at the end
/// when there is none.
pub open spec fn replace_or_add(cuts: Seq<CutView>, c: CutView) -> Seq<CutView> {
    let k = first_named(cuts, cut_name(c), cuts.len() as int);
    if k >= 0 {
        cuts.update(k, c)
    } else {
        cuts.push(c)
    }
}

/// `cuts` with the cuts of the enabled entries of `active` put in, each in turn
/// as `replace_or_add` puts it.
pub open spec fn with_active_spec(cuts: Seq<CutView>, active: Seq<(bool, CutView)>) -> Seq<CutView>
    decreases active.len(),
{
    if active.len() == 0 {
        cuts
    } else {
        let prev = with_active_spec(cuts, active.drop_last());
        if active.last().0 {
            replace_or_add(prev, active.last().1)
        } else {
            prev
        }
    }
}

/// Whether each entry is enabled, with its cut.
pub open spec fn active_view(active: Seq<ActiveHistogramCut>) -> Seq<(bool, CutView)> {
    active.map_values(|a: ActiveHistogramCut| (a.enabled, a.cut@))
}

fn join_with_commas(parts: &Vec<String>) -> (r: String)
    ensures
        r@ == join_spec(names_view(parts@), seq![',']),
{
    let mut out: Vec<char> = Vec::new();
    let mut i: usize = 0;
    while i < parts.len()
        invariant
            i <= parts.len(),
            out@ == join_spec(names_view(parts@).take(i as int), seq![',']),
        decreases parts.len() - i,
    {
        let ghost before = out@;
        let ghost taken = names_view(parts@).take(i + 1);
        assert(taken.drop_last() =~= names_view(parts@).take(i as int));
        if i > 0 {
            out.push(',');
        }
        let part = chars_of(parts[i].as_str());
        let mut j: usize = 0;
        let ghost mid = out@;
        while j < part.len()
            invariant
                j <= part.len(),
                out@ == mid + part@.take(j as int),
            decreases part.len() - j,
        {
            out.push(part[j]);
            j += 1;
            assert(out@ =~= mid + part@.take(j as int));
        }
        assert(part@.take(part.len() as int) =~= part@);
        proof {
            if i == 0 {
                assert(before.len() == 0);
                assert(out@ =~= taken[0]);
            } else {
                assert(out@ =~= before + seq![','] + taken.last());
            }
        }
        i += 1;
    }
    assert(names_view(parts@).take(parts.len() as int) =~= names_view(parts@));
    string_of(&out)
}

impl Cuts {
    /// The names of the cuts.
    pub fn names(&self) -> (r: Vec<String>)
        ensures
            names_view(r@) == cut_names(self@),
    {
        let mut r: Vec<String> = Vec::new();
        let mut i: usize = 0;
        while i < self.cuts.len()
            invariant
                i <= self.cuts.len(),
                names_view(r@) == cut_names(self@).take(i as int),
            decreases self.cuts.len() - i,
        {
            let n = self.cuts[i].name().to_string();
            let ghost before = names_view(r@);
            r.push(n);
            assert(names_view(r@) =~= before.push(n@));
            i += 1;
            assert(names_view(r@) =~= cut_names(self@).take(i as int));
        }
        assert(cut_names(self@).take(self.cuts.len() as int) =~= cut_names(self@));
        r
    }

    /// A key that names the collection whatever the order of its cuts: the
    /// names sorted and joined with commas.
    pub fn generate_key(&self) -> (r: String)
        ensures
            r@ == key_spec(self@),
    {
        let names = self.names();
        let sorted = sort_names(&names);
        join_with_commas(&sorted)
    }

    /// The collection with the cuts of the enabled entries of `active_cuts`
    /// put in: each replaces the first cut of its name, or is added at the end.
    pub fn merged_with_active_cuts(&self, active_cuts: Option<&Vec<ActiveHistogramCut>>) -> (r: Self)
        ensures
            r@ == (match active_cuts {
                Some(a) => with_active_spec(self@, active_view(a@)),
                None => self@,
            }),
    {
        let mut merged: Vec<Cut> = Vec::new();
        let mut i: usize = 0;
        while i < self.cuts.len()
            invariant
                i <= self.cuts.len(),
                cuts_view(merged@) == self@.take(i as int),
            decreases self.cuts.len() - i,
        {
            let c = self.cuts[i].clone_exact();
            let ghost before = cuts_view(merged@);
            merged.push(c);
            assert(cuts_view(merged@) =~= before.push(c@));
            i += 1;
            assert(cuts_view(merged@) =~= self@.take(i as int));
        }
        assert(self@.take(self.cuts.len() as int) =~= self@);
        let mut result = Cuts { cuts: merged };
        if let Some(active) = active_cuts {
            let mut j: usize = 0;
            while j < active.len()
                invariant
                    j <= active.len(),
                    result@ == with_active_spec(self@, active_view(active@).take(j as int)),
                decreases active.len() - j,
            {
                assert(active_view(active@).take(j + 1).drop_last() =~= active_view(active@).take(j as int));
                if active[j].enabled {
                    let c = active[j].cut.clone_exact();
                    result.replace_or_add(c);
                }
                j += 1;
            }
            assert(active_view(active@).take(active.len() as int) =~= active_view(active@));
        }
        result
    }

    fn replace_or_add(&mut self, cut: Cut)
        ensures
            final(self)@ == replace_or_add(old(self)@, cut@),
    {
        let ghost start = self@;
        let ghost name = cut_name(cut@);
        let mut i: usize = 0;
        let mut found = false;
        while i < self.cuts.len()
            invariant_except_break
                i <= self.cuts.len(),
                !found,
                first_named(start, name, i as int) == -1,
            invariant
                self@ == start,
                name == cut_name(cut@),
            ensures
                found ==> i < self.cuts.len() && first_named(start, name, start.len() as int) == i,
                !found ==> first_named(start, name, start.len() as int) == -1,
            decreases self.cuts.len() - i,
        {
            if str_eq(self.cuts[i].name(), cut.name()) {
                assert(first_named(start, name, i + 1) == i);
                proof {
                    lemma_first_named_extends(start, name, i + 1);
                }
                found = true;
                break;
            }
            i += 1;
        }
        let ghost cv = cut@;
        if found {
            self.cuts.set(i, cut);
            assert(self@ =~= start.update(i as int, cv));
        } else {
            self.cuts.push(cut);
            assert(self@ =~= start.push(cv));
        }
    }
}

/// The key of a collection does not depend on the order of its cuts.
pub proof fn lemma_key_ignores_order(a: Seq<CutView>, b: Seq<CutView>)
    requires
        cut_names(a).to_multiset() == cut_names(b).to_multiset(),
    ensures
        key_spec(a) == key_spec(b),
{
    lemma_sorted_names_ignore_order(cut_names(a), cut_names(b));
}

/// What the condition pattern of the `regex` crate captures in `text`: the
/// column, the operator and the value of its leftmost match, if any.
pub uninterp spec fn condition_capture(text: Seq<char>) -> Option<(Seq<char>, Seq<char>, Seq<char>)>;

/// Matches `text` against the condition pattern
/// `(?P<column>\w+)\s*(?P<op>>=|<=|!=|==|>|<)\s*(?P<value>...)` with the `regex`
/// crate (`Regex::captures`) and hands back the three named groups of the
/// leftmost match. The contract names the result and says nothing more of it.
#[verifier::external_body]
fn capture_condition(text: &str) -> (r: Option<(String, String, String)>)
    ensures
        match r {
            Some((c, o, v)) => condition_capture(text@) == Some((c@, o@, v@)),
            None => condition_capture(text@) is None,
        },
{
    let condition_re = regex::Regex::new(
        r"(?P<column>\w+)\s*(?P<op>>=|<=|!=|==|>|<)\s*(?P<value>[+-]?(?:\d+(?:\.\d*)?|\.\d+)(?:[eE][+-]?\d+)?|[+-]?inf|nan)",
    ).expect("Failed to create regex");
    match condition_re.captures(text) {
        Some(caps) => Some((caps["column"].to_owned(), caps["op"].to_owned(), caps["value"].to_owned())),
        None => None,
    }
}

/// The pieces of `s` between the occurrences of `sep`, empty pieces included
/// (what `str::split` gives).
pub open spec fn split_on(s: Seq<char>, sep: char) -> Seq<Seq<char>>
    decreases s.len(),
{
    if s.len() == 0 {
        seq![Seq::empty()]
    } else {
        let p = split_on(s.drop_last(), sep);
        if s.last() == sep {
            p.push(Seq::empty())
        } else {
            p.update(p.len() - 1, p.last().push(s.last()))
        }
    }
}

proof fn lemma_split_on_nonempty(s: Seq<char>, sep: char)
    ensures
        split_on(s, sep).len() >= 1,
    decreases s.len(),
{
    if s.len() > 0 {
        lemma_split_on_nonempty(s.drop_last(), sep);
    }
}

/// A bracket turned into a space.
pub open spec fn unbracket(c: char) -> char {
    if c == '(' || c == ')' {
        ' '
    } else {
        c
    }
}

/// One piece of a cut expression made ready for matching: brackets turned into
/// spaces, then trimmed.
pub open spec fn cleaned_piece(piece: Seq<char>) -> Seq<char> {
    trim_spec(piece.map_values(|c: char| unbracket(c)))
}

/// The conditions read from the pieces of a cut expression, in order: each
/// piece whose cleaned text the pattern matches with a value std's `f64`
/// parser accepts gives one condition; the others are skipped.
pub open spec fn conditions_from(pieces: Seq<Seq<char>>) -> Seq<(Seq<char>, Seq<char>, Seq<char>)>
    decreases pieces.len(),
{
    if pieces.len() == 0 {
        Seq::empty()
    } else {
        let prev = conditions_from(pieces.drop_last());
        match condition_capture(cleaned_piece(pieces.last())) {
            Some(c) => if is_float_literal(c.2) {
                prev.push(c)
            } else {
                prev
            },
            None => prev,
        }
    }
}

/// The parsed form of a cut expression: none when it is blank, else the
/// conditions of its `&`-separated pieces.
pub open spec fn parse_spec(expression: Seq<char>) -> Option<Seq<(Seq<char>, Seq<char>, Seq<char>)>> {
    if trim_spec(expression).len() == 0 {
        None
    } else {
        Some(conditions_from(split_on(expression, '&')))
    }
}

fn split_on_exec(s: &Vec<char>, sep: char) -> (r: Vec<Vec<char>>)
    ensures
        r@.map_values(|x: Vec<char>| x@) == split_on(s@, sep),
{
    let mut pieces: Vec<Vec<char>> = Vec::new();
    let mut cur: Vec<char> = Vec::new();
    let mut i: usize = 0;
    assert(s@.take(0) =~= Seq::<char>::empty());
    assert(pieces@.map_values(|x: Vec<char>| x@).push(cur@) =~= split_on(s@.take(0), sep));
    while i < s.len()
        invariant
            i <= s.len(),
            pieces@.map_values(|x: Vec<char>| x@).push(cur@) == split_on(s@.take(i as int), sep),
        decreases s.len() - i,
    {
        let ghost before = pieces@.map_values(|x: Vec<char>| x@);
        let ghost prev = split_on(s@.take(i as int), sep);
        assert(s@.take(i + 1).drop_last() =~= s@.take(i as int));
        assert(s@.take(i + 1).last() == s@[i as int]);
        if s[i] == sep {
            let done = cur;
            cur = Vec::new();
            pieces.push(done);
            assert(pieces@.map_values(|x: Vec<char>| x@) =~= before.push(done@));
            assert(pieces@.map_values(|x: Vec<char>| x@).push(cur@) =~= prev.push(Seq::empty()));
        } else {
            let ghost old_cur = cur@;
            cur.push(s[i]);
            assert(pieces@.map_values(|x: Vec<char>| x@).push(cur@) =~= prev.update(
                prev.len() - 1,
                prev.last().push(s@[i as int]),
            ));
        }
        i += 1;
    }
    assert(s@.take(s.len() as int) =~= s@);
    let ghost before = pieces@.map_values(|x: Vec<char>| x@);
    let last = cur;
    pieces.push(last);
    assert(pieces@.map_values(|x: Vec<char>| x@) =~= before.push(last@));
    pieces
}

fn clean_piece(piece: &Vec<char>) -> (r: Vec<char>)
    ensures
        r@ == cleaned_piece(piece@),
{
    let mut m: Vec<char> = Vec::new();
    let mut i: usize = 0;
    while i < piece.len()
        invariant
            i <= piece.len(),
            m@ == piece@.take(i as int).map_values(|c: char| unbracket(c)),
        decreases piece.len() - i,
    {
        let c = piece[i];
        m.push(if c == '(' || c == ')' { ' ' } else { c });
        i += 1;
        assert(m@ =~= piece@.take(i as int).map_values(|c: char| unbracket(c)));
    }
    assert(piece@.take(piece.len() as int) =~= piece@);
    trim_chars(&m)
}

/// The condition a piece gives, from what the condition pattern captured in
/// it: none when nothing was captured or std's `f64` parser would refuse the
/// value; otherwise the captured column, operator and value.
pub fn condition_from_capture(capture: Option<(String, String, String)>) -> (r: Option<ParsedCondition>)
    ensures
        match capture {
            Some((c, o, v)) => if is_float_literal(v@) {
                r is Some && r.unwrap()@ == (c@, o@, v@)
            } else {
                r is None
            },
            None => r is None,
        },
{
    match capture {
        Some((column_name, operator, literal_value)) => {
            let value = chars_of(literal_value.as_str());
            if check_float_literal(&value) {
                Some(ParsedCondition { column_name, operator, literal_value })
            } else {
                None
            }
        },
        None => None,
    }
}

impl Cut1D {
    /// Parses the expression into conditions: none when it is blank; else,
    /// for each `&`-separated piece with its brackets turned into spaces and
    /// trimmed, the column, operator and value that the condition pattern
    /// captures, skipping pieces it does not match or whose value std's `f64`
    /// parser would refuse.
    pub fn parse_conditions(&mut self)
        ensures
            final(self)@ == (Cut1DView { conditions: parse_spec(old(self)@.expression), ..old(self)@ }),
    {
        let trimmed = trimmed_chars(self.expression.as_str());
        if trimmed.len() == 0 {
            self.parsed_conditions = None;
            return;
        }
        let expression = chars_of(self.expression.as_str());
        let pieces = split_on_exec(&expression, '&');
        let ghost pv = pieces@.map_values(|x: Vec<char>| x@);
        let mut conditions: Vec<ParsedCondition> = Vec::new();
        let mut i: usize = 0;
        while i < pieces.len()
            invariant
                i <= pieces.len(),
                pv == pieces@.map_values(|x: Vec<char>| x@),
                conditions_view(conditions@) == conditions_from(pv.take(i as int)),
            decreases pieces.len() - i,
        {
            assert(pv.take(i + 1).drop_last() =~= pv.take(i as int));
            assert(pv.take(i + 1).last() == pieces@[i as int]@);
            let cleaned = clean_piece(&pieces[i]);
            let text = string_of(&cleaned);
            match condition_from_capture(capture_condition(text.as_str())) {
                Some(c) => {
                    let ghost before = conditions_view(conditions@);
                    conditions.push(c);
                    assert(conditions_view(conditions@) =~= before.push(c@));
                },
                None => {},
            }
            i += 1;
        }
        assert(pv.take(pieces.len() as int) =~= pv);
        self.parsed_conditions = Some(conditions);
    }
}

impl Cuts {
    /// Parses the expression of every 1D cut; 2D cuts are left as they are.
    pub fn parse_conditions(&mut self)
        ensures
            final(self)@.len() == old(self)@.len(),
            forall|i: int|
                0 <= i < old(self)@.len() ==> (#[trigger] final(self)@[i]) == match old(self)@[i] {
                    CutView::Cut1D(c) => CutView::Cut1D(Cut1DView { conditions: parse_spec(c.expression), ..c }),
                    CutView::Cut2D(c) => CutView::Cut2D(c),
                },
    {
        let ghost start = self@;
        let mut i: usize = 0;
        while i < self.cuts.len()
            invariant
                i <= self.cuts.len() == start.len(),
                forall|k: int|
                    0 <= k < i ==> (#[trigger] self@[k]) == match start[k] {
                        CutView::Cut1D(c) => CutView::Cut1D(Cut1DView { conditions: parse_spec(c.expression), ..c }),
                        CutView::Cut2D(c) => CutView::Cut2D(c),
                    },
                forall|k: int| i <= k < self.cuts.len() ==> (#[trigger] self@[k]) == start[k],
            decreases self.cuts.len() - i,
        {
            assert(self@[i as int] == start[i as int]);
            assert(self.cuts@[i as int]@ == start[i as int]);
            let c = match &self.cuts[i] {
                Cut::Cut1D(one) => {
                    let mut parsed = one.clone_exact();
                    parsed.parse_conditions();
                    assert(start[i as int] == CutView::Cut1D(one@));
                    Cut::Cut1D(parsed)
                },
                Cut::Cut2D(two) => {
                    assert(start[i as int] == CutView::Cut2D(two@));
                    Cut::Cut2D(two.clone_exact())
                },
            };
            let ghost before = self@;
            let ghost cv = c@;
            assert(cv == match start[i as int] {
                CutView::Cut1D(c) => CutView::Cut1D(Cut1DView { conditions: parse_spec(c.expression), ..c }),
                CutView::Cut2D(c) => CutView::Cut2D(c),
            });
            self.cuts.set(i, c);
            assert(self@ =~= before.update(i as int, cv));
            i += 1;
        }
    }
}

/// Every column a cut reads is among `names`.
pub open spec fn columns_present(c: CutView, names: Seq<Seq<char>>) -> bool {
    forall|i: int| 0 <= i < cut_columns(c).len() ==> names.contains(#[trigger] cut_columns(c)[i])
}

/// The cuts a histogram keeps once the columns are known: the active ones
/// whose columns are all there, in order.
pub open spec fn usable_spec(cuts: Seq<CutView>, names: Seq<Seq<char>>) -> Seq<CutView>
    decreases cuts.len(),
{
    if cuts.len() == 0 {
        Seq::empty()
    } else {
        let prev = usable_spec(cuts.drop_last(), names);
        if columns_present(cuts.last(), names) && cut_active(cuts.last()) {
            prev.push(cuts.last())
        } else {
            prev
        }
    }
}

/// The cuts kept once the columns are known, active or not: those whose
/// columns are all there, each added as `add_spec` adds it.
pub open spec fn available_spec(cuts: Seq<CutView>, names: Seq<Seq<char>>) -> Seq<CutView>
    decreases cuts.len(),
{
    if cuts.len() == 0 {
        Seq::empty()
    } else {
        let prev = available_spec(cuts.drop_last(), names);
        if columns_present(cuts.last(), names) {
            add_spec(prev, cuts.last())
        } else {
            prev
        }
    }
}

/// A histogram's cuts brought in line with the cuts on offer: each is
/// replaced by the first offered cut of its name, and those of a name not on
/// offer are dropped.
pub open spec fn sync_spec(cuts: Seq<CutView>, offered: Seq<CutView>) -> Seq<CutView>
    decreases cuts.len(),
{
    if cuts.len() == 0 {
        Seq::empty()
    } else {
        let prev = sync_spec(cuts.drop_last(), offered);
        let k = first_named(offered, cut_name(cuts.last()), offered.len() as int);
        if k >= 0 {
            prev.push(offered[k])
        } else {
            prev
        }
    }
}

fn all_columns_present(c: &Cut, names: &Vec<String>) -> (r: bool)
    ensures
        r == columns_present(c@, names_view(names@)),
{
    let cols = c.required_columns();
    let ghost cv = names_view(cols@);
    let mut i: usize = 0;
    while i < cols.len()
        invariant
            i <= cols.len(),
            cv == names_view(cols@),
            cv == cut_columns(c@),
            forall|k: int| 0 <= k < i ==> names_view(names@).contains(#[trigger] cv[k]),
        decreases cols.len() - i,
    {
        assert(cv[i as int] == cols@[i as int]@);
        if !crate::names::contains_string(names, &cols[i]) {
            return false;
        }
        i += 1;
    }
    true
}

impl Cuts {
    /// The cuts a histogram keeps once the columns are known; see
    /// `usable_spec`.
    pub fn usable_with_columns(&self, column_names: &Vec<String>) -> (r: Self)
        ensures
            r@ == usable_spec(self@, names_view(column_names@)),
    {
        let ghost nv = names_view(column_names@);
        let mut out: Vec<Cut> = Vec::new();
        let mut i: usize = 0;
        while i < self.cuts.len()
            invariant
                i <= self.cuts.len(),
                nv == names_view(column_names@),
                cuts_view(out@) == usable_spec(self@.take(i as int), nv),
            decreases self.cuts.len() - i,
        {
            assert(self@.take(i + 1).drop_last() =~= self@.take(i as int));
            assert(self@.take(i + 1).last() == self.cuts@[i as int]@);
            if all_columns_present(&self.cuts[i], column_names) && self.cuts[i].is_active() {
                let c = self.cuts[i].clone_exact();
                let ghost before = cuts_view(out@);
                out.push(c);
                assert(cuts_view(out@) =~= before.push(c@));
            }
            i += 1;
        }
        assert(self@.take(self.cuts.len() as int) =~= self@);
        Cuts { cuts: out }
    }

    /// The cuts kept once the columns are known, active or not; see
    /// `available_spec`.
    pub fn available_with_columns(&self, column_names: &Vec<String>) -> (r: Self)
        ensures
            r@ == available_spec(self@, names_view(column_names@)),
    {
        let ghost nv = names_view(column_names@);
        let mut out = Cuts { cuts: Vec::new() };
        assert(out@ =~= Seq::<CutView>::empty());
        let mut i: usize = 0;
        while i < self.cuts.len()
            invariant
                i <= self.cuts.len(),
                nv == names_view(column_names@),
                out@ == available_spec(self@.take(i as int), nv),
            decreases self.cuts.len() - i,
        {
            assert(self@.take(i + 1).drop_last() =~= self@.take(i as int));
            assert(self@.take(i + 1).last() == self.cuts@[i as int]@);
            if all_columns_present(&self.cuts[i], column_names) {
                let c = self.cuts[i].clone_exact();
                out.add_cut(c);
            }
            i += 1;
        }
        assert(self@.take(self.cuts.len() as int) =~= self@);
        out
    }

    /// Brings a histogram's cuts in line with the cuts on offer; see
    /// `sync_spec`.
    pub fn sync_with(&mut self, offered: &Cuts)
        ensures
            final(self)@ == sync_spec(old(self)@, offered@),
    {
        let ghost start = self@;
        let mut out: Vec<Cut> = Vec::new();
        let mut i: usize = 0;
        while i < self.cuts.len()
            invariant
                i <= self.cuts.len(),
                start == self@,
                cuts_view(out@) == sync_spec(start.take(i as int), offered@),
            decreases self.cuts.len() - i,
        {
            assert(start.take(i + 1).drop_last() =~= start.take(i as int));
            assert(start.take(i + 1).last() == self.cuts@[i as int]@);
            let ghost name = cut_name(self.cuts@[i as int]@);
            let mut j: usize = 0;
            let mut found = false;
            while j < offered.cuts.len()
                invariant_except_break
                    j <= offered.cuts.len(),
                    !found,
                    first_named(offered@, name, j as int) == -1,
                invariant
                    i < self.cuts.len(),
                    name == cut_name(self.cuts@[i as int]@),
                ensures
                    found ==> j < offered.cuts.len() && first_named(offered@, name, offered@.len() as int) == j,
                    !found ==> first_named(offered@, name, offered@.len() as int) == -1,
                decreases offered.cuts.len() - j,
            {
                if str_eq(offered.cuts[j].name(), self.cuts[i].name()) {
                    assert(first_named(offered@, name, j + 1) == j);
                    proof {
                        lemma_first_named_extends(offered@, name, j + 1);
                    }
                    found = true;
                    break;
                }
                j += 1;
            }
            if found {
                let c = offered.cuts[j].clone_exact();
                let ghost before = cuts_view(out@);
                out.push(c);
                assert(cuts_view(out@) =~= before.push(offered@[j as int]));
            }
            i += 1;
        }
        assert(start.take(self.cuts.len() as int) =~= start);
        self.cuts = out;
    }
}

/// Every cut a histogram keeps is active and reads only columns that are
/// there.
pub proof fn lemma_usable_cuts_are_usable(cuts: Seq<CutView>, names: Seq<Seq<char>>)
    ensures
        forall|i: int|
            0 <= i < usable_spec(cuts, names).len() ==> cut_active(#[trigger] usable_spec(cuts, names)[i])
                && columns_present(usable_spec(cuts, names)[i], names),
    decreases cuts.len(),
{
    if cuts.len() > 0 {
        lemma_usable_cuts_are_usable(cuts.drop_last(), names);
        let prev = usable_spec(cuts.drop_last(), names);
        let r = usable_spec(cuts, names);
        assert forall|i: int| 0 <= i < r.len() implies cut_active(#[trigger] r[i]) && columns_present(r[i], names) by {
            if i < prev.len() {
                assert(r[i] == prev[i]);
            }
        }
    }
}

/// The cuts kept once the columns are known have distinct names.
pub proof fn lemma_available_names_distinct(cuts: Seq<CutView>, names: Seq<Seq<char>>)
    ensures
        names_distinct(available_spec(cuts, names)),
    decreases cuts.len(),
{
    if cuts.len() == 0 {
        assert(cut_names(Seq::<CutView>::empty()) =~= Seq::<Seq<char>>::empty());
    } else {
        lemma_available_names_distinct(cuts.drop_last(), names);
        if columns_present(cuts.last(), names) {
            lemma_add_keeps_names_distinct(available_spec(cuts.drop_last(), names), cuts.last());
        }
    }
}

/// After a histogram's cuts are brought in line with the cuts on offer, each
/// of them is an offered cut, taken as it is offered.
pub proof fn lemma_synced_cuts_are_offered(cuts: Seq<CutView>, offered: Seq<CutView>)
    ensures
        forall|i: int| 0 <= i < sync_spec(cuts, offered).len() ==> offered.contains(#[trigger] sync_spec(cuts, offered)[i]),
    decreases cuts.len(),
{
    if cuts.len() > 0 {
        lemma_synced_cuts_are_offered(cuts.drop_last(), offered);
        let prev = sync_spec(cuts.drop_last(), offered);
        let r = sync_spec(cuts, offered);
        let k = first_named(offered, cut_name(cuts.last()), offered.len() as int);
        lemma_first_named_range(offered, cut_name(cuts.last()), offered.len() as int);
        assert forall|i: int| 0 <= i < r.len() implies offered.contains(#[trigger] r[i]) by {
            if i < prev.len() {
                assert(r[i] == prev[i]);
            } else {
                assert(r[i] == offered[k]);
            }
        }
    }
}

/// The cuts a histogram keeps are among the cuts it had.
pub proof fn lemma_usable_cuts_are_kept_cuts(cuts: Seq<CutView>, names: Seq<Seq<char>>)
    ensures
        forall|i: int| 0 <= i < usable_spec(cuts, names).len() ==> cuts.contains(#[trigger] usable_spec(cuts, names)[i]),
    decreases cuts.len(),
{
    if cuts.len() > 0 {
        lemma_usable_cuts_are_kept_cuts(cuts.drop_last(), names);
        let prev = usable_spec(cuts.drop_last(), names);
        let r = usable_spec(cuts, names);
        assert forall|i: int| 0 <= i < r.len() implies cuts.contains(#[trigger] r[i]) by {
            if i < prev.len() {
                assert(r[i] == prev[i]);
                let k = choose|k: int| 0 <= k < cuts.drop_last().len() && cuts.drop_last()[k] == prev[i];
                assert(cuts[k] == prev[i]);
            } else {
                assert(r[i] == cuts[cuts.len() - 1]);
            }
        }
    }
}

/// Selecting the active cuts keeps exactly the cuts whose `active` flag is
/// set, 1D and 2D alike, in their order: it is the collection filtered by
/// that flag.
pub proof fn lemma_active_cuts_are_the_switched_on_ones(cuts: Seq<CutView>)
    ensures
        active_spec(cuts) == cuts.filter(
            |c: CutView|
                match c {
                    CutView::Cut1D(v) => v.active,
                    CutView::Cut2D(v) => v.active,
                },
        ),
        forall|i: int|
            0 <= i < active_spec(cuts).len() ==> match #[trigger] active_spec(cuts)[i] {
                CutView::Cut1D(v) => v.active,
                CutView::Cut2D(v) => v.active,
            },
        forall|j: int|
            0 <= j < cuts.len() && (match #[trigger] cuts[j] {
                CutView::Cut1D(v) => v.active,
                CutView::Cut2D(v) => v.active,
            }) ==> active_spec(cuts).contains(cuts[j]),
    decreases cuts.len(),
{
    let on = |c: CutView|
        match c {
            CutView::Cut1D(v) => v.active,
            CutView::Cut2D(v) => v.active,
        };
    reveal(Seq::filter);
    if cuts.len() > 0 {
        lemma_active_cuts_are_the_switched_on_ones(cuts.drop_last());
    }
    assert(active_spec(cuts) =~= cuts.filter(on));
    broadcast use vstd::seq_lib::group_filter_ensures;
    assert forall|j: int|
        0 <= j < cuts.len() && (match #[trigger] cuts[j] {
            CutView::Cut1D(v) => v.active,
            CutView::Cut2D(v) => v.active,
        }) implies active_spec(cuts).contains(cuts[j]) by {
        assert(on(cuts[j]));
    }
    assert forall|i: int| 0 <= i < active_spec(cuts).len() implies match #[trigger] active_spec(cuts)[i] {
        CutView::Cut1D(v) => v.active,
        CutView::Cut2D(v) => v.active,
    } by {
        assert(on(cuts.filter(on)[i]));
    }
}

} // verus!
