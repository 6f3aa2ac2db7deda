//! Which computed columns a data set gains, and in which order: each computed
//! column is expanded over the column groups against the columns there so
//! far, and each expansion is added when its dependencies are there, its
//! alias is valid and its expression can be read.
use vstd::prelude::*;
use crate::computed::{
    all_available, computed_column_dependencies, dependencies_spec, expand_grouped_computed_columns,
    expand_grouped_spec, groups_view,
};
use crate::expr_parser::{computed_column_expression, parse_expression_spec, tree_view, ExprTree, TreeView};
use crate::identifiers::is_valid_alias_spec;
use crate::names::{contains_string, names_view, pairs_view, ColumnGroup};
use crate::sources::{build_source_group_resolver_for_columns, resolver_fit, resolver_state};
use crate::computed::named_aliases_fit;
use crate::text::{trim_spec, trimmed_chars};

verus! {

/// The columns there so far, and the computed columns added so far (tree and
/// alias), in order.
pub type PlanState = (Seq<Seq<char>>, Seq<(TreeView, Seq<char>)>);

/// One expansion `(expression, alias)` tried against the state: it is added
/// when every column it depends on is there, its alias is valid and its
/// expression can be read; its alias joins the columns unless it replaces one
/// already there.
pub open spec fn expansion_step(st: PlanState, expression: Seq<char>, alias: Seq<char>, variables: Seq<Seq<char>>) -> PlanState {
    let deps = dependencies_spec(expression, variables);
    if !(forall|i: int| 0 <= i < deps.len() ==> st.0.contains(#[trigger] deps[i])) {
        st
    } else if !is_valid_alias_spec(alias) {
        st
    } else {
        match parse_expression_spec(expression, variables) {
            None => st,
            Some(t) => (
                if st.0.contains(alias) {
                    st.0
                } else {
                    st.0.push(alias)
                },
                st.1.push((t, alias)),
            ),
        }
    }
}

/// The expansions tried in order.
pub open spec fn expansions_run(st: PlanState, pairs: Seq<(Seq<char>, Seq<char>)>, variables: Seq<Seq<char>>) -> PlanState
    decreases pairs.len(),
{
    if pairs.len() == 0 {
        st
    } else {
        let prev = expansions_run(st, pairs.drop_last(), variables);
        expansion_step(prev, pairs.last().0, pairs.last().1, variables)
    }
}

/// The computed columns `(expression, alias)` tried in order, starting from
/// the columns `names`: one with a blank alias is skipped; otherwise it is
/// expanded over the column groups resolved against the columns there so far,
/// and its expansions are tried in order.
pub open spec fn plan_state(
    names: Seq<Seq<char>>,
    computed: Seq<(Seq<char>, Seq<char>)>,
    groups: Seq<(Seq<char>, Seq<Seq<char>>)>,
    variables: Seq<Seq<char>>,
) -> PlanState
    decreases computed.len(),
{
    if computed.len() == 0 {
        (names, Seq::empty())
    } else {
        let prev = plan_state(names, computed.drop_last(), groups, variables);
        let c = computed.last();
        if trim_spec(c.1).len() == 0 {
            prev
        } else {
            expansions_run(
                prev,
                expand_grouped_spec(c.0, c.1, variables, resolver_state(groups, prev.0).0),
                variables,
            )
        }
    }
}

/// The columns keep what they had at the start, and every computed column
/// added is among them.
pub open spec fn plan_keeps(base: Seq<Seq<char>>, st: PlanState) -> bool {
    &&& base.len() <= st.0.len()
    &&& st.0.take(base.len() as int) == base
    &&& forall|j: int| 0 <= j < st.1.len() ==> st.0.contains(#[trigger] st.1[j].1)
}

proof fn lemma_step_keeps(base: Seq<Seq<char>>, st: PlanState, e: Seq<char>, a: Seq<char>, vars: Seq<Seq<char>>)
    requires
        plan_keeps(base, st),
    ensures
        plan_keeps(base, expansion_step(st, e, a, vars)),
{
    let r = expansion_step(st, e, a, vars);
    if r != st {
        if !st.0.contains(a) {
            assert(st.0.push(a).take(base.len() as int) =~= st.0.take(base.len() as int));
            assert forall|j: int| 0 <= j < r.1.len() implies r.0.contains(#[trigger] r.1[j].1) by {
                if j < st.1.len() {
                    let k = choose|k: int| 0 <= k < st.0.len() && st.0[k] == st.1[j].1;
                    assert(r.0[k] == st.1[j].1);
                } else {
                    assert(r.0[st.0.len() as int] == a);
                }
            }
        }
    }
}

proof fn lemma_run_keeps(base: Seq<Seq<char>>, st: PlanState, pairs: Seq<(Seq<char>, Seq<char>)>, vars: Seq<Seq<char>>)
    requires
        plan_keeps(base, st),
    ensures
        plan_keeps(base, expansions_run(st, pairs, vars)),
    decreases pairs.len(),
{
    if pairs.len() > 0 {
        lemma_run_keeps(base, st, pairs.drop_last(), vars);
        lemma_step_keeps(base, expansions_run(st, pairs.drop_last(), vars), pairs.last().0, pairs.last().1, vars);
    }
}

/// Adding computed columns keeps the columns that were there, in order at the
/// front, and every computed column added is among the columns afterwards.
pub proof fn lemma_added_columns_are_available(
    names: Seq<Seq<char>>,
    computed: Seq<(Seq<char>, Seq<char>)>,
    groups: Seq<(Seq<char>, Seq<Seq<char>>)>,
    variables: Seq<Seq<char>>,
)
    ensures
        plan_keeps(names, plan_state(names, computed, groups, variables)),
    decreases computed.len(),
{
    if computed.len() == 0 {
        assert(names.take(names.len() as int) =~= names);
    } else {
        lemma_added_columns_are_available(names, computed.drop_last(), groups, variables);
        let prev = plan_state(names, computed.drop_last(), groups, variables);
        let c = computed.last();
        if trim_spec(c.1).len() != 0 {
            lemma_run_keeps(
                names,
                prev,
                expand_grouped_spec(c.0, c.1, variables, resolver_state(groups, prev.0).0),
                variables,
            );
        }
    }
}

/// The added computed columns seen as trees and aliases.
pub open spec fn additions_view(r: Seq<(ExprTree, String)>) -> Seq<(TreeView, Seq<char>)> {
    r.map_values(|p: (ExprTree, String)| (tree_view(p.0), p.1@))
}

fn try_expansion(
    column_names: &mut Vec<String>,
    out: &mut Vec<(ExprTree, String)>,
    expression: &String,
    alias: &String,
    variable_names: &Vec<String>,
)
    ensures
        ({
            let st = expansion_step(
                (names_view(old(column_names)@), additions_view(old(out)@)),
                expression@,
                alias@,
                names_view(variable_names@),
            );
            names_view(final(column_names)@) == st.0 && additions_view(final(out)@) == st.1
        }),
{
    let replacing = contains_string(column_names, alias);
    let deps = computed_column_dependencies(expression.as_str(), variable_names);
    if !all_available(&deps, column_names) {
        return;
    }
    match computed_column_expression(expression.as_str(), alias.as_str(), variable_names) {
        Ok(t) => {
            let ghost before = additions_view(out@);
            let ghost tv = tree_view(t);
            out.push((t, alias.clone()));
            assert(additions_view(out@) =~= before.push((tv, alias@)));
            if !replacing {
                let ghost names_before = names_view(column_names@);
                column_names.push(alias.clone());
                assert(names_view(column_names@) =~= names_before.push(alias@));
            }
        },
        Err(_) => {},
    }
}

/// Adding the computed columns reads every number without failing and names
/// no over-long group alias: for each computed column with an alias, the
/// groups resolve against the columns there so far (see `resolver_fit`) and
/// the groups its expression names fit (see `named_aliases_fit`).
pub open spec fn plan_fit(
    names: Seq<Seq<char>>,
    computed: Seq<(Seq<char>, Seq<char>)>,
    groups: Seq<(Seq<char>, Seq<Seq<char>>)>,
    variables: Seq<Seq<char>>,
) -> bool {
    forall|i: int| 0 <= i < computed.len() ==> #[trigger] plan_step_fit(names, computed, groups, variables, i)
}

/// Computed column `i` has a blank alias (and is skipped), or the groups
/// resolve against the columns there before it is added, and the groups its
/// expression names fit.
pub open spec fn plan_step_fit(
    names: Seq<Seq<char>>,
    computed: Seq<(Seq<char>, Seq<char>)>,
    groups: Seq<(Seq<char>, Seq<Seq<char>>)>,
    variables: Seq<Seq<char>>,
    i: int,
) -> bool {
    let st = plan_state(names, computed.take(i), groups, variables).0;
    trim_spec(computed[i].1).len() == 0 || (resolver_fit(groups, st) && named_aliases_fit(
        computed[i].0,
        variables,
        resolver_state(groups, st).0,
    ))
}

/// The computed columns that the columns `column_names` gain from
/// `computed_columns` (pairs of expression and alias), in the order they are
/// added, each as its expression tree and alias; see `plan_state`. The
/// aliases of added columns that are new join `column_names`.
pub fn computed_columns_to_add(
    column_names: &mut Vec<String>,
    computed_columns: &Vec<(String, String)>,
    column_groups: &Vec<ColumnGroup>,
    variable_names: &Vec<String>,
) -> (r: Vec<(ExprTree, String)>)
    requires
        plan_fit(
            names_view(column_names@),
            pairs_view(computed_columns@),
            groups_view(column_groups@),
            names_view(variable_names@),
        ),
    ensures
        ({
            let st = plan_state(
                names_view(old(column_names)@),
                pairs_view(computed_columns@),
                groups_view(column_groups@),
                names_view(variable_names@),
            );
            names_view(final(column_names)@) == st.0 && additions_view(r@) == st.1
        }),
{
    let ghost base = names_view(column_names@);
    let ghost cv = pairs_view(computed_columns@);
    let ghost gv = groups_view(column_groups@);
    let ghost vars = names_view(variable_names@);
    let mut out: Vec<(ExprTree, String)> = Vec::new();
    let mut i: usize = 0;
    assert(cv.take(0) =~= Seq::<(Seq<char>, Seq<char>)>::empty());
    assert(additions_view(out@) =~= Seq::<(TreeView, Seq<char>)>::empty());
    while i < computed_columns.len()
        invariant
            i <= computed_columns.len(),
            cv == pairs_view(computed_columns@),
            gv == groups_view(column_groups@),
            vars == names_view(variable_names@),
            plan_fit(base, cv, gv, vars),
            ({
                let st = plan_state(base, cv.take(i as int), gv, vars);
                names_view(column_names@) == st.0 && additions_view(out@) == st.1
            }),
        decreases computed_columns.len() - i,
    {
        assert(cv.take(i + 1).drop_last() =~= cv.take(i as int));
        assert(cv.take(i + 1).last() == (computed_columns@[i as int].0@, computed_columns@[i as int].1@));
        let alias_chars = trimmed_chars(computed_columns[i].1.as_str());
        if alias_chars.len() > 0 {
            assert(plan_step_fit(base, cv, gv, vars, i as int));
            let resolver = build_source_group_resolver_for_columns(column_groups, column_names);
            let expanded = expand_grouped_computed_columns(
                computed_columns[i].0.as_str(),
                computed_columns[i].1.as_str(),
                variable_names,
                &resolver,
            );
            let ghost ev = pairs_view(expanded@);
            let ghost start = (names_view(column_names@), additions_view(out@));
            let mut k: usize = 0;
            assert(ev.take(0) =~= Seq::<(Seq<char>, Seq<char>)>::empty());
            while k < expanded.len()
                invariant
                    k <= expanded.len(),
                    ev == pairs_view(expanded@),
                    vars == names_view(variable_names@),
                    ({
                        let st = expansions_run(start, ev.take(k as int), vars);
                        names_view(column_names@) == st.0 && additions_view(out@) == st.1
                    }),
                decreases expanded.len() - k,
            {
                assert(ev.take(k + 1).drop_last() =~= ev.take(k as int));
                assert(ev.take(k + 1).last() == (expanded@[k as int].0@, expanded@[k as int].1@));
                try_expansion(column_names, &mut out, &expanded[k].0, &expanded[k].1, variable_names);
                k += 1;
            }
            assert(ev.take(expanded.len() as int) =~= ev);
        }
        i += 1;
    }
    assert(cv.take(computed_columns.len() as int) =~= cv);
    out
}

} // verus!
