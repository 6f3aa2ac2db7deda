//! The rules by which histogram configurations are combined and checked:
//! merging computed columns, variables and column groups from another
//! configuration, putting calibration columns first, keeping the variables that
//! may be used, and the list of columns a configuration reads.
use vstd::prelude::*;
use crate::identifiers::{is_identifier, is_valid_identifier_name};
use crate::names::{contains_pair, contains_string, names_view, normalize_names_spec, pairs_view, ColumnGroup};
use crate::text::string_of;
use crate::sorting::{lemma_lex_total_ordering, lex_order, sort_names, sorted_names};
use vstd::relations::sorted_by;
use crate::text::{trim_spec, trimmed_chars};

verus! {

/// The view of a list of (expression, alias) pairs.
pub open spec fn columns_view(columns: Seq<(String, String)>) -> Seq<(Seq<char>, Seq<char>)> {
    columns.map_values(|c: (String, String)| (c.0@, c.1@))
}

/// The aliases of a list of (expression, alias) pairs.
pub open spec fn aliases_of(columns: Seq<(Seq<char>, Seq<char>)>) -> Seq<Seq<char>> {
    columns.map_values(|c: (Seq<char>, Seq<char>)| c.1)
}

/// `columns` with each pair of `other` added at the end in turn, unless a pair
/// with its alias is there by then.
pub open spec fn merge_columns_spec(
    columns: Seq<(Seq<char>, Seq<char>)>,
    other: Seq<(Seq<char>, Seq<char>)>,
) -> Seq<(Seq<char>, Seq<char>)>
    decreases other.len(),
{
    if other.len() == 0 {
        columns
    } else {
        let prev = merge_columns_spec(columns, other.drop_last());
        if aliases_of(prev).contains(other.last().1) {
            prev
        } else {
            prev.push(other.last())
        }
    }
}

fn alias_index(columns: &Vec<(String, String)>, alias: &String) -> (r: bool)
    ensures
        r == aliases_of(columns_view(columns@)).contains(alias@),
{
    let ghost a = aliases_of(columns_view(columns@));
    let mut i: usize = 0;
    while i < columns.len()
        invariant
            i <= columns.len(),
            a == aliases_of(columns_view(columns@)),
            forall|k: int| 0 <= k < i ==> a[k] != alias@,
        decreases columns.len() - i,
    {
        assert(a[i as int] == columns@[i as int].1@);
        if columns[i].1 == *alias {
            return true;
        }
        i += 1;
    }
    false
}

/// Adds the computed columns of `other` whose alias is not taken yet; a pair
/// whose alias is taken is left out, whatever its expression.
pub fn merge_computed_columns(columns: &mut Vec<(String, String)>, other: Vec<(String, String)>)
    ensures
        columns_view(final(columns)@) == merge_columns_spec(columns_view(old(columns)@), columns_view(other@)),
{
    let ghost start = columns_view(columns@);
    let ghost ov = columns_view(other@);
    let mut i: usize = 0;
    while i < other.len()
        invariant
            i <= other.len(),
            ov == columns_view(other@),
            columns_view(columns@) == merge_columns_spec(start, ov.take(i as int)),
        decreases other.len() - i,
    {
        assert(ov.take(i + 1).drop_last() =~= ov.take(i as int));
        assert(ov.take(i + 1).last() == ov[i as int]);
        if !alias_index(columns, &other[i].1) {
            let pair = (other[i].0.clone(), other[i].1.clone());
            let ghost before = columns_view(columns@);
            columns.push(pair);
            assert(columns_view(columns@) =~= before.push(ov[i as int]));
        }
        i += 1;
    }
    assert(ov.take(other.len() as int) =~= ov);
}

/// The names of a list of (name, value) pairs.
pub open spec fn pair_names<T>(pairs: Seq<(String, T)>) -> Seq<Seq<char>> {
    pairs.map_values(|p: (String, T)| p.0@)
}

/// `variables` with each pair of `other` added at the end in turn, unless a
/// pair of its name is there by then.
pub open spec fn merge_variables_spec<T>(variables: Seq<(String, T)>, other: Seq<(String, T)>) -> Seq<(String, T)>
    decreases other.len(),
{
    if other.len() == 0 {
        variables
    } else {
        let prev = merge_variables_spec(variables, other.drop_last());
        if pair_names(prev).contains(other.last().0@) {
            prev
        } else {
            prev.push(other.last())
        }
    }
}

fn has_pair_named<T>(pairs: &Vec<(String, T)>, name: &String) -> (r: bool)
    ensures
        r == pair_names(pairs@).contains(name@),
{
    let ghost a = pair_names(pairs@);
    let mut i: usize = 0;
    while i < pairs.len()
        invariant
            i <= pairs.len(),
            a == pair_names(pairs@),
            forall|k: int| 0 <= k < i ==> a[k] != name@,
        decreases pairs.len() - i,
    {
        assert(a[i as int] == pairs@[i as int].0@);
        if pairs[i].0 == *name {
            return true;
        }
        i += 1;
    }
    false
}

/// Adds the variables of `other` whose name is not taken yet; a variable whose
/// name is taken is left out, whatever its value.
pub fn merge_variables<T>(variables: &mut Vec<(String, T)>, other: Vec<(String, T)>)
    ensures
        final(variables)@ == merge_variables_spec(old(variables)@, other@),
{
    let ghost start = variables@;
    let ghost all = other@;
    let mut rest = other;
    let n = rest.len();
    let mut i: usize = 0;
    while i < n
        invariant
            i <= n == all.len(),
            rest@ == all.skip(i as int),
            variables@ == merge_variables_spec(start, all.take(i as int)),
        decreases n - i,
    {
        assert(rest@[0] == all[i as int]);
        let p = rest.remove(0);
        assert(rest@ =~= all.skip(i + 1));
        assert(all.take(i + 1).drop_last() =~= all.take(i as int));
        assert(all.take(i + 1).last() == p);
        if !has_pair_named(variables, &p.0) {
            variables.push(p);
        }
        i += 1;
    }
    assert(all.take(n as int) =~= all);
}

/// The view of a column group: its alias and its member names.
pub open spec fn group_pair(g: ColumnGroup) -> (Seq<char>, Seq<Seq<char>>) {
    (g.alias@, names_view(g.column_names@))
}

/// `groups` with each group of `other` added at the end in turn, with its
/// members normalized, unless a group of its alias is there by then.
pub open spec fn merge_groups_spec(
    groups: Seq<(Seq<char>, Seq<Seq<char>>)>,
    other: Seq<(Seq<char>, Seq<Seq<char>>)>,
) -> Seq<(Seq<char>, Seq<Seq<char>>)>
    decreases other.len(),
{
    if other.len() == 0 {
        groups
    } else {
        let prev = merge_groups_spec(groups, other.drop_last());
        if prev.map_values(|g: (Seq<char>, Seq<Seq<char>>)| g.0).contains(other.last().0) {
            prev
        } else {
            prev.push((other.last().0, normalize_names_spec(other.last().1)))
        }
    }
}

/// The views of a list of column groups.
pub open spec fn groups_pairs(groups: Seq<ColumnGroup>) -> Seq<(Seq<char>, Seq<Seq<char>>)> {
    groups.map_values(|g: ColumnGroup| group_pair(g))
}

/// Adds the column groups of `other` whose alias is not taken yet, each with
/// its members normalized; a group whose alias is taken is left out.
pub fn merge_column_groups(groups: &mut Vec<ColumnGroup>, other: &Vec<ColumnGroup>)
    ensures
        groups_pairs(final(groups)@) == merge_groups_spec(groups_pairs(old(groups)@), groups_pairs(other@)),
{
    let ghost start = groups_pairs(groups@);
    let ghost ov = groups_pairs(other@);
    let mut i: usize = 0;
    while i < other.len()
        invariant
            i <= other.len(),
            ov == groups_pairs(other@),
            groups_pairs(groups@) == merge_groups_spec(start, ov.take(i as int)),
        decreases other.len() - i,
    {
        assert(ov.take(i + 1).drop_last() =~= ov.take(i as int));
        assert(ov.take(i + 1).last() == ov[i as int]);
        let ghost cur = groups_pairs(groups@);
        let ghost aliases = cur.map_values(|g: (Seq<char>, Seq<Seq<char>>)| g.0);
        let mut found = false;
        let mut k: usize = 0;
        while k < groups.len()
            invariant
                k <= groups.len(),
                i < other.len(),
                cur == groups_pairs(groups@),
                aliases == cur.map_values(|g: (Seq<char>, Seq<Seq<char>>)| g.0),
                found == exists|j: int| 0 <= j < k && aliases[j] == other@[i as int].alias@,
            decreases groups.len() - k,
        {
            assert(aliases[k as int] == groups@[k as int].alias@);
            if groups[k].alias == other[i].alias {
                found = true;
            }
            k += 1;
        }
        assert(found == aliases.contains(ov[i as int].0));
        if !found {
            let g = ColumnGroup { alias: other[i].alias.clone(), column_names: other[i].normalized_column_names() };
            groups.push(g);
            assert(groups_pairs(groups@) =~= cur.push((ov[i as int].0, normalize_names_spec(ov[i as int].1))));
        }
        i += 1;
    }
    assert(ov.take(other.len() as int) =~= ov);
}

/// The pairs whose alias is not blank, in order.
pub open spec fn non_blank(computed: Seq<(Seq<char>, Seq<char>)>) -> Seq<(Seq<char>, Seq<char>)>
    decreases computed.len(),
{
    if computed.len() == 0 {
        Seq::empty()
    } else if trim_spec(computed.last().1).len() > 0 {
        non_blank(computed.drop_last()).push(computed.last())
    } else {
        non_blank(computed.drop_last())
    }
}

/// The pairs whose alias is not among `aliases`, in order.
pub open spec fn not_replaced(
    columns: Seq<(Seq<char>, Seq<char>)>,
    aliases: Seq<Seq<char>>,
) -> Seq<(Seq<char>, Seq<char>)>
    decreases columns.len(),
{
    if columns.len() == 0 {
        Seq::empty()
    } else if aliases.contains(columns.last().1) {
        not_replaced(columns.drop_last(), aliases)
    } else {
        not_replaced(columns.drop_last(), aliases).push(columns.last())
    }
}

/// The columns after calibration columns are put first: when there are any,
/// the non-blank ones, followed by the existing columns whose alias none of
/// them takes.
pub open spec fn prepend_spec(
    columns: Seq<(Seq<char>, Seq<char>)>,
    computed: Seq<(Seq<char>, Seq<char>)>,
) -> Seq<(Seq<char>, Seq<char>)> {
    if computed.len() == 0 {
        columns
    } else {
        let first = non_blank(computed);
        first + not_replaced(columns, aliases_of(first))
    }
}

fn non_blank_exec(computed: Vec<(String, String)>) -> (r: Vec<(String, String)>)
    ensures
        columns_view(r@) == non_blank(columns_view(computed@)),
{
    let ghost cv = columns_view(computed@);
    let mut r: Vec<(String, String)> = Vec::new();
    let mut i: usize = 0;
    while i < computed.len()
        invariant
            i <= computed.len(),
            cv == columns_view(computed@),
            columns_view(r@) == non_blank(cv.take(i as int)),
        decreases computed.len() - i,
    {
        assert(cv.take(i + 1).drop_last() =~= cv.take(i as int));
        assert(cv.take(i + 1).last() == cv[i as int]);
        let t = trimmed_chars(computed[i].1.as_str());
        if t.len() > 0 {
            let ghost before = columns_view(r@);
            r.push((computed[i].0.clone(), computed[i].1.clone()));
            assert(columns_view(r@) =~= before.push(cv[i as int]));
        }
        i += 1;
    }
    assert(cv.take(computed.len() as int) =~= cv);
    r
}

/// Puts calibration columns in front of the computed columns: when
/// `computed_columns` is not empty, its pairs with a non-blank alias come
/// first, and existing pairs whose alias one of them takes are dropped.
pub fn prepend_computed_columns(columns: &mut Vec<(String, String)>, computed_columns: Vec<(String, String)>)
    ensures
        columns_view(final(columns)@) == prepend_spec(columns_view(old(columns)@), columns_view(computed_columns@)),
{
    if computed_columns.len() == 0 {
        return;
    }
    let ghost start = columns_view(columns@);
    let mut first = non_blank_exec(computed_columns);
    let ghost fv = columns_view(first@);
    let ghost aliases = aliases_of(fv);
    let mut i: usize = 0;
    let mut kept: Vec<(String, String)> = Vec::new();
    while i < columns.len()
        invariant
            i <= columns.len(),
            start == columns_view(columns@),
            fv == columns_view(first@),
            aliases == aliases_of(fv),
            columns_view(kept@) == not_replaced(start.take(i as int), aliases),
        decreases columns.len() - i,
    {
        assert(start.take(i + 1).drop_last() =~= start.take(i as int));
        assert(start.take(i + 1).last() == start[i as int]);
        if !alias_index(&first, &columns[i].1) {
            let ghost before = columns_view(kept@);
            kept.push((columns[i].0.clone(), columns[i].1.clone()));
            assert(columns_view(kept@) =~= before.push(start[i as int]));
        }
        i += 1;
    }
    assert(start.take(columns.len() as int) =~= start);
    let ghost kv = columns_view(kept@);
    first.append(&mut kept);
    assert(columns_view(first@) =~= fv + kv);
    *columns = first;
}

/// The variables that may be used, in order: those whose name is an
/// identifier, is neither a column nor a computed column to come, and is not
/// taken by an earlier variable that was kept.
pub open spec fn valid_variables_spec<T>(
    variables: Seq<(String, T)>,
    column_names: Seq<Seq<char>>,
    future_aliases: Seq<Seq<char>>,
) -> Seq<(String, T)>
    decreases variables.len(),
{
    if variables.len() == 0 {
        Seq::empty()
    } else {
        let prev = valid_variables_spec(variables.drop_last(), column_names, future_aliases);
        let name = variables.last().0@;
        if is_identifier(name) && !column_names.contains(name) && !future_aliases.contains(name) && !pair_names(
            prev,
        ).contains(name) {
            prev.push(variables.last())
        } else {
            prev
        }
    }
}

/// Keeps the variables that may be used; see `valid_variables_spec`.
pub fn valid_variables<T: Copy>(
    variables: &Vec<(String, T)>,
    column_names: &Vec<String>,
    future_aliases: &Vec<String>,
) -> (r: Vec<(String, T)>)
    ensures
        r@ == valid_variables_spec(variables@, names_view(column_names@), names_view(future_aliases@)),
{
    let ghost cols = names_view(column_names@);
    let ghost fut = names_view(future_aliases@);
    let mut r: Vec<(String, T)> = Vec::new();
    let mut i: usize = 0;
    while i < variables.len()
        invariant
            i <= variables.len(),
            cols == names_view(column_names@),
            fut == names_view(future_aliases@),
            r@ == valid_variables_spec(variables@.take(i as int), cols, fut),
        decreases variables.len() - i,
    {
        assert(variables@.take(i + 1).drop_last() =~= variables@.take(i as int));
        assert(variables@.take(i + 1).last() == variables@[i as int]);
        let name = &variables[i].0;
        if is_valid_identifier_name(name.as_str()) && !contains_string(column_names, name) && !contains_string(
            future_aliases,
            name,
        ) && !has_pair_named(&r, name) {
            let value = variables[i].1;
            r.push((name.clone(), value));
            assert(r@.last() == variables@[i as int]);
        }
        i += 1;
    }
    assert(variables@.take(variables.len() as int) =~= variables@);
    r
}

/// `s` without entries equal to the one before them.
pub open spec fn dedup_adjacent(s: Seq<Seq<char>>) -> Seq<Seq<char>>
    decreases s.len(),
{
    if s.len() == 0 {
        Seq::empty()
    } else {
        let prev = dedup_adjacent(s.drop_last());
        if s.len() >= 2 && s[s.len() - 2] == s.last() {
            prev
        } else {
            prev.push(s.last())
        }
    }
}

/// The names sorted by the order of strings, each once (what sorting and then
/// `dedup` gives).
pub fn sorted_unique_names(names: &Vec<String>) -> (r: Vec<String>)
    ensures
        names_view(r@) == dedup_adjacent(sorted_names(names_view(names@))),
{
    let sorted = sort_names(names);
    let ghost sv = names_view(sorted@);
    let mut r: Vec<String> = Vec::new();
    let mut i: usize = 0;
    while i < sorted.len()
        invariant
            i <= sorted.len(),
            sv == names_view(sorted@),
            names_view(r@) == dedup_adjacent(sv.take(i as int)),
        decreases sorted.len() - i,
    {
        let ghost t = sv.take(i + 1);
        assert(t.drop_last() =~= sv.take(i as int));
        assert(t.last() == sv[i as int]);
        assert(sv[i as int] == sorted@[i as int]@);
        if i >= 1 {
            assert(t[i - 1] == sv[i - 1]);
            assert(sv[i - 1] == sorted@[i - 1]@);
        }
        if i == 0 || sorted[i - 1] != sorted[i] {
            let ghost before = names_view(r@);
            r.push(sorted[i].clone());
            assert(names_view(r@) =~= before.push(sv[i as int]));
        }
        i += 1;
    }
    assert(sv.take(sorted.len() as int) =~= sv);
    r
}

proof fn lemma_merge_columns_extends(columns: Seq<(Seq<char>, Seq<char>)>, other: Seq<(Seq<char>, Seq<char>)>)
    ensures
        merge_columns_spec(columns, other).len() >= columns.len(),
        merge_columns_spec(columns, other).take(columns.len() as int) == columns,
        forall|i: int| 0 <= i < other.len() ==> aliases_of(merge_columns_spec(columns, other)).contains(#[trigger] other[i].1),
    decreases other.len(),
{
    if other.len() > 0 {
        let prev = merge_columns_spec(columns, other.drop_last());
        lemma_merge_columns_extends(columns, other.drop_last());
        let r = merge_columns_spec(columns, other);
        assert(r.take(columns.len() as int) =~= prev.take(columns.len() as int));
        assert forall|i: int| 0 <= i < other.len() implies aliases_of(r).contains(#[trigger] other[i].1) by {
            if i < other.len() - 1 {
                assert(other[i] == other.drop_last()[i]);
                let k = choose|k: int| 0 <= k < aliases_of(prev).len() && aliases_of(prev)[k] == other[i].1;
                assert(r[k] == prev[k]);
                assert(aliases_of(r)[k] == other[i].1);
            } else if !aliases_of(prev).contains(other.last().1) {
                assert(aliases_of(r)[prev.len() as int] == other.last().1);
            }
        }
    }
}

proof fn lemma_merge_columns_known(columns: Seq<(Seq<char>, Seq<char>)>, other: Seq<(Seq<char>, Seq<char>)>)
    requires
        forall|i: int| 0 <= i < other.len() ==> aliases_of(columns).contains(#[trigger] other[i].1),
    ensures
        merge_columns_spec(columns, other) == columns,
    decreases other.len(),
{
    if other.len() > 0 {
        assert forall|i: int| 0 <= i < other.drop_last().len() implies aliases_of(columns).contains(
            #[trigger] other.drop_last()[i].1,
        ) by {
            assert(other.drop_last()[i] == other[i]);
        }
        lemma_merge_columns_known(columns, other.drop_last());
        assert(aliases_of(columns).contains(other[other.len() - 1].1));
    }
}

/// Merging the same computed columns a second time changes nothing.
pub proof fn lemma_merge_columns_idempotent(columns: Seq<(Seq<char>, Seq<char>)>, other: Seq<(Seq<char>, Seq<char>)>)
    ensures
        merge_columns_spec(merge_columns_spec(columns, other), other) == merge_columns_spec(columns, other),
{
    lemma_merge_columns_extends(columns, other);
    lemma_merge_columns_known(merge_columns_spec(columns, other), other);
}

/// Merging keeps the aliases of the computed columns distinct.
pub proof fn lemma_merge_columns_keeps_aliases_distinct(
    columns: Seq<(Seq<char>, Seq<char>)>,
    other: Seq<(Seq<char>, Seq<char>)>,
)
    requires
        aliases_of(columns).no_duplicates(),
    ensures
        aliases_of(merge_columns_spec(columns, other)).no_duplicates(),
    decreases other.len(),
{
    if other.len() > 0 {
        lemma_merge_columns_keeps_aliases_distinct(columns, other.drop_last());
        let prev = merge_columns_spec(columns, other.drop_last());
        if !aliases_of(prev).contains(other.last().1) {
            let r = prev.push(other.last());
            assert(aliases_of(r) =~= aliases_of(prev).push(other.last().1));
            assert forall|i: int, j: int| 0 <= i < j < aliases_of(r).len() implies aliases_of(r)[i] != aliases_of(r)[j] by {
                assert(aliases_of(r)[i] == aliases_of(prev)[i]);
                if j < prev.len() {
                    assert(aliases_of(r)[j] == aliases_of(prev)[j]);
                }
            }
        }
    }
}

/// Every variable kept may be used: its name is an identifier, is neither a
/// column nor a computed column to come, and no two kept variables share a
/// name.
pub proof fn lemma_valid_variables_sound<T>(
    variables: Seq<(String, T)>,
    column_names: Seq<Seq<char>>,
    future_aliases: Seq<Seq<char>>,
)
    ensures
        ({
            let r = valid_variables_spec(variables, column_names, future_aliases);
            &&& pair_names(r).no_duplicates()
            &&& forall|i: int|
                0 <= i < r.len() ==> is_identifier(#[trigger] r[i].0@) && !column_names.contains(r[i].0@)
                    && !future_aliases.contains(r[i].0@)
        }),
    decreases variables.len(),
{
    if variables.len() > 0 {
        lemma_valid_variables_sound(variables.drop_last(), column_names, future_aliases);
        let prev = valid_variables_spec(variables.drop_last(), column_names, future_aliases);
        let r = valid_variables_spec(variables, column_names, future_aliases);
        if r != prev {
            assert(r == prev.push(variables.last()));
            assert(pair_names(r) =~= pair_names(prev).push(variables.last().0@));
            assert forall|i: int, j: int| 0 <= i < j < pair_names(r).len() implies pair_names(r)[i] != pair_names(r)[j] by {
                assert(pair_names(r)[i] == pair_names(prev)[i]);
                if j < prev.len() {
                    assert(pair_names(r)[j] == pair_names(prev)[j]);
                }
            }
            assert forall|i: int| 0 <= i < r.len() implies is_identifier(#[trigger] r[i].0@) && !column_names.contains(
                r[i].0@,
            ) && !future_aliases.contains(r[i].0@) by {
                if i < prev.len() {
                    assert(r[i] == prev[i]);
                }
            }
        }
    }
}

proof fn lemma_not_replaced_avoids(columns: Seq<(Seq<char>, Seq<char>)>, aliases: Seq<Seq<char>>)
    ensures
        forall|i: int| 0 <= i < not_replaced(columns, aliases).len() ==> !aliases.contains(
            #[trigger] not_replaced(columns, aliases)[i].1,
        ),
    decreases columns.len(),
{
    if columns.len() > 0 {
        lemma_not_replaced_avoids(columns.drop_last(), aliases);
        let prev = not_replaced(columns.drop_last(), aliases);
        let r = not_replaced(columns, aliases);
        assert forall|i: int| 0 <= i < r.len() implies !aliases.contains(#[trigger] r[i].1) by {
            if i < prev.len() {
                assert(r[i] == prev[i]);
            }
        }
    }
}

/// Once calibration columns are put first, no later column shares an alias
/// with one of them: each earlier definition of such an alias is replaced.
pub proof fn lemma_prepend_replaces(columns: Seq<(Seq<char>, Seq<char>)>, computed: Seq<(Seq<char>, Seq<char>)>)
    requires
        computed.len() > 0,
    ensures
        ({
            let first = non_blank(computed);
            let r = prepend_spec(columns, computed);
            &&& r.take(first.len() as int) == first
            &&& forall|i: int| first.len() <= i < r.len() ==> !aliases_of(first).contains(#[trigger] r[i].1)
        }),
{
    let first = non_blank(computed);
    let rest = not_replaced(columns, aliases_of(first));
    let r = prepend_spec(columns, computed);
    assert(r =~= first + rest);
    assert(r.take(first.len() as int) =~= first);
    lemma_not_replaced_avoids(columns, aliases_of(first));
    assert forall|i: int| first.len() <= i < r.len() implies !aliases_of(first).contains(#[trigger] r[i].1) by {
        assert(r[i] == rest[i - first.len()]);
    }
}

proof fn lemma_dedup_adjacent_of_sorted(s: Seq<Seq<char>>)
    requires
        sorted_by(s, lex_order()),
        vstd::relations::total_ordering(lex_order()),
    ensures
        dedup_adjacent(s).no_duplicates(),
        forall|x: Seq<char>|
            #![trigger dedup_adjacent(s).contains(x)]
            #![trigger s.contains(x)]
            dedup_adjacent(s).contains(x) <==> s.contains(x),
    decreases s.len(),
{
    if s.len() > 0 {
        let init = s.drop_last();
        assert(sorted_by(init, lex_order())) by {
            assert forall|i: int, j: int| 0 <= i < j < init.len() implies #[trigger] (lex_order())(init[i], init[j]) by {
                assert(init[i] == s[i] && init[j] == s[j]);
            }
        }
        lemma_dedup_adjacent_of_sorted(init);
        let d = dedup_adjacent(init);
        let r = dedup_adjacent(s);
        let last = s.last();
        if s.len() >= 2 && s[s.len() - 2] == last {
            assert(r == d);
            assert(init.contains(last)) by {
                assert(init[s.len() - 2] == last);
            }
            assert forall|x: Seq<char>| r.contains(x) <==> s.contains(x) by {
                if s.contains(x) {
                    let k = choose|k: int| 0 <= k < s.len() && s[k] == x;
                    if k < s.len() - 1 {
                        assert(init[k] == x);
                    }
                }
                if init.contains(x) {
                    let k = choose|k: int| 0 <= k < init.len() && init[k] == x;
                    assert(s[k] == x);
                }
            }
        } else {
            assert(r == d.push(last));
            assert(!init.contains(last)) by {
                if init.contains(last) {
                    let k = choose|k: int| 0 <= k < init.len() && init[k] == last;
                    let n = s.len() as int;
                    assert(s[k] == last);
                    assert((lex_order())(s[k], s[n - 2]));
                    assert((lex_order())(s[n - 2], s[n - 1]));
                    assert(s[n - 2] == s[n - 1]);
                }
            }
            assert forall|i: int, j: int| 0 <= i < j < r.len() implies r[i] != r[j] by {
                if j == r.len() - 1 {
                    assert(r[i] == d[i]);
                    assert(d.contains(d[i]));
                } else {
                    assert(r[i] == d[i] && r[j] == d[j]);
                }
            }
            assert forall|x: Seq<char>| r.contains(x) <==> s.contains(x) by {
                if s.contains(x) {
                    let k = choose|k: int| 0 <= k < s.len() && s[k] == x;
                    if k < s.len() - 1 {
                        assert(init[k] == x);
                        assert(d.contains(x));
                        let m = choose|m: int| 0 <= m < d.len() && d[m] == x;
                        assert(r[m] == x);
                    } else {
                        assert(r[r.len() - 1] == x);
                    }
                }
                if r.contains(x) {
                    let m = choose|m: int| 0 <= m < r.len() && r[m] == x;
                    if m < d.len() {
                        assert(d[m] == x);
                        assert(d.contains(x));
                        let k = choose|k: int| 0 <= k < init.len() && init[k] == x;
                        assert(s[k] == x);
                    } else {
                        assert(s[s.len() - 1] == x);
                    }
                }
            }
        }
    }
}

/// The list of used columns holds each name once, and exactly the names it
/// was made from.
pub proof fn lemma_sorted_unique_names(names: Seq<Seq<char>>)
    ensures
        dedup_adjacent(sorted_names(names)).no_duplicates(),
        forall|x: Seq<char>| dedup_adjacent(sorted_names(names)).contains(x) <==> names.contains(x),
{
    broadcast use vstd::seq_lib::group_to_multiset_ensures;

    lemma_lex_total_ordering();
    names.lemma_sort_by_ensures(lex_order());
    lemma_dedup_adjacent_of_sorted(sorted_names(names));
    assert forall|x: Seq<char>| sorted_names(names).contains(x) <==> names.contains(x) by {
        assert(names.to_multiset().count(x) == sorted_names(names).to_multiset().count(x));
    }
}

/// Whether a merged 1D histogram is added: when no histogram has its name, or
/// when the one that has shares none of its fill columns and has the same
/// range and bins (`same_shape`).
pub fn merge_adds_hist1d(existing_columns: Option<&Vec<String>>, other_columns: &Vec<String>, same_shape: bool) -> (r:
    bool)
    ensures
        r == match existing_columns {
            None => true,
            Some(e) => same_shape && !exists|i: int|
                0 <= i < other_columns.len() && names_view(e@).contains(#[trigger] other_columns@[i]@),
        },
{
    match existing_columns {
        None => true,
        Some(existing) => {
            let mut i: usize = 0;
            while i < other_columns.len()
                invariant
                    i <= other_columns.len(),
                    existing_columns == Some(existing),
                    forall|k: int| 0 <= k < i ==> !names_view(existing@).contains(#[trigger] other_columns@[k]@),
                decreases other_columns.len() - i,
            {
                if contains_string(existing, &other_columns[i]) {
                    assert(names_view(existing@).contains(other_columns@[i as int]@));
                    return false;
                }
                i += 1;
            }
            same_shape
        },
    }
}

/// Whether a merged 2D histogram is added: when no histogram has its name, or
/// when the one that has shares none of its fill pairs and has the same ranges
/// and bins (`same_shape`).
pub fn merge_adds_hist2d(
    existing_pairs: Option<&Vec<(String, String)>>,
    other_pairs: &Vec<(String, String)>,
    same_shape: bool,
) -> (r: bool)
    ensures
        r == match existing_pairs {
            None => true,
            Some(e) => same_shape && !exists|i: int|
                0 <= i < other_pairs.len() && pairs_view(e@).contains(#[trigger] pairs_view(other_pairs@)[i]),
        },
{
    match existing_pairs {
        None => true,
        Some(existing) => {
            let mut i: usize = 0;
            while i < other_pairs.len()
                invariant
                    i <= other_pairs.len(),
                    existing_pairs == Some(existing),
                    forall|k: int| 0 <= k < i ==> !pairs_view(existing@).contains(#[trigger] pairs_view(other_pairs@)[k]),
                decreases other_pairs.len() - i,
            {
                assert(pairs_view(other_pairs@)[i as int] == (other_pairs@[i as int].0@, other_pairs@[i as int].1@));
                if contains_pair(existing, &other_pairs[i].0, &other_pairs[i].1) {
                    assert(pairs_view(existing@).contains(pairs_view(other_pairs@)[i as int]));
                    return false;
                }
                i += 1;
            }
            same_shape
        },
    }
}

/// The names of the variables offered in the column editor: those that are
/// not blank, sorted, each once.
pub fn available_variable_names(names: &Vec<String>) -> (r: Vec<String>)
    ensures
        names_view(r@) == dedup_adjacent(sorted_names(non_blank_names(names_view(names@)))),
{
    let ghost nv = names_view(names@);
    let mut kept: Vec<String> = Vec::new();
    let mut i: usize = 0;
    while i < names.len()
        invariant
            i <= names.len(),
            nv == names_view(names@),
            names_view(kept@) == non_blank_names(nv.take(i as int)),
        decreases names.len() - i,
    {
        assert(nv.take(i + 1).drop_last() =~= nv.take(i as int));
        assert(nv.take(i + 1).last() == names@[i as int]@);
        let t = trimmed_chars(names[i].as_str());
        if t.len() > 0 {
            let ghost before = names_view(kept@);
            kept.push(names[i].clone());
            assert(names_view(kept@) =~= before.push(names@[i as int]@));
        }
        i += 1;
    }
    assert(nv.take(names.len() as int) =~= nv);
    sorted_unique_names(&kept)
}

/// The names that are not blank, in order.
pub open spec fn non_blank_names(names: Seq<Seq<char>>) -> Seq<Seq<char>>
    decreases names.len(),
{
    if names.len() == 0 {
        Seq::empty()
    } else if trim_spec(names.last()).len() > 0 {
        non_blank_names(names.drop_last()).push(names.last())
    } else {
        non_blank_names(names.drop_last())
    }
}

/// The group aliases offered as histogram sources, in order: each trimmed
/// alias that is an identifier, is not an available column, has not been
/// offered already, and whose group has members.
pub open spec fn offered_aliases_spec(
    groups: Seq<(Seq<char>, Seq<Seq<char>>)>,
    available: Seq<Seq<char>>,
) -> Seq<Seq<char>>
    decreases groups.len(),
{
    if groups.len() == 0 {
        Seq::empty()
    } else {
        let prev = offered_aliases_spec(groups.drop_last(), available);
        let alias = trim_spec(groups.last().0);
        if alias.len() > 0 && is_identifier(alias) && !available.contains(alias) && !prev.contains(alias)
            && normalize_names_spec(groups.last().1).len() > 0 {
            prev.push(alias)
        } else {
            prev
        }
    }
}

/// The group aliases offered as histogram sources; see `offered_aliases_spec`.
pub fn available_column_group_aliases_for_available_columns(
    column_groups: &Vec<ColumnGroup>,
    available_columns: &Vec<String>,
) -> (r: Vec<String>)
    ensures
        names_view(r@) == offered_aliases_spec(groups_pairs(column_groups@), names_view(available_columns@)),
{
    let ghost gv = groups_pairs(column_groups@);
    let ghost av = names_view(available_columns@);
    let mut out: Vec<String> = Vec::new();
    let mut i: usize = 0;
    while i < column_groups.len()
        invariant
            i <= column_groups.len(),
            gv == groups_pairs(column_groups@),
            av == names_view(available_columns@),
            names_view(out@) == offered_aliases_spec(gv.take(i as int), av),
        decreases column_groups.len() - i,
    {
        assert(gv.take(i + 1).drop_last() =~= gv.take(i as int));
        assert(gv.take(i + 1).last() == gv[i as int]);
        let t = trimmed_chars(column_groups[i].alias.as_str());
        let alias = string_of(&t);
        if t.len() > 0 && is_valid_identifier_name(alias.as_str()) && !contains_string(available_columns, &alias)
            && !contains_string(&out, &alias) && column_groups[i].normalized_column_names().len() > 0 {
            let ghost before = names_view(out@);
            out.push(alias);
            assert(names_view(out@) =~= before.push(t@));
        }
        i += 1;
    }
    assert(gv.take(column_groups.len() as int) =~= gv);
    out
}

} // verus!
