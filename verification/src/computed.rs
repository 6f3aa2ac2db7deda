//! Computed columns whose expressions name column groups: finding the columns
//! an expression depends on, and expanding one expression into one computed
//! column per combination of group members.
use vstd::prelude::*;
use crate::decimal::{decimal, to_decimal};
use crate::expansion::SourceView;
use crate::identifiers::{expanded_alias_spec, expanded_computed_column_alias};
use crate::names::{contains_string, dedup_spec, names_view, ColumnGroup};
use crate::sources::{
    build_source_group_resolver_for_columns, group_view, lookup_group, resolver_fit, resolver_state,
    resolver_view, SourceGroupResolver,
};
use crate::text::{chars_of, string_of, trim_spec, trimmed_chars};

verus! {

/// The tokens that the expression tokenizer of the `regex` crate finds in an
/// expression: numbers, identifiers, `**` and the one-character operators.
pub uninterp spec fn expression_tokens(expression: Seq<char>) -> Seq<Seq<char>>;

/// Whether a token matches the identifier pattern `^[A-Za-z_]\w*$` of the
/// `regex` crate (`\w` taken in its Unicode sense).
pub uninterp spec fn identifier_pattern_match(token: Seq<char>) -> bool;

/// `expression` with every whole-word occurrence of `word` replaced by
/// `replacement`, as the `regex` crate's `replace_all` with the pattern
/// `\b<word>\b` gives it (which expands `$` group references in the
/// replacement).
pub uninterp spec fn word_replaced(expression: Seq<char>, word: Seq<char>, replacement: Seq<char>) -> Seq<char>;

/// Splits an expression into tokens with the `regex` crate (`Regex::find_iter`
/// with the computed-column token pattern). The contract names the result and
/// says nothing more of it.
#[verifier::external_body]
fn tokenize_expression(expression: &str) -> (r: Vec<String>)
    ensures
        names_view(r@) == expression_tokens(expression@),
{
    let number_pattern = r"[+-]?(?:\d+(?:\.\d*)?|\.\d+)(?:[eE][+-]?\d+)?";
    let token_re = regex::Regex::new(&format!(r"{number_pattern}|[A-Za-z_]\w*|\*\*|[+*/()-]"))
        .expect("failed to create computed-column token regex");
    let mut tokens = Vec::new();
    for token in token_re.find_iter(expression) {
        tokens.push(token.as_str().to_owned());
    }
    tokens
}

/// Tests a token against the identifier pattern with the `regex` crate
/// (`Regex::is_match`). The contract names the result and says nothing more.
#[verifier::external_body]
pub(crate) fn matches_identifier_pattern(token: &str) -> (r: bool)
    ensures
        r == identifier_pattern_match(token@),
{
    let identifier_re = regex::Regex::new(r"^[A-Za-z_]\w*$").expect("failed to create identifier regex");
    identifier_re.is_match(token)
}

/// Replaces whole-word occurrences of `alias` in `expression` with the `regex`
/// crate (`Regex::replace_all` with `\b<escaped alias>\b`; `$` references in
/// the replacement are expanded as `replace_all` does). The contract names the
/// result and says nothing more of it. The alias is bounded so that the
/// pattern stays well within the crate's default size limit, over which
/// `Regex::new` fails.
#[verifier::external_body]
fn replace_group_alias_in_expression(expression: &str, alias: &str, column_name: &str) -> (r: String)
    requires
        alias@.len() <= crate::sources::max_group_alias_len(),
    ensures
        r@ == word_replaced(expression@, alias@, column_name@),
{
    let pattern = regex::Regex::new(&format!(r"\b{}\b", regex::escape(alias)))
        .expect("failed to create grouped computed-column replacement regex");
    pattern.replace_all(expression, column_name).to_string()
}

/// `c` in ASCII lower case.
pub open spec fn ascii_lower(c: char) -> char {
    if 'A' <= c && c <= 'Z' {
        ((c as u32) + 32) as char
    } else {
        c
    }
}

/// `t` spells `inf` or `nan` in any ASCII case.
pub open spec fn is_inf_or_nan(t: Seq<char>) -> bool {
    t.len() == 3 && ((ascii_lower(t[0]) == 'i' && ascii_lower(t[1]) == 'n' && ascii_lower(t[2]) == 'f')
        || (ascii_lower(t[0]) == 'n' && ascii_lower(t[1]) == 'a' && ascii_lower(t[2]) == 'n'))
}

/// A token names a column the expression depends on: it is an identifier, not
/// a variable, and not `inf` or `nan`.
pub open spec fn is_dependency(token: Seq<char>, variables: Seq<Seq<char>>) -> bool {
    identifier_pattern_match(token) && !variables.contains(token) && !is_inf_or_nan(token)
}

/// The tokens that name dependencies, in order.
pub open spec fn dependency_tokens(tokens: Seq<Seq<char>>, variables: Seq<Seq<char>>) -> Seq<Seq<char>>
    decreases tokens.len(),
{
    if tokens.len() == 0 {
        Seq::empty()
    } else if is_dependency(tokens.last(), variables) {
        dependency_tokens(tokens.drop_last(), variables).push(tokens.last())
    } else {
        dependency_tokens(tokens.drop_last(), variables)
    }
}

/// The columns an expression depends on, each once, in order of appearance.
pub open spec fn dependencies_spec(expression: Seq<char>, variables: Seq<Seq<char>>) -> Seq<Seq<char>> {
    dedup_spec(dependency_tokens(expression_tokens(expression), variables))
}

fn lower(c: char) -> (r: char)
    ensures
        r == ascii_lower(c),
{
    if 'A' <= c && c <= 'Z' {
        ((c as u32) + 32) as u8 as char
    } else {
        c
    }
}

fn inf_or_nan(t: &String) -> (r: bool)
    ensures
        r == is_inf_or_nan(t@),
{
    let v = chars_of(t.as_str());
    if v.len() != 3 {
        return false;
    }
    let a = lower(v[0]);
    let b = lower(v[1]);
    let c = lower(v[2]);
    (a == 'i' && b == 'n' && c == 'f') || (a == 'n' && b == 'a' && c == 'n')
}

/// A token names a column the expression depends on, given whether it
/// matches the identifier pattern: it does, it is not a variable, and it is not
/// `inf` or `nan`.
pub open spec fn is_dependency_given(token: Seq<char>, identifier: bool, variables: Seq<Seq<char>>) -> bool {
    identifier && !variables.contains(token) && !is_inf_or_nan(token)
}

/// The tokens that name dependencies, in order, given for each token whether
/// it matches the identifier pattern.
pub open spec fn dependency_tokens_given(
    tokens: Seq<Seq<char>>,
    identifiers: Seq<bool>,
    variables: Seq<Seq<char>>,
) -> Seq<Seq<char>>
    decreases tokens.len(),
{
    if tokens.len() == 0 {
        Seq::empty()
    } else if is_dependency_given(tokens.last(), identifiers[tokens.len() - 1], variables) {
        dependency_tokens_given(tokens.drop_last(), identifiers, variables).push(tokens.last())
    } else {
        dependency_tokens_given(tokens.drop_last(), identifiers, variables)
    }
}

proof fn lemma_dependency_tokens_given(tokens: Seq<Seq<char>>, variables: Seq<Seq<char>>, identifiers: Seq<bool>)
    requires
        identifiers.len() >= tokens.len(),
        forall|i: int| 0 <= i < tokens.len() ==> identifiers[i] == identifier_pattern_match(#[trigger] tokens[i]),
    ensures
        dependency_tokens_given(tokens, identifiers, variables) == dependency_tokens(tokens, variables),
    decreases tokens.len(),
{
    if tokens.len() > 0 {
        let init = tokens.drop_last();
        assert forall|i: int| 0 <= i < init.len() implies identifiers[i] == identifier_pattern_match(#[trigger] init[i]) by {
            assert(init[i] == tokens[i]);
        }
        lemma_dependency_tokens_given(init, variables, identifiers);
        assert(identifiers[tokens.len() - 1] == identifier_pattern_match(tokens[tokens.len() - 1]));
    }
}

/// The columns named by `tokens`, each once, in order of appearance, given for
/// each token whether it matches the identifier pattern: tokens that match,
/// are not variables, and are not `inf` or `nan`.
pub fn dependencies_from_tokens(tokens: &Vec<String>, identifiers: &Vec<bool>, variable_names: &Vec<String>) -> (r:
    Vec<String>)
    requires
        identifiers.len() == tokens.len(),
    ensures
        names_view(r@) == dedup_spec(
            dependency_tokens_given(names_view(tokens@), identifiers@, names_view(variable_names@)),
        ),
{
    let ghost tv = names_view(tokens@);
    let ghost vv = names_view(variable_names@);
    let mut out: Vec<String> = Vec::new();
    let mut i: usize = 0;
    assert(names_view(out@) =~= Seq::<Seq<char>>::empty());
    while i < tokens.len()
        invariant
            i <= tokens.len() == identifiers.len(),
            tv == names_view(tokens@),
            vv == names_view(variable_names@),
            names_view(out@) == dedup_spec(dependency_tokens_given(tv.take(i as int), identifiers@, vv)),
        decreases tokens.len() - i,
    {
        let token = &tokens[i];
        assert(tv[i as int] == token@);
        assert(tv.take(i + 1).drop_last() =~= tv.take(i as int));
        assert(tv.take(i + 1).last() == token@);
        if identifiers[i] && !contains_string(variable_names, token) && !inf_or_nan(token) {
            let ghost d = dependency_tokens_given(tv.take(i + 1), identifiers@, vv);
            assert(d.drop_last() =~= dependency_tokens_given(tv.take(i as int), identifiers@, vv));
            if !contains_string(&out, token) {
                let ghost before = names_view(out@);
                out.push(token.clone());
                assert(names_view(out@) =~= before.push(token@));
            }
        }
        i += 1;
    }
    assert(tv.take(tokens.len() as int) =~= tv);
    out
}

/// The columns that `expression` depends on; see `dependencies_spec`.
pub fn computed_column_dependencies(expression: &str, variable_names: &Vec<String>) -> (r: Vec<String>)
    ensures
        names_view(r@) == dependencies_spec(expression@, names_view(variable_names@)),
{
    let tokens = tokenize_expression(expression);
    let ghost tv = names_view(tokens@);
    let mut identifiers: Vec<bool> = Vec::new();
    let mut i: usize = 0;
    while i < tokens.len()
        invariant
            i <= tokens.len(),
            tv == names_view(tokens@),
            identifiers.len() == i,
            forall|k: int| 0 <= k < i ==> identifiers@[k] == identifier_pattern_match(#[trigger] tv[k]),
        decreases tokens.len() - i,
    {
        assert(tv[i as int] == tokens@[i as int]@);
        identifiers.push(matches_identifier_pattern(tokens[i].as_str()));
        i += 1;
    }
    proof {
        lemma_dependency_tokens_given(tv, names_view(variable_names@), identifiers@);
    }
    dependencies_from_tokens(&tokens, &identifiers, variable_names)
}

/// The dependencies that name a group of the resolver, with the group's members.
pub open spec fn grouped_dependencies(
    deps: Seq<Seq<char>>,
    groups: Seq<(Seq<char>, Seq<SourceView>)>,
) -> Seq<(Seq<char>, Seq<SourceView>)>
    decreases deps.len(),
{
    if deps.len() == 0 {
        Seq::empty()
    } else {
        let rest = grouped_dependencies(deps.drop_last(), groups);
        match lookup_group(groups, deps.last()) {
            Some(members) => rest.push((deps.last(), members)),
            None => rest,
        }
    }
}

/// Each variant in `prev` expanded over the members of a group: the group's
/// alias replaced by the member's column, the column added to the variant's list.
pub open spec fn expand_step(
    prev: Seq<(Seq<char>, Seq<Seq<char>>)>,
    group_alias: Seq<char>,
    members: Seq<SourceView>,
) -> Seq<(Seq<char>, Seq<Seq<char>>)>
    decreases prev.len(),
{
    if prev.len() == 0 {
        Seq::empty()
    } else {
        let v = prev.last();
        expand_step(prev.drop_last(), group_alias, members) + members.map_values(
            |m: SourceView| (word_replaced(v.0, group_alias, m.0), v.1.push(m.0)),
        )
    }
}

/// Every combination of group members for the expression, with the columns
/// chosen for it, groups taken in the order of the dependencies.
pub open spec fn variants_spec(
    expression: Seq<char>,
    grouped: Seq<(Seq<char>, Seq<SourceView>)>,
) -> Seq<(Seq<char>, Seq<Seq<char>>)>
    decreases grouped.len(),
{
    if grouped.len() == 0 {
        seq![(expression, Seq::empty())]
    } else {
        expand_step(variants_spec(expression, grouped.drop_last()), grouped.last().0, grouped.last().1)
    }
}

/// The alias of the expansion at `index` among `count`: the expanded alias, or,
/// when that is blank, the alias followed by `_` and the index.
pub open spec fn variant_alias(alias: Seq<char>, names: Seq<Seq<char>>, count: nat, index: nat) -> Seq<char> {
    let a = expanded_alias_spec(alias, names, count);
    if trim_spec(a).len() == 0 {
        alias + seq!['_'] + decimal(index)
    } else {
        a
    }
}

/// The (expression, alias) pairs that one computed column expands to: itself
/// when it names no group, else one per combination of group members.
pub open spec fn expand_grouped_spec(
    expression: Seq<char>,
    alias: Seq<char>,
    variables: Seq<Seq<char>>,
    groups: Seq<(Seq<char>, Seq<SourceView>)>,
) -> Seq<(Seq<char>, Seq<char>)> {
    let grouped = grouped_dependencies(dependencies_spec(expression, variables), groups);
    if grouped.len() == 0 {
        seq![(expression, alias)]
    } else {
        let v = variants_spec(expression, grouped);
        Seq::new(v.len(), |i: int| (v[i].0, variant_alias(alias, v[i].1, v.len(), i as nat)))
    }
}

/// A variant: the expression and the columns chosen for it.
pub struct Variant {
    pub expression: String,
    pub columns: Vec<String>,
}

pub open spec fn variant_view(v: Variant) -> (Seq<char>, Seq<Seq<char>>) {
    (v.expression@, names_view(v.columns@))
}

pub open spec fn variants_view(vs: Seq<Variant>) -> Seq<(Seq<char>, Seq<Seq<char>>)> {
    vs.map_values(|v: Variant| variant_view(v))
}

fn clone_names(v: &Vec<String>) -> (r: Vec<String>)
    ensures
        names_view(r@) == names_view(v@),
{
    let mut r: Vec<String> = Vec::new();
    let mut i: usize = 0;
    while i < v.len()
        invariant
            i <= v.len(),
            names_view(r@) == names_view(v@).take(i as int),
        decreases v.len() - i,
    {
        let ghost before = names_view(r@);
        r.push(v[i].clone());
        assert(names_view(r@) =~= before.push(v@[i as int]@));
        assert(names_view(r@) =~= names_view(v@).take(i + 1));
        i += 1;
    }
    assert(names_view(v@).take(v.len() as int) =~= names_view(v@));
    r
}

/// The lookup of each dependency among the resolver's groups.
fn group_members(resolver: &SourceGroupResolver, dep: &String) -> (r: Option<usize>)
    ensures
        match r {
            Some(k) => k < resolver.groups.len() && lookup_group(resolver_view(resolver.groups@), dep@)
                == Some(resolver_view(resolver.groups@)[k as int].1) && resolver_view(resolver.groups@)[k as int].0
                == dep@,
            None => lookup_group(resolver_view(resolver.groups@), dep@) is None,
        },
{
    let ghost gv = resolver_view(resolver.groups@);
    let mut i: usize = 0;
    assert(gv.take(0) =~= Seq::<(Seq<char>, Seq<SourceView>)>::empty());
    while i < resolver.groups.len()
        invariant
            i <= resolver.groups.len(),
            gv == resolver_view(resolver.groups@),
            lookup_group(gv.take(i as int), dep@) is None,
        decreases resolver.groups.len() - i,
    {
        assert(gv.take(i + 1).drop_last() =~= gv.take(i as int));
        assert(gv.take(i + 1).last() == gv[i as int]);
        if resolver.groups[i].0 == *dep {
            assert(lookup_group(gv.take(i + 1), dep@) == Some(gv[i as int].1));
            proof {
                lemma_lookup_prefix(gv, (i + 1) as int, dep@);
            }
            return Some(i);
        }
        i += 1;
    }
    assert(gv.take(resolver.groups.len() as int) =~= gv);
    None
}

proof fn lemma_lookup_prefix(groups: Seq<(Seq<char>, Seq<SourceView>)>, k: int, alias: Seq<char>)
    requires
        0 < k <= groups.len(),
        lookup_group(groups.take(k), alias) is Some,
    ensures
        lookup_group(groups, alias) == lookup_group(groups.take(k), alias),
    decreases groups.len() - k,
{
    if k < groups.len() {
        assert(groups.take(k + 1).drop_last() =~= groups.take(k));
        lemma_lookup_prefix(groups, k + 1, alias);
    } else {
        assert(groups.take(k) =~= groups);
    }
}

/// Expands every variant over the members of the group at `gi` of the resolver.
fn expand_variants(
    prev: &Vec<Variant>,
    resolver: &SourceGroupResolver,
    gi: usize,
    group_alias: &String,
) -> (r: Vec<Variant>)
    requires
        gi < resolver.groups.len(),
        group_alias@.len() <= crate::sources::max_group_alias_len(),
    ensures
        variants_view(r@) == expand_step(
            variants_view(prev@),
            group_alias@,
            resolver_view(resolver.groups@)[gi as int].1,
        ),
{
    let members = &resolver.groups[gi].1;
    let ghost mv = resolver_view(resolver.groups@)[gi as int].1;
    let ghost pv = variants_view(prev@);
    assert(mv == crate::sources::resolved_seq_view(members@));
    let mut out: Vec<Variant> = Vec::new();
    let mut i: usize = 0;
    assert(pv.take(0) =~= Seq::<(Seq<char>, Seq<Seq<char>>)>::empty());
    assert(variants_view(out@) =~= Seq::<(Seq<char>, Seq<Seq<char>>)>::empty());
    while i < prev.len()
        invariant
            i <= prev.len(),
            pv == variants_view(prev@),
            mv == crate::sources::resolved_seq_view(members@),
            variants_view(out@) == expand_step(pv.take(i as int), group_alias@, mv),
            group_alias@.len() <= crate::sources::max_group_alias_len(),
        decreases prev.len() - i,
    {
        let v = &prev[i];
        assert(pv[i as int] == variant_view(*v));
        assert(pv.take(i + 1).drop_last() =~= pv.take(i as int));
        assert(pv.take(i + 1).last() == pv[i as int]);
        let ghost base = variants_view(out@);
        let ghost add = mv.map_values(
            |m: SourceView| (word_replaced(pv[i as int].0, group_alias@, m.0), pv[i as int].1.push(m.0)),
        );
        let mut k: usize = 0;
        assert(base + add.take(0) =~= base);
        while k < members.len()
            invariant
                k <= members.len(),
                i < prev.len(),
                pv == variants_view(prev@),
                pv[i as int] == variant_view(prev@[i as int]),
                mv == crate::sources::resolved_seq_view(members@),
                add == mv.map_values(
                    |m: SourceView| (word_replaced(pv[i as int].0, group_alias@, m.0), pv[i as int].1.push(m.0)),
                ),
                variants_view(out@) == base + add.take(k as int),
                group_alias@.len() <= crate::sources::max_group_alias_len(),
            decreases members.len() - k,
        {
            let column = &members[k].column_name;
            assert(mv[k as int].0 == column@);
            let expression = replace_group_alias_in_expression(
                prev[i].expression.as_str(),
                group_alias.as_str(),
                column.as_str(),
            );
            let mut columns = clone_names(&prev[i].columns);
            let ghost before_cols = names_view(columns@);
            columns.push(column.clone());
            assert(names_view(columns@) =~= before_cols.push(column@));
            let item = Variant { expression, columns };
            let ghost iv = variant_view(item);
            assert(iv == add[k as int]);
            let ghost before = variants_view(out@);
            out.push(item);
            assert(variants_view(out@) =~= before.push(iv));
            assert(variants_view(out@) =~= base + add.take(k + 1));
            k += 1;
        }
        assert(add.take(members.len() as int) =~= add);
        i += 1;
    }
    assert(pv.take(prev.len() as int) =~= pv);
    out
}

/// Every column group that `expression` names (a dependency that is the alias
/// of a resolved group, whose alias is then replaced in the expression) has
/// an alias of at most `max_group_alias_len()` characters.
pub open spec fn named_aliases_fit(
    expression: Seq<char>,
    variables: Seq<Seq<char>>,
    groups: Seq<(Seq<char>, Seq<SourceView>)>,
) -> bool {
    forall|i: int|
        0 <= i < dependencies_spec(expression, variables).len() && lookup_group(
            groups,
            #[trigger] dependencies_spec(expression, variables)[i],
        ) is Some ==> dependencies_spec(expression, variables)[i].len() <= crate::sources::max_group_alias_len()
}

/// Whether every column group that `expression` names has an alias of at most
/// `max_group_alias_len()` characters; see `named_aliases_fit`.
pub fn named_groups_fit(expression: &str, variable_names: &Vec<String>, resolver: &SourceGroupResolver) -> (r: bool)
    ensures
        r == named_aliases_fit(expression@, names_view(variable_names@), resolver_view(resolver.groups@)),
{
    let deps = computed_column_dependencies(expression, variable_names);
    let ghost dv = names_view(deps@);
    let ghost gv = resolver_view(resolver.groups@);
    let mut i: usize = 0;
    while i < deps.len()
        invariant
            i <= deps.len(),
            dv == names_view(deps@),
            gv == resolver_view(resolver.groups@),
            dv == dependencies_spec(expression@, names_view(variable_names@)),
            forall|k: int|
                0 <= k < i && lookup_group(gv, #[trigger] dv[k]) is Some ==> dv[k].len() <= crate::sources::max_group_alias_len(),
        decreases deps.len() - i,
    {
        assert(dv[i as int] == deps@[i as int]@);
        match group_members(resolver, &deps[i]) {
            Some(_) => {
                let n = chars_of(deps[i].as_str()).len();
                if n > 4096 {
                    return false;
                }
            },
            None => {},
        }
        i += 1;
    }
    true
}

/// Expands a computed column over the column groups its expression names;
/// see `expand_grouped_spec`.
pub fn expand_grouped_computed_columns(
    expression: &str,
    alias: &str,
    variable_names: &Vec<String>,
    resolver: &SourceGroupResolver,
) -> (r: Vec<(String, String)>)
    requires
        named_aliases_fit(expression@, names_view(variable_names@), resolver_view(resolver.groups@)),
    ensures
        crate::names::pairs_view(r@) == expand_grouped_spec(
            expression@,
            alias@,
            names_view(variable_names@),
            resolver_view(resolver.groups@),
        ),
{
    let ghost gv = resolver_view(resolver.groups@);
    let deps = computed_column_dependencies(expression, variable_names);
    let ghost dv = names_view(deps@);
    let mut variants: Vec<Variant> = Vec::new();
    let no_columns: Vec<String> = Vec::new();
    assert(names_view(no_columns@) =~= Seq::<Seq<char>>::empty());
    let first = Variant { expression: string_of(&chars_of(expression)), columns: no_columns };
    assert(variant_view(first) == (expression@, Seq::<Seq<char>>::empty()));
    variants.push(first);
    let mut any_group = false;
    let ghost mut grouped: Seq<(Seq<char>, Seq<SourceView>)> = Seq::empty();
    let mut i: usize = 0;
    assert(dv.take(0) =~= Seq::<Seq<char>>::empty());
    assert(variants_view(variants@) =~= seq![(expression@, Seq::<Seq<char>>::empty())]);
    while i < deps.len()
        invariant
            i <= deps.len(),
            gv == resolver_view(resolver.groups@),
            named_aliases_fit(expression@, names_view(variable_names@), gv),
            dv == names_view(deps@),
            dv == dependencies_spec(expression@, names_view(variable_names@)),
            grouped == grouped_dependencies(dv.take(i as int), gv),
            any_group == (grouped.len() > 0),
            variants_view(variants@) == variants_spec(expression@, grouped),
        decreases deps.len() - i,
    {
        assert(dv.take(i + 1).drop_last() =~= dv.take(i as int));
        assert(dv.take(i + 1).last() == deps@[i as int]@);
        match group_members(resolver, &deps[i]) {
            Some(gi) => {
                assert(dv[i as int] == deps@[i as int]@);
                assert(lookup_group(gv, dv[i as int]) is Some);
                assert(gv[gi as int].0.len() <= crate::sources::max_group_alias_len());
                let next = expand_variants(&variants, resolver, gi, &deps[i]);
                variants = next;
                proof {
                    let old_grouped = grouped;
                    grouped = grouped.push((deps@[i as int]@, gv[gi as int].1));
                    assert(grouped.drop_last() =~= old_grouped);
                    assert(grouped_dependencies(dv.take(i + 1), gv) == grouped);
                }
                any_group = true;
            },
            None => {
                assert(grouped_dependencies(dv.take(i + 1), gv) == grouped);
            },
        }
        i += 1;
    }
    assert(dv.take(deps.len() as int) =~= dv);
    let mut out: Vec<(String, String)> = Vec::new();
    if !any_group {
        out.push((string_of(&chars_of(expression)), string_of(&chars_of(alias))));
        assert(crate::names::pairs_view(out@) =~= seq![(expression@, alias@)]);
        return out;
    }
    let ghost vv = variants_view(variants@);
    let count = variants.len();
    let mut k: usize = 0;
    assert(crate::names::pairs_view(out@) =~= Seq::<(Seq<char>, Seq<char>)>::empty());
    while k < count
        invariant
            k <= count == variants.len(),
            vv == variants_view(variants@),
            crate::names::pairs_view(out@) == Seq::new(
                vv.len(),
                |j: int| (vv[j].0, variant_alias(alias@, vv[j].1, vv.len(), j as nat)),
            ).take(k as int),
        decreases count - k,
    {
        assert(vv[k as int] == variant_view(variants@[k as int]));
        let expanded = expanded_computed_column_alias(alias, &variants[k].columns, count);
        assert(variants@[k as int].columns.deep_view() =~= names_view(variants@[k as int].columns@));
        let trimmed = trimmed_chars(expanded.as_str());
        let final_alias = if trimmed.len() == 0 {
            let mut a = chars_of(alias);
            a.push('_');
            let digits = to_decimal(k);
            let mut m: usize = 0;
            let ghost start = a@;
            while m < digits.len()
                invariant
                    m <= digits.len(),
                    a@ == start + digits@.take(m as int),
                decreases digits.len() - m,
            {
                a.push(digits[m]);
                m += 1;
                assert(a@ =~= start + digits@.take(m as int));
            }
            assert(digits@.take(digits.len() as int) =~= digits@);
            assert(a@ =~= alias@ + seq!['_'] + decimal(k as nat));
            string_of(&a)
        } else {
            expanded
        };
        assert(vv[k as int].1 == names_view(variants@[k as int].columns@));
        let ghost before = crate::names::pairs_view(out@);
        let ghost fv = final_alias@;
        assert(fv == variant_alias(alias@, vv[k as int].1, vv.len(), k as nat));
        out.push((variants[k].expression.clone(), final_alias));
        assert(crate::names::pairs_view(out@) =~= before.push((vv[k as int].0, fv)));
        assert(crate::names::pairs_view(out@) =~= Seq::new(
            vv.len(),
            |j: int| (vv[j].0, variant_alias(alias@, vv[j].1, vv.len(), j as nat)),
        ).take(k + 1));
        k += 1;
    }
    assert(Seq::new(vv.len(), |j: int| (vv[j].0, variant_alias(alias@, vv[j].1, vv.len(), j as nat))).take(
        count as int,
    ) =~= Seq::new(vv.len(), |j: int| (vv[j].0, variant_alias(alias@, vv[j].1, vv.len(), j as nat))));
    out
}

/// The expansions whose alias is not blank and whose dependencies are all available.
pub open spec fn available_expansions(
    pairs: Seq<(Seq<char>, Seq<char>)>,
    variables: Seq<Seq<char>>,
    available: Seq<Seq<char>>,
) -> Seq<(Seq<char>, Seq<char>)>
    decreases pairs.len(),
{
    if pairs.len() == 0 {
        Seq::empty()
    } else {
        let rest = available_expansions(pairs.drop_last(), variables, available);
        let p = pairs.last();
        let deps = dependencies_spec(p.0, variables);
        if trim_spec(p.1).len() > 0 && (forall|i: int| 0 <= i < deps.len() ==> available.contains(
            #[trigger] deps[i],
        )) {
            rest.push(p)
        } else {
            rest
        }
    }
}

/// The expansions of one computed column against the available columns and
/// the column groups: those whose alias is not blank and whose dependencies
/// are all available.
pub open spec fn expand_for_available_spec(
    expression: Seq<char>,
    alias: Seq<char>,
    available: Seq<Seq<char>>,
    groups: Seq<(Seq<char>, Seq<Seq<char>>)>,
    variables: Seq<Seq<char>>,
) -> Seq<(Seq<char>, Seq<char>)> {
    available_expansions(
        expand_grouped_spec(expression, alias, variables, resolver_state(groups, available).0),
        variables,
        available,
    )
}

/// The column groups seen as aliases and member names.
pub open spec fn groups_view(groups: Seq<ColumnGroup>) -> Seq<(Seq<char>, Seq<Seq<char>>)> {
    groups.map_values(|g: ColumnGroup| group_view(g))
}

pub(crate) fn all_available(deps: &Vec<String>, available: &Vec<String>) -> (r: bool)
    ensures
        r == (forall|i: int| 0 <= i < deps.len() ==> names_view(available@).contains(#[trigger] names_view(deps@)[i])),
{
    let mut i: usize = 0;
    while i < deps.len()
        invariant
            i <= deps.len(),
            forall|k: int| 0 <= k < i ==> names_view(available@).contains(#[trigger] names_view(deps@)[k]),
        decreases deps.len() - i,
    {
        assert(names_view(deps@)[i as int] == deps@[i as int]@);
        if !contains_string(available, &deps[i]) {
            return false;
        }
        i += 1;
    }
    true
}

/// The expansions of one computed column that the available columns support;
/// see `expand_for_available_spec`.
pub fn expand_grouped_computed_columns_for_available_columns(
    expression: &str,
    alias: &str,
    available_columns: &Vec<String>,
    column_groups: &Vec<ColumnGroup>,
    variable_names: &Vec<String>,
) -> (r: Vec<(String, String)>)
    requires
        resolver_fit(groups_view(column_groups@), names_view(available_columns@)),
        named_aliases_fit(
            expression@,
            names_view(variable_names@),
            resolver_state(groups_view(column_groups@), names_view(available_columns@)).0,
        ),
    ensures
        crate::names::pairs_view(r@) == expand_for_available_spec(
            expression@,
            alias@,
            names_view(available_columns@),
            groups_view(column_groups@),
            names_view(variable_names@),
        ),
{
    let resolver = build_source_group_resolver_for_columns(column_groups, available_columns);
    let expanded = expand_grouped_computed_columns(expression, alias, variable_names, &resolver);
    let ghost ev = crate::names::pairs_view(expanded@);
    let ghost vars = names_view(variable_names@);
    let ghost av = names_view(available_columns@);
    let mut out: Vec<(String, String)> = Vec::new();
    let mut i: usize = 0;
    assert(ev.take(0) =~= Seq::<(Seq<char>, Seq<char>)>::empty());
    assert(crate::names::pairs_view(out@) =~= Seq::<(Seq<char>, Seq<char>)>::empty());
    while i < expanded.len()
        invariant
            i <= expanded.len(),
            ev == crate::names::pairs_view(expanded@),
            vars == names_view(variable_names@),
            av == names_view(available_columns@),
            crate::names::pairs_view(out@) == available_expansions(ev.take(i as int), vars, av),
        decreases expanded.len() - i,
    {
        assert(ev.take(i + 1).drop_last() =~= ev.take(i as int));
        assert(ev.take(i + 1).last() == (expanded@[i as int].0@, expanded@[i as int].1@));
        let trimmed = trimmed_chars(expanded[i].1.as_str());
        if trimmed.len() > 0 {
            let deps = computed_column_dependencies(expanded[i].0.as_str(), variable_names);
            let ghost dspec = dependencies_spec(ev[i as int].0, vars);
            assert(names_view(deps@) == dspec);
            let ok = all_available(&deps, available_columns);
            assert(ok == (forall|k: int| 0 <= k < dspec.len() ==> av.contains(#[trigger] dspec[k])));
            if ok {
                let ghost before = crate::names::pairs_view(out@);
                out.push((expanded[i].0.clone(), expanded[i].1.clone()));
                assert(crate::names::pairs_view(out@) =~= before.push(ev[i as int]));
            }
        }
        i += 1;
    }
    assert(ev.take(expanded.len() as int) =~= ev);
    out
}

/// `s` followed by each of `items` that is not already there.
pub open spec fn add_new(s: Seq<Seq<char>>, items: Seq<Seq<char>>) -> Seq<Seq<char>>
    decreases items.len(),
{
    if items.len() == 0 {
        s
    } else {
        let r = add_new(s, items.drop_last());
        if r.contains(items.last()) {
            r
        } else {
            r.push(items.last())
        }
    }
}

/// After reading the computed columns in order: the columns available so far,
/// for each computed column the number of expanded aliases found before it,
/// and all expanded aliases, each once. Each computed column is expanded
/// against the base columns and the aliases of the ones before it.
pub open spec fn collect_state(
    base: Seq<Seq<char>>,
    computed: Seq<(Seq<char>, Seq<char>)>,
    groups: Seq<(Seq<char>, Seq<Seq<char>>)>,
    variables: Seq<Seq<char>>,
) -> (Seq<Seq<char>>, Seq<usize>, Seq<Seq<char>>)
    decreases computed.len(),
{
    if computed.len() == 0 {
        (base, Seq::empty(), Seq::empty())
    } else {
        let prev = collect_state(base, computed.drop_last(), groups, variables);
        let c = computed.last();
        let aliases = expand_for_available_spec(c.0, c.1, prev.0, groups, variables).map_values(
            |p: (Seq<char>, Seq<char>)| p.1,
        );
        (add_new(prev.0, aliases), prev.1.push(prev.2.len() as usize), add_new(prev.2, aliases))
    }
}

fn add_new_exec(s: &mut Vec<String>, items: &Vec<(String, String)>)
    ensures
        names_view(final(s)@) == add_new(
            names_view(old(s)@),
            crate::names::pairs_view(items@).map_values(|p: (Seq<char>, Seq<char>)| p.1),
        ),
{
    let ghost start = names_view(s@);
    let ghost iv = crate::names::pairs_view(items@).map_values(|p: (Seq<char>, Seq<char>)| p.1);
    let mut i: usize = 0;
    assert(iv.take(0) =~= Seq::<Seq<char>>::empty());
    while i < items.len()
        invariant
            i <= items.len(),
            iv == crate::names::pairs_view(items@).map_values(|p: (Seq<char>, Seq<char>)| p.1),
            names_view(s@) == add_new(start, iv.take(i as int)),
        decreases items.len() - i,
    {
        assert(iv.take(i + 1).drop_last() =~= iv.take(i as int));
        assert(iv.take(i + 1).last() == items@[i as int].1@);
        if !contains_string(s, &items[i].1) {
            let ghost before = names_view(s@);
            s.push(items[i].1.clone());
            assert(names_view(s@) =~= before.push(items@[i as int].1@));
        }
        i += 1;
    }
    assert(iv.take(items.len() as int) =~= iv);
}

/// Collecting the aliases of the computed columns reads every number without
/// failing, and names no over-long group alias: for each computed column, the
/// groups resolve against the columns available so far (see `resolver_fit`)
/// and the groups its expression names fit (see `named_aliases_fit`).
pub open spec fn collect_fit(
    base: Seq<Seq<char>>,
    computed: Seq<(Seq<char>, Seq<char>)>,
    groups: Seq<(Seq<char>, Seq<Seq<char>>)>,
    variables: Seq<Seq<char>>,
) -> bool {
    forall|i: int| 0 <= i < computed.len() ==> #[trigger] collect_step_fit(base, computed, groups, variables, i)
}

/// The groups resolve against the columns available before computed column
/// `i` is collected, and the groups its expression names fit.
pub open spec fn collect_step_fit(
    base: Seq<Seq<char>>,
    computed: Seq<(Seq<char>, Seq<char>)>,
    groups: Seq<(Seq<char>, Seq<Seq<char>>)>,
    variables: Seq<Seq<char>>,
    i: int,
) -> bool {
    let st = collect_state(base, computed.take(i), groups, variables).0;
    resolver_fit(groups, st) && named_aliases_fit(computed[i].0, variables, resolver_state(groups, st).0)
}

/// For each computed column, how many expanded aliases come before it, and
/// all expanded aliases, each once; see `collect_state`.
pub fn collect_expanded_computed_column_aliases(
    base_columns: &Vec<String>,
    computed_columns: &Vec<(String, String)>,
    column_groups: &Vec<ColumnGroup>,
    variable_names: &Vec<String>,
) -> (r: (Vec<usize>, Vec<String>))
    requires
        collect_fit(
            names_view(base_columns@),
            crate::names::pairs_view(computed_columns@),
            groups_view(column_groups@),
            names_view(variable_names@),
        ),
    ensures
        ({
            let st = collect_state(
                names_view(base_columns@),
                crate::names::pairs_view(computed_columns@),
                groups_view(column_groups@),
                names_view(variable_names@),
            );
            r.0@ == st.1 && names_view(r.1@) == st.2
        }),
{
    let ghost cv = crate::names::pairs_view(computed_columns@);
    let ghost base = names_view(base_columns@);
    let ghost gv = groups_view(column_groups@);
    let ghost vars = names_view(variable_names@);
    let mut current = clone_names(base_columns);
    let mut lengths: Vec<usize> = Vec::new();
    let mut all: Vec<String> = Vec::new();
    let mut i: usize = 0;
    assert(cv.take(0) =~= Seq::<(Seq<char>, Seq<char>)>::empty());
    assert(names_view(all@) =~= Seq::<Seq<char>>::empty());
    assert(lengths@ =~= Seq::<usize>::empty());
    while i < computed_columns.len()
        invariant
            i <= computed_columns.len(),
            cv == crate::names::pairs_view(computed_columns@),
            base == names_view(base_columns@),
            gv == groups_view(column_groups@),
            vars == names_view(variable_names@),
            collect_fit(base, cv, gv, vars),
            names_view(current@) == collect_state(base, cv.take(i as int), gv, vars).0,
            lengths@ == collect_state(base, cv.take(i as int), gv, vars).1,
            names_view(all@) == collect_state(base, cv.take(i as int), gv, vars).2,
        decreases computed_columns.len() - i,
    {
        assert(cv.take(i + 1).drop_last() =~= cv.take(i as int));
        assert(cv.take(i + 1).last() == (computed_columns@[i as int].0@, computed_columns@[i as int].1@));
        lengths.push(all.len());
        assert(collect_step_fit(base, cv, gv, vars, i as int));
        let expanded = expand_grouped_computed_columns_for_available_columns(
            computed_columns[i].0.as_str(),
            computed_columns[i].1.as_str(),
            &current,
            column_groups,
            variable_names,
        );
        add_new_exec(&mut all, &expanded);
        add_new_exec(&mut current, &expanded);
        i += 1;
    }
    assert(cv.take(computed_columns.len() as int) =~= cv);
    (lengths, all)
}

} // verus!
