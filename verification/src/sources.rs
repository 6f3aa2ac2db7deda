//! Resolving what a histogram or expression names as its source: a plain
//! column, a brace pattern such as `X{1-3}` or `X{1,4}`, or the alias of a
//! column group.
use vstd::prelude::*;
use crate::decimal::{decimal, decimal_value, parse_decimal, to_decimal};
use crate::group_tokens::{derive_group_name_tokens, group_name_tokens_spec, opt_names_view};
use crate::identifiers::{is_identifier, is_valid_identifier_name};
use crate::names::{contains_string, dedup_spec, names_view, normalize_names_spec, ColumnGroup};
use crate::text::{
    chars_of, copy_range, lemma_trim_idempotent, skip_from, string_of,
    trim_spec, trimmed_chars,
};

verus! {

/// One column that a source selection stands for, with the token that names
/// it among its siblings (when the selection stands for several).
pub struct ResolvedSourceSelection {
    pub column_name: String,
    pub name_token: Option<String>,
}

/// The view of a resolved selection: the column name and the token.
pub open spec fn resolved_view(r: ResolvedSourceSelection) -> (Seq<char>, Option<Seq<char>>) {
    (
        r.column_name@,
        match r.name_token {
            Some(t) => Some(t@),
            None => None,
        },
    )
}

pub open spec fn resolved_seq_view(rs: Seq<ResolvedSourceSelection>) -> Seq<(Seq<char>, Option<Seq<char>>)> {
    rs.map_values(|r: ResolvedSourceSelection| resolved_view(r))
}

/// What the `regex` crate finds for the range pattern `\{(\d+)-(\d+)\}` in
/// `text` (`Regex::captures`, leftmost match): the text before the match, the
/// two numbers as written, and the text after the match; `None` when there is
/// no match.
pub uninterp spec fn range_pattern_capture(text: Seq<char>) -> Option<(Seq<char>, Seq<char>, Seq<char>, Seq<char>)>;

/// What the `regex` crate finds for the list pattern `\{([\d,]+)\}` in `text`
/// (`Regex::captures`, leftmost match): the text before the match, the list
/// as written, and the text after the match; `None` when there is no match.
pub uninterp spec fn list_pattern_capture(text: Seq<char>) -> Option<(Seq<char>, Seq<char>, Seq<char>)>;

/// Matches the range pattern with the `regex` crate (`Regex::new`,
/// `Regex::captures`). The contract names the result and says nothing more.
#[verifier::external_body]
fn capture_range_pattern(text: &str) -> (r: Option<(String, String, String, String)>)
    ensures
        match r {
            Some(c) => range_pattern_capture(text@) == Some((c.0@, c.1@, c.2@, c.3@)),
            None => range_pattern_capture(text@) is None,
        },
{
    let re = regex::Regex::new(r"\{(\d+)-(\d+)\}").expect("failed to create range regex");
    match re.captures(text) {
        Some(caps) => {
            let m = caps.get(0).expect("a match has a whole-match group");
            Some((text[..m.start()].to_owned(), caps[1].to_owned(), caps[2].to_owned(), text[m.end()..].to_owned()))
        },
        None => None,
    }
}

/// Matches the list pattern with the `regex` crate (`Regex::new`,
/// `Regex::captures`). The contract names the result and says nothing more.
#[verifier::external_body]
fn capture_list_pattern(text: &str) -> (r: Option<(String, String, String)>)
    ensures
        match r {
            Some(c) => list_pattern_capture(text@) == Some((c.0@, c.1@, c.2@)),
            None => list_pattern_capture(text@) is None,
        },
{
    let re = regex::Regex::new(r"\{([\d,]+)\}").expect("failed to create list regex");
    match re.captures(text) {
        Some(caps) => {
            let m = caps.get(0).expect("a match has a whole-match group");
            Some((text[..m.start()].to_owned(), caps[1].to_owned(), text[m.end()..].to_owned()))
        },
        None => None,
    }
}

/// A number as std's `usize` parser reads it from what the range pattern
/// captured: nonempty, ASCII digits only, and within a `usize`.
pub open spec fn usize_number(s: Seq<char>) -> bool {
    &&& s.len() > 0
    &&& forall|k: int| 0 <= k < s.len() ==> '0' <= #[trigger] s[k] <= '9'
    &&& decimal_value(s) <= usize::MAX
}

/// The index of the first comma at or after `i` (or the length).
pub open spec fn comma_end(s: Seq<char>, i: int) -> int {
    skip_from(s, |c: char| c != ',', i)
}

/// `s` split at every comma.
pub open spec fn split_commas(s: Seq<char>) -> Seq<Seq<char>>
    decreases s.len(),
{
    let i = comma_end(s, 0);
    if i < 0 || i >= s.len() {
        seq![s]
    } else {
        seq![s.take(i)] + split_commas(s.skip(i + 1))
    }
}

/// What a source selection stands for when it names no group: the trimmed
/// selection; or, for the leftmost `{a-b}` in it, one column per number from
/// `a` to `b` with the pattern replaced by the number; or, failing that, for the
/// leftmost `{...}` of digits and commas, one column per comma-separated item.
/// Each expanded column carries its number or item as its token.
pub open spec fn expand_pattern_spec(selection: Seq<char>) -> Seq<(Seq<char>, Option<Seq<char>>)> {
    let t = trim_spec(selection);
    if t.len() == 0 {
        Seq::empty()
    } else {
        match range_pattern_capture(t) {
            Some((pre, lo, hi, post)) => {
                let a = decimal_value(lo) as int;
                let b = decimal_value(hi) as int;
                let n = if b >= a { b - a + 1 } else { 0 };
                Seq::new(n as nat, |k: int| (pre + decimal((a + k) as nat) + post, Some(decimal((a + k) as nat))))
            },
            None => match list_pattern_capture(t) {
                Some((pre, items, post)) => split_commas(items).map_values(|v: Seq<char>| (pre + v + post, Some(v))),
                None => seq![(t, None)],
            },
        }
    }
}

/// Expanding the selection reads its numbers without failing: the trimmed
/// selection is blank (and is not matched at all), or the numbers of its
/// leftmost range pattern, if it has one, are ASCII digits that std's `usize`
/// parser reads within a `usize`.
pub open spec fn range_fits(selection: Seq<char>) -> bool {
    trim_spec(selection).len() == 0 || match range_pattern_capture(trim_spec(selection)) {
        Some((_, lo, hi, _)) => usize_number(lo) && usize_number(hi),
        None => true,
    }
}

fn usize_number_exec(s: &String) -> (r: bool)
    ensures
        r == usize_number(s@),
{
    let v = chars_of(s.as_str());
    if v.len() == 0 {
        return false;
    }
    let mut i: usize = 0;
    while i < v.len()
        invariant
            i <= v.len(),
            v@ == s@,
            forall|k: int| 0 <= k < i ==> '0' <= #[trigger] v@[k] <= '9',
        decreases v.len() - i,
    {
        if !('0' <= v[i] && v[i] <= '9') {
            return false;
        }
        i += 1;
    }
    crate::decimal::decimal_fits_usize(&v)
}

/// Whether expanding `selection` reads its numbers without failing; see
/// `range_fits`.
pub fn selection_fits(selection: &str) -> (r: bool)
    ensures
        r == range_fits(selection@),
{
    let tc = trimmed_chars(selection);
    if tc.len() == 0 {
        return true;
    }
    let t = string_of(&tc);
    match capture_range_pattern(t.as_str()) {
        Some((_, lo, hi, _)) => usize_number_exec(&lo) && usize_number_exec(&hi),
        None => true,
    }
}

fn concat3(a: &String, b: &Vec<char>, c: &String) -> (r: String)
    ensures
        r@ == a@ + b@ + c@,
{
    let mut v = chars_of(a.as_str());
    let ghost head = v@;
    let mut i: usize = 0;
    while i < b.len()
        invariant
            i <= b.len(),
            v@ == head + b@.take(i as int),
        decreases b.len() - i,
    {
        v.push(b[i]);
        i += 1;
        assert(v@ =~= head + b@.take(i as int));
    }
    assert(b@.take(b.len() as int) =~= b@);
    let tail = chars_of(c.as_str());
    let ghost mid = v@;
    let mut j: usize = 0;
    while j < tail.len()
        invariant
            j <= tail.len(),
            v@ == mid + tail@.take(j as int),
        decreases tail.len() - j,
    {
        v.push(tail[j]);
        j += 1;
        assert(v@ =~= mid + tail@.take(j as int));
    }
    assert(tail@.take(tail.len() as int) =~= tail@);
    string_of(&v)
}

fn split_commas_exec(v: &Vec<char>) -> (r: Vec<Vec<char>>)
    ensures
        r@.map_values(|x: Vec<char>| x@) == split_commas(v@),
    decreases v.len(),
{
    let mut i: usize = 0;
    while i < v.len() && v[i] != ','
        invariant
            i <= v.len(),
            comma_end(v@, i as int) == comma_end(v@, 0),
        decreases v.len() - i,
    {
        i += 1;
    }
    let mut r: Vec<Vec<char>> = Vec::new();
    if i >= v.len() {
        r.push(copy_range(v, 0, v.len()));
        assert(v@.subrange(0, v.len() as int) =~= v@);
        assert(r@.map_values(|x: Vec<char>| x@) =~= seq![v@]);
        return r;
    }
    r.push(copy_range(v, 0, i));
    let rest = copy_range(v, i + 1, v.len());
    assert(rest@ =~= v@.skip(i + 1));
    let tail = split_commas_exec(&rest);
    let mut k: usize = 0;
    assert(v@.subrange(0, i as int) =~= v@.take(i as int));
    let ghost head = seq![v@.take(i as int)];
    while k < tail.len()
        invariant
            k <= tail.len(),
            head == seq![v@.take(i as int)],
            tail@.map_values(|x: Vec<char>| x@) == split_commas(rest@),
            r@.map_values(|x: Vec<char>| x@) == head + tail@.map_values(|x: Vec<char>| x@).take(k as int),
        decreases tail.len() - k,
    {
        let ghost before = r@.map_values(|x: Vec<char>| x@);
        r.push(copy_range(&tail[k], 0, tail[k].len()));
        assert(tail@[k as int]@.subrange(0, tail@[k as int]@.len() as int) =~= tail@[k as int]@);
        assert(r@.map_values(|x: Vec<char>| x@) =~= before.push(tail@[k as int]@));
        assert(r@.map_values(|x: Vec<char>| x@) =~= head + tail@.map_values(|x: Vec<char>| x@).take(k + 1));
        k += 1;
    }
    assert(tail@.map_values(|x: Vec<char>| x@).take(tail.len() as int) =~= tail@.map_values(|x: Vec<char>| x@));
    r
}

/// What a selection stands for when it names no group; see `expand_pattern_spec`.
pub fn expand_pattern_source_selection(selection: &str) -> (r: Vec<ResolvedSourceSelection>)
    requires
        range_fits(selection@),
    ensures
        resolved_seq_view(r@) == expand_pattern_spec(selection@),
{
    let tc = trimmed_chars(selection);
    let mut out: Vec<ResolvedSourceSelection> = Vec::new();
    if tc.len() == 0 {
        assert(resolved_seq_view(out@) =~= expand_pattern_spec(selection@));
        return out;
    }
    let t = string_of(&tc);
    match capture_range_pattern(t.as_str()) {
        Some((pre, lo, hi, post)) => {
            let lo_chars = chars_of(lo.as_str());
            let hi_chars = chars_of(hi.as_str());
            assert(lo_chars@.subrange(0, lo_chars@.len() as int) =~= lo_chars@);
            assert(hi_chars@.subrange(0, hi_chars@.len() as int) =~= hi_chars@);
            let a = parse_decimal(&lo_chars, 0, lo_chars.len());
            let b = parse_decimal(&hi_chars, 0, hi_chars.len());
            let ghost n: int = if b >= a { b - a + 1 } else { 0 };
            let ghost f = |k: int| (pre@ + decimal((a + k) as nat) + post@, Some(decimal((a + k) as nat)));
            assert(expand_pattern_spec(selection@) == Seq::new(n as nat, f));
            if a > b {
                assert(resolved_seq_view(out@) =~= Seq::new(n as nat, f));
                return out;
            }
            let mut idx = a;
            loop
                invariant_except_break
                    resolved_seq_view(out@) == Seq::new(n as nat, f).take(idx - a),
                invariant
                    a <= idx <= b,
                    n == b - a + 1,
                    f == (|k: int| (pre@ + decimal((a + k) as nat) + post@, Some(decimal((a + k) as nat)))),
                ensures
                    resolved_seq_view(out@) == Seq::new(n as nat, f),
                decreases b - idx,
            {
                let digits = to_decimal(idx);
                let ghost before = resolved_seq_view(out@);
                let item = ResolvedSourceSelection {
                    column_name: concat3(&pre, &digits, &post),
                    name_token: Some(string_of(&digits)),
                };
                let ghost iv = resolved_view(item);
                assert(iv == f(idx - a));
                out.push(item);
                assert(resolved_seq_view(out@) =~= before.push(iv));
                assert(resolved_seq_view(out@) =~= Seq::new(n as nat, f).take(idx - a + 1));
                if idx == b {
                    assert(Seq::new(n as nat, f).take(n) =~= Seq::new(n as nat, f));
                    break;
                }
                idx += 1;
            }
            out
        },
        None => {
            match capture_list_pattern(t.as_str()) {
                Some((pre, list, post)) => {
                    let inner = chars_of(list.as_str());
                    let items = split_commas_exec(&inner);
                    let ghost g = |v: Seq<char>| (pre@ + v + post@, Some(v));
                    let ghost expected = items@.map_values(|x: Vec<char>| x@).map_values(g);
                    assert(expand_pattern_spec(selection@) == expected);
                    let mut k: usize = 0;
                    while k < items.len()
                        invariant
                            k <= items.len(),
                            g == (|v: Seq<char>| (pre@ + v + post@, Some(v))),
                            expected == items@.map_values(|x: Vec<char>| x@).map_values(g),
                            resolved_seq_view(out@) == expected.take(k as int),
                        decreases items.len() - k,
                    {
                        let ghost before = resolved_seq_view(out@);
                        let item = ResolvedSourceSelection {
                            column_name: concat3(&pre, &items[k], &post),
                            name_token: Some(string_of(&items[k])),
                        };
                        let ghost iv = resolved_view(item);
                        assert(iv == expected[k as int]);
                        out.push(item);
                        assert(resolved_seq_view(out@) =~= before.push(iv));
                        assert(resolved_seq_view(out@) =~= expected.take(k + 1));
                        k += 1;
                    }
                    assert(expected.take(items.len() as int) =~= expected);
                    out
                },
                None => {
                    let item = ResolvedSourceSelection { column_name: t, name_token: None };
                    out.push(item);
                    assert(resolved_seq_view(out@) =~= seq![(tc@, None)]);
                    out
                },
            }
        },
    }
}

/// The column names of a list of resolved selections.
pub open spec fn columns_of(rs: Seq<(Seq<char>, Option<Seq<char>>)>) -> Seq<Seq<char>> {
    rs.map_values(|r: (Seq<char>, Option<Seq<char>>)| r.0)
}

/// The columns that the member selections of a group stand for, in order.
pub open spec fn member_columns(members: Seq<Seq<char>>) -> Seq<Seq<char>>
    decreases members.len(),
{
    if members.len() == 0 {
        Seq::empty()
    } else {
        member_columns(members.drop_last()) + columns_of(expand_pattern_spec(members.last()))
    }
}

/// The entries of `cols` that `available` holds, in order.
pub open spec fn keep_available(cols: Seq<Seq<char>>, available: Seq<Seq<char>>) -> Seq<Seq<char>>
    decreases cols.len(),
{
    if cols.len() == 0 {
        Seq::empty()
    } else if available.contains(cols.last()) {
        keep_available(cols.drop_last(), available).push(cols.last())
    } else {
        keep_available(cols.drop_last(), available)
    }
}

/// The available columns that a group's members stand for, each once.
pub open spec fn group_columns(members: Seq<Seq<char>>, available: Seq<Seq<char>>) -> Seq<Seq<char>> {
    dedup_spec(keep_available(member_columns(normalize_names_spec(members)), available))
}

/// The members of a resolved group: each column with its name token.
pub open spec fn with_tokens(cols: Seq<Seq<char>>) -> Seq<(Seq<char>, Option<Seq<char>>)> {
    Seq::new(cols.len(), |i: int| (cols[i], group_name_tokens_spec(cols)[i]))
}

/// A group seen as its alias and its member names.
pub open spec fn group_view(g: ColumnGroup) -> (Seq<char>, Seq<Seq<char>>) {
    (g.alias@, names_view(g.column_names@))
}

/// The resolved groups after reading `groups`, and the aliases claimed so far.
/// A group is skipped when its trimmed alias is blank, not an identifier, the
/// name of an available column, or already claimed; a group whose members
/// resolve to no available column claims its alias but adds nothing.
pub open spec fn resolver_state(
    groups: Seq<(Seq<char>, Seq<Seq<char>>)>,
    available: Seq<Seq<char>>,
) -> (Seq<(Seq<char>, Seq<(Seq<char>, Option<Seq<char>>)>)>, Seq<Seq<char>>)
    decreases groups.len(),
{
    if groups.len() == 0 {
        (Seq::empty(), Seq::empty())
    } else {
        let prev = resolver_state(groups.drop_last(), available);
        let alias = trim_spec(groups.last().0);
        if alias.len() == 0 || !is_identifier(alias) || available.contains(alias) || prev.1.contains(
            alias,
        ) {
            prev
        } else {
            let cols = group_columns(groups.last().1, available);
            if cols.len() == 0 {
                (prev.0, prev.1.push(alias))
            } else {
                (prev.0.push((alias, with_tokens(cols))), prev.1.push(alias))
            }
        }
    }
}

/// The longest group alias that a computed column's expression can name: the
/// pattern that finds the alias as a whole word must stay within the size
/// limit of the `regex` crate.
pub open spec fn max_group_alias_len() -> nat {
    4096
}

/// Resolving the groups against the available columns reads every member's
/// numbers without failing: every member of every group that is resolved
/// (not skipped for a blank, invalid, clashing or repeated alias; see
/// `resolver_state`) has `range_fits`.
pub open spec fn resolver_fit(groups: Seq<(Seq<char>, Seq<Seq<char>>)>, available: Seq<Seq<char>>) -> bool
    decreases groups.len(),
{
    if groups.len() == 0 {
        true
    } else {
        let prev = resolver_state(groups.drop_last(), available);
        let alias = trim_spec(groups.last().0);
        resolver_fit(groups.drop_last(), available) && (alias.len() == 0 || !is_identifier(alias)
            || available.contains(alias) || prev.1.contains(alias) || forall|j: int|
            0 <= j < groups.last().1.len() ==> range_fits(#[trigger] groups.last().1[j]))
    }
}

proof fn lemma_resolver_fit_prefix(
    groups: Seq<(Seq<char>, Seq<Seq<char>>)>,
    available: Seq<Seq<char>>,
    k: int,
)
    requires
        0 <= k <= groups.len(),
        resolver_fit(groups, available),
    ensures
        resolver_fit(groups.take(k), available),
    decreases groups.len(),
{
    if k < groups.len() {
        assert(groups.drop_last().take(k) =~= groups.take(k));
        lemma_resolver_fit_prefix(groups.drop_last(), available, k);
    } else {
        assert(groups.take(k) =~= groups);
    }
}

/// The column groups by alias, ready to resolve source selections.
pub struct SourceGroupResolver {
    pub groups: Vec<(String, Vec<ResolvedSourceSelection>)>,
}

/// The view of the resolver's groups.
pub open spec fn resolver_view(groups: Seq<(String, Vec<ResolvedSourceSelection>)>) -> Seq<(Seq<char>, Seq<(Seq<char>, Option<Seq<char>>)>)> {
    groups.map_values(|g: (String, Vec<ResolvedSourceSelection>)| (g.0@, resolved_seq_view(g.1@)))
}

pub fn clone_resolved(r: &ResolvedSourceSelection) -> (c: ResolvedSourceSelection)
    ensures
        resolved_view(c) == resolved_view(*r),
{
    ResolvedSourceSelection {
        column_name: r.column_name.clone(),
        name_token: match &r.name_token {
            Some(t) => Some(t.clone()),
            None => None,
        },
    }
}

fn clone_resolved_vec(v: &Vec<ResolvedSourceSelection>) -> (c: Vec<ResolvedSourceSelection>)
    ensures
        resolved_seq_view(c@) == resolved_seq_view(v@),
{
    let mut c: Vec<ResolvedSourceSelection> = Vec::new();
    let mut i: usize = 0;
    while i < v.len()
        invariant
            i <= v.len(),
            resolved_seq_view(c@) == resolved_seq_view(v@).take(i as int),
        decreases v.len() - i,
    {
        let item = clone_resolved(&v[i]);
        let ghost before = resolved_seq_view(c@);
        let ghost iv = resolved_view(item);
        c.push(item);
        assert(resolved_seq_view(c@) =~= before.push(iv));
        assert(resolved_seq_view(c@) =~= resolved_seq_view(v@).take(i + 1));
        i += 1;
    }
    assert(resolved_seq_view(v@).take(v.len() as int) =~= resolved_seq_view(v@));
    c
}

/// The available columns that the members of a group stand for, each once.
fn resolve_group_columns(members: &Vec<String>, available: &Vec<String>) -> (r: Vec<String>)
    requires
        forall|j: int| 0 <= j < members.len() ==> range_fits(#[trigger] members@[j]@),
    ensures
        names_view(r@) == group_columns(names_view(members@), names_view(available@)),
{
    let ghost av = names_view(available@);
    let normalized = crate::names::normalize_names(members);
    let ghost nm = names_view(normalized@);
    proof {
        lemma_normalized_members_fit(names_view(members@));
    }
    let mut out: Vec<String> = Vec::new();
    let ghost mut collected: Seq<Seq<char>> = Seq::empty();
    let mut i: usize = 0;
    assert(nm.take(0) =~= Seq::<Seq<char>>::empty());
    assert(names_view(out@) =~= Seq::<Seq<char>>::empty());
    while i < normalized.len()
        invariant
            i <= normalized.len(),
            av == names_view(available@),
            nm == names_view(normalized@),
            nm == normalize_names_spec(names_view(members@)),
            forall|j: int| 0 <= j < nm.len() ==> range_fits(#[trigger] nm[j]),
            names_view(out@) == dedup_spec(keep_available(member_columns(nm.take(i as int)), av)),
        decreases normalized.len() - i,
    {
        assert(nm[i as int] == normalized@[i as int]@);
        assert(range_fits(nm[i as int]));
        let expanded = expand_pattern_source_selection(normalized[i].as_str());
        let ghost ecols = columns_of(resolved_seq_view(expanded@));
        assert(nm.take(i + 1).drop_last() =~= nm.take(i as int));
        let ghost base = member_columns(nm.take(i as int));
        assert(member_columns(nm.take(i + 1)) == base + ecols);
        let mut k: usize = 0;
        assert(base + ecols.take(0) =~= base);
        while k < expanded.len()
            invariant
                k <= expanded.len(),
                av == names_view(available@),
                ecols == columns_of(resolved_seq_view(expanded@)),
                names_view(out@) == dedup_spec(keep_available(base + ecols.take(k as int), av)),
            decreases expanded.len() - k,
        {
            let ghost cs = base + ecols.take(k as int);
            let ghost cs2 = base + ecols.take(k + 1);
            assert(cs2 =~= cs.push(ecols[k as int]));
            assert(cs2.drop_last() =~= cs);
            let col = &expanded[k].column_name;
            assert(col@ == ecols[k as int]);
            if contains_string(available, col) {
                assert(keep_available(cs2, av) == keep_available(cs, av).push(col@));
                assert(keep_available(cs2, av).drop_last() =~= keep_available(cs, av));
                if !contains_string(&out, col) {
                    let ghost before = names_view(out@);
                    out.push(col.clone());
                    assert(names_view(out@) =~= before.push(col@));
                }
            }
            k += 1;
        }
        assert(ecols.take(expanded.len() as int) =~= ecols);
        i += 1;
    }
    assert(nm.take(normalized.len() as int) =~= nm);
    out
}

/// Normalizing a list of names keeps a property `p` of every name, when `p`
/// depends only on the trimmed name.
pub proof fn lemma_normalized_keep(members: Seq<Seq<char>>, p: spec_fn(Seq<char>) -> bool)
    requires
        forall|x: Seq<char>| #[trigger] p(trim_spec(x)) == p(x),
        forall|j: int| 0 <= j < members.len() ==> p(#[trigger] members[j]),
    ensures
        forall|j: int| 0 <= j < normalize_names_spec(members).len() ==> p(#[trigger] normalize_names_spec(members)[j]),
{
    let trimmed = members.map_values(|n: Seq<char>| trim_spec(n));
    assert forall|j: int| 0 <= j < trimmed.len() implies p(#[trigger] trimmed[j]) by {
        assert(p(trim_spec(members[j])) == p(members[j]));
    }
    lemma_nonempty_parts_keep(trimmed, p);
    lemma_dedup_keep(crate::identifiers::nonempty_parts(trimmed), p);
}

/// Normalizing a list of members keeps the numbers of every member's range
/// pattern within a `usize`.
pub proof fn lemma_normalized_members_fit(members: Seq<Seq<char>>)
    requires
        forall|j: int| 0 <= j < members.len() ==> range_fits(#[trigger] members[j]),
    ensures
        forall|j: int|
            0 <= j < normalize_names_spec(members).len() ==> range_fits(
                #[trigger] normalize_names_spec(members)[j],
            ),
{
    let p = |x: Seq<char>| range_fits(x);
    assert forall|x: Seq<char>| #[trigger] p(trim_spec(x)) == p(x) by {
        lemma_trim_idempotent(x);
    }
    assert forall|j: int| 0 <= j < members.len() implies p(#[trigger] members[j]) by {}
    lemma_normalized_keep(members, p);
    assert forall|j: int| 0 <= j < normalize_names_spec(members).len() implies range_fits(
        #[trigger] normalize_names_spec(members)[j],
    ) by {
        assert(p(normalize_names_spec(members)[j]));
    }
}

proof fn lemma_nonempty_parts_keep(s: Seq<Seq<char>>, p: spec_fn(Seq<char>) -> bool)
    requires
        forall|j: int| 0 <= j < s.len() ==> p(#[trigger] s[j]),
    ensures
        forall|j: int|
            0 <= j < crate::identifiers::nonempty_parts(s).len() ==> p(#[trigger] crate::identifiers::nonempty_parts(s)[j]),
    decreases s.len(),
{
    if s.len() > 0 {
        assert forall|j: int| 0 <= j < s.drop_last().len() implies p(#[trigger] s.drop_last()[j]) by {
            assert(s.drop_last()[j] == s[j]);
        }
        lemma_nonempty_parts_keep(s.drop_last(), p);
        assert(p(s[s.len() - 1]));
        let r = crate::identifiers::nonempty_parts(s);
        let d = crate::identifiers::nonempty_parts(s.drop_last());
        assert forall|j: int| 0 <= j < r.len() implies p(#[trigger] r[j]) by {
            if j < d.len() {
                assert(r[j] == d[j]);
            } else {
                assert(r[j] == s.last());
            }
        }
    }
}

proof fn lemma_dedup_keep(s: Seq<Seq<char>>, p: spec_fn(Seq<char>) -> bool)
    requires
        forall|j: int| 0 <= j < s.len() ==> p(#[trigger] s[j]),
    ensures
        forall|j: int| 0 <= j < dedup_spec(s).len() ==> p(#[trigger] dedup_spec(s)[j]),
    decreases s.len(),
{
    if s.len() > 0 {
        assert forall|j: int| 0 <= j < s.drop_last().len() implies p(#[trigger] s.drop_last()[j]) by {
            assert(s.drop_last()[j] == s[j]);
        }
        lemma_dedup_keep(s.drop_last(), p);
        assert(p(s[s.len() - 1]));
        let r = dedup_spec(s);
        let d = dedup_spec(s.drop_last());
        assert forall|j: int| 0 <= j < r.len() implies p(#[trigger] r[j]) by {
            if j < d.len() {
                assert(r[j] == d[j]);
            } else {
                assert(r[j] == s.last());
            }
        }
    }
}

/// What `selection` stands for when it names no group (see
/// `expand_pattern_spec`), or `None` when expanding it would fail to read its
/// numbers (see `range_fits`).
pub fn checked_expand_pattern_source_selection(selection: &str) -> (r: Option<Vec<ResolvedSourceSelection>>)
    ensures
        match r {
            Some(v) => range_fits(selection@) && resolved_seq_view(v@) == expand_pattern_spec(selection@),
            None => !range_fits(selection@),
        },
{
    if selection_fits(selection) {
        Some(expand_pattern_source_selection(selection))
    } else {
        None
    }
}

fn members_fit(members: &Vec<String>) -> (r: bool)
    ensures
        r == (forall|j: int| 0 <= j < members@.len() ==> range_fits(#[trigger] members@[j]@)),
{
    let mut i: usize = 0;
    while i < members.len()
        invariant
            i <= members.len(),
            forall|j: int| 0 <= j < i ==> range_fits(#[trigger] members@[j]@),
        decreases members.len() - i,
    {
        if !selection_fits(members[i].as_str()) {
            return false;
        }
        i += 1;
    }
    true
}

/// Whether the groups resolve against the available columns without failing
/// to read a member's numbers; see `resolver_fit`.
pub fn groups_fit_against(column_groups: &Vec<ColumnGroup>, available_columns: &Vec<String>) -> (r: bool)
    ensures
        r == resolver_fit(column_groups@.map_values(|g: ColumnGroup| group_view(g)), names_view(available_columns@)),
{
    let ghost gv = column_groups@.map_values(|g: ColumnGroup| group_view(g));
    let ghost av = names_view(available_columns@);
    let mut seen: Vec<String> = Vec::new();
    let mut i: usize = 0;
    assert(gv.take(0) =~= Seq::<(Seq<char>, Seq<Seq<char>>)>::empty());
    assert(names_view(seen@) =~= Seq::<Seq<char>>::empty());
    while i < column_groups.len()
        invariant
            i <= column_groups.len(),
            gv == column_groups@.map_values(|g: ColumnGroup| group_view(g)),
            av == names_view(available_columns@),
            resolver_fit(gv.take(i as int), av),
            names_view(seen@) == resolver_state(gv.take(i as int), av).1,
        decreases column_groups.len() - i,
    {
        let group = &column_groups[i];
        assert(gv.take(i + 1).drop_last() =~= gv.take(i as int));
        assert(gv.take(i + 1).last() == group_view(*group));
        let alias_chars = trimmed_chars(group.alias.as_str());
        let alias = string_of(&alias_chars);
        if alias_chars.len() > 0 && is_valid_identifier_name(alias.as_str())
            && !contains_string(available_columns, &alias) && !contains_string(&seen, &alias) {
            if !members_fit(&group.column_names) {
                proof {
                    let j = choose|j: int| 0 <= j < group.column_names@.len() && !range_fits(#[trigger] group.column_names@[j]@);
                    let g = gv.take(i + 1);
                    assert(g.last() == group_view(*group));
                    assert(g.last().1[j] == group.column_names@[j]@);
                    assert(!range_fits(g.last().1[j]));
                    assert(trim_spec(g.last().0) == alias@);
                    assert(!resolver_fit(gv.take(i + 1), av));
                    lemma_resolver_fit_prefix_neg(gv, av, i + 1);
                }
                return false;
            }
            proof {
                assert forall|j: int| 0 <= j < gv[i as int].1.len() implies range_fits(#[trigger] gv[i as int].1[j]) by {
                    assert(gv[i as int].1[j] == group.column_names@[j]@);
                }
            }
            let ghost before_seen = names_view(seen@);
            seen.push(alias.clone());
            assert(names_view(seen@) =~= before_seen.push(alias@));
        }
        i += 1;
    }
    assert(gv.take(column_groups.len() as int) =~= gv);
    true
}

proof fn lemma_resolver_fit_prefix_neg(
    groups: Seq<(Seq<char>, Seq<Seq<char>>)>,
    available: Seq<Seq<char>>,
    k: int,
)
    requires
        0 <= k <= groups.len(),
        !resolver_fit(groups.take(k), available),
    ensures
        !resolver_fit(groups, available),
{
    if resolver_fit(groups, available) {
        lemma_resolver_fit_prefix(groups, available, k);
    }
}

/// Builds the resolver from the column groups, against the available columns;
/// see `resolver_state`.
pub fn build_source_group_resolver_for_columns(
    column_groups: &Vec<ColumnGroup>,
    available_columns: &Vec<String>,
) -> (r: SourceGroupResolver)
    requires
        resolver_fit(column_groups@.map_values(|g: ColumnGroup| group_view(g)), names_view(available_columns@)),
    ensures
        resolver_view(r.groups@) == resolver_state(
            column_groups@.map_values(|g: ColumnGroup| group_view(g)),
            names_view(available_columns@),
        ).0,
{
    let ghost gv = column_groups@.map_values(|g: ColumnGroup| group_view(g));
    let ghost av = names_view(available_columns@);
    let mut resolver = SourceGroupResolver { groups: Vec::new() };
    let mut seen: Vec<String> = Vec::new();
    let mut i: usize = 0;
    assert(gv.take(0) =~= Seq::<(Seq<char>, Seq<Seq<char>>)>::empty());
    assert(resolver_view(resolver.groups@) =~= Seq::<(Seq<char>, Seq<(Seq<char>, Option<Seq<char>>)>)>::empty());
    assert(names_view(seen@) =~= Seq::<Seq<char>>::empty());
    while i < column_groups.len()
        invariant
            i <= column_groups.len(),
            gv == column_groups@.map_values(|g: ColumnGroup| group_view(g)),
            av == names_view(available_columns@),
            resolver_fit(gv, av),
            resolver_view(resolver.groups@) == resolver_state(gv.take(i as int), av).0,
            names_view(seen@) == resolver_state(gv.take(i as int), av).1,
        decreases column_groups.len() - i,
    {
        let group = &column_groups[i];
        assert(gv.take(i + 1).drop_last() =~= gv.take(i as int));
        assert(gv.take(i + 1).last() == group_view(*group));
        let alias_chars = trimmed_chars(group.alias.as_str());
        proof {
            lemma_resolver_fit_prefix(gv, av, i + 1);
            assert(gv.take(i + 1).drop_last() =~= gv.take(i as int));
            assert(gv[i as int].0 == group.alias@);
        }
        let alias = string_of(&alias_chars);
        if alias_chars.len() > 0 && is_valid_identifier_name(alias.as_str())
            && !contains_string(available_columns, &alias) && !contains_string(&seen, &alias) {
            proof {
                assert forall|j: int| 0 <= j < group.column_names@.len() implies range_fits(
                    #[trigger] group.column_names@[j]@,
                ) by {
                    assert(gv[i as int].1[j] == group.column_names@[j]@);
                }
            }
            let cols = resolve_group_columns(&group.column_names, available_columns);
            let ghost before_seen = names_view(seen@);
            seen.push(alias.clone());
            assert(names_view(seen@) =~= before_seen.push(alias@));
            if cols.len() > 0 {
                let tokens = derive_group_name_tokens(&cols);
                let ghost cv = names_view(cols@);
                let ghost tv = opt_names_view(tokens@);
                assert(tv.len() == tokens@.len());
                assert(group_name_tokens_spec(cv).len() == cv.len());
                let mut members: Vec<ResolvedSourceSelection> = Vec::new();
                let mut k: usize = 0;
                while k < cols.len()
                    invariant
                        k <= cols.len(),
                        tokens@.len() == cols.len(),
                        cv == names_view(cols@),
                        tv == opt_names_view(tokens@),
                        tv == group_name_tokens_spec(cv),
                        resolved_seq_view(members@) == with_tokens(cv).take(k as int),
                    decreases cols.len() - k,
                {
                    let item = ResolvedSourceSelection {
                        column_name: cols[k].clone(),
                        name_token: match &tokens[k] {
                            Some(t) => Some(t.clone()),
                            None => None,
                        },
                    };
                    let ghost iv = resolved_view(item);
                    assert(iv == with_tokens(cv)[k as int]);
                    let ghost before = resolved_seq_view(members@);
                    members.push(item);
                    assert(resolved_seq_view(members@) =~= before.push(iv));
                    assert(resolved_seq_view(members@) =~= with_tokens(cv).take(k + 1));
                    k += 1;
                }
                assert(with_tokens(cv).take(cols.len() as int) =~= with_tokens(cv));
                let ghost before_groups = resolver_view(resolver.groups@);
                resolver.groups.push((alias, members));
                assert(resolver_view(resolver.groups@) =~= before_groups.push((alias_chars@, with_tokens(cv))));
            }
        }
        i += 1;
    }
    assert(gv.take(column_groups.len() as int) =~= gv);
    resolver
}

/// The resolved members stored for `alias`, if the resolver has that group.
pub open spec fn lookup_group(
    groups: Seq<(Seq<char>, Seq<(Seq<char>, Option<Seq<char>>)>)>,
    alias: Seq<char>,
) -> Option<Seq<(Seq<char>, Option<Seq<char>>)>>
    decreases groups.len(),
{
    if groups.len() == 0 {
        None
    } else if lookup_group(groups.drop_last(), alias) is Some {
        lookup_group(groups.drop_last(), alias)
    } else if groups.last().0 == alias {
        Some(groups.last().1)
    } else {
        None
    }
}

/// What a source selection stands for: nothing when it is blank, the members
/// of the group it names, or else its pattern expansion.
pub open spec fn resolve_selection_spec(
    groups: Seq<(Seq<char>, Seq<(Seq<char>, Option<Seq<char>>)>)>,
    selection: Seq<char>,
) -> Seq<(Seq<char>, Option<Seq<char>>)> {
    let t = trim_spec(selection);
    if t.len() == 0 {
        Seq::empty()
    } else if lookup_group(groups, t) is Some {
        lookup_group(groups, t)->0
    } else {
        expand_pattern_spec(t)
    }
}

/// Resolving `selection` against the resolved groups reads its numbers
/// without failing: it names a group, or it has `range_fits`.
pub open spec fn selection_fits_in(
    groups: Seq<(Seq<char>, Seq<(Seq<char>, Option<Seq<char>>)>)>,
    selection: Seq<char>,
) -> bool {
    lookup_group(groups, trim_spec(selection)) is Some || range_fits(selection)
}

impl SourceGroupResolver {
    /// Whether resolving `selection` reads its numbers without failing; see
    /// `selection_fits_in`.
    pub fn selection_fits(&self, selection: &str) -> (r: bool)
        ensures
            r == selection_fits_in(resolver_view(self.groups@), selection@),
    {
        let ghost gv = resolver_view(self.groups@);
        let t = trimmed_chars(selection);
        let ts = string_of(&t);
        let mut i: usize = 0;
        assert(gv.take(0) =~= Seq::<(Seq<char>, Seq<(Seq<char>, Option<Seq<char>>)>)>::empty());
        while i < self.groups.len()
            invariant
                i <= self.groups.len(),
                gv == resolver_view(self.groups@),
                ts@ == trim_spec(selection@),
                lookup_group(gv.take(i as int), ts@) is None,
            decreases self.groups.len() - i,
        {
            assert(gv.take(i + 1).drop_last() =~= gv.take(i as int));
            assert(gv.take(i + 1).last() == (self.groups@[i as int].0@, resolved_seq_view(self.groups@[i as int].1@)));
            if self.groups[i].0 == ts {
                proof {
                    assert(lookup_group(gv.take(i + 1), ts@) is Some);
                    lemma_lookup_extends(gv, (i + 1) as int, ts@);
                }
                return true;
            }
            i += 1;
        }
        assert(gv.take(self.groups.len() as int) =~= gv);
        selection_fits(selection)
    }

    /// The columns that `selection` stands for; see `resolve_selection_spec`.
    pub fn resolve_selection(&self, selection: &str) -> (r: Vec<ResolvedSourceSelection>)
        requires
            selection_fits_in(resolver_view(self.groups@), selection@),
        ensures
            resolved_seq_view(r@) == resolve_selection_spec(resolver_view(self.groups@), selection@),
    {
        let ghost gv = resolver_view(self.groups@);
        let t = trimmed_chars(selection);
        if t.len() == 0 {
            let r: Vec<ResolvedSourceSelection> = Vec::new();
            assert(resolved_seq_view(r@) =~= Seq::<(Seq<char>, Option<Seq<char>>)>::empty());
            return r;
        }
        let ts = string_of(&t);
        let mut i: usize = 0;
        assert(gv.take(0) =~= Seq::<(Seq<char>, Seq<(Seq<char>, Option<Seq<char>>)>)>::empty());
        while i < self.groups.len()
            invariant
                i <= self.groups.len(),
                gv == resolver_view(self.groups@),
                ts@ == t@,
                t@ == trim_spec(selection@),
                t@.len() > 0,
                lookup_group(gv.take(i as int), t@) is None,
            decreases self.groups.len() - i,
        {
            assert(gv.take(i + 1).drop_last() =~= gv.take(i as int));
            assert(gv.take(i + 1).last() == (self.groups@[i as int].0@, resolved_seq_view(self.groups@[i as int].1@)));
            if self.groups[i].0 == ts {
                proof {
                    assert(lookup_group(gv.take(i + 1), t@) == Some(gv[i as int].1));
                    lemma_lookup_extends(gv, (i + 1) as int, t@);
                    assert(gv[i as int].1 == resolved_seq_view(self.groups@[i as int].1@));
                    assert(lookup_group(gv, t@) == Some(resolved_seq_view(self.groups@[i as int].1@)));
                }
                let members = clone_resolved_vec(&self.groups[i].1);
                assert(resolved_seq_view(members@) == resolve_selection_spec(gv, selection@));
                return members;
            }
            i += 1;
        }
        assert(gv.take(self.groups.len() as int) =~= gv);
        proof {
            lemma_trim_idempotent(selection@);
        }
        let ts2 = string_of(&t);
        expand_pattern_source_selection(ts2.as_str())
    }
}

proof fn lemma_lookup_extends(
    groups: Seq<(Seq<char>, Seq<(Seq<char>, Option<Seq<char>>)>)>,
    k: int,
    alias: Seq<char>,
)
    requires
        0 < k <= groups.len(),
        lookup_group(groups.take(k), alias) is Some,
    ensures
        lookup_group(groups, alias) == lookup_group(groups.take(k), alias),
    decreases groups.len() - k,
{
    if k < groups.len() {
        assert(groups.take(k + 1).drop_last() =~= groups.take(k));
        lemma_lookup_extends(groups, k + 1, alias);
    } else {
        assert(groups.take(k) =~= groups);
    }
}

} // verus!
