//! The short token that tells the members of a column group apart: what is
//! left of each column name once the prefix and suffix that all members share
//! are cut away.
use vstd::prelude::*;
use crate::names::names_view;
use crate::text::{chars_of, copy_range, string_of};

verus! {

/// The index where `a` and `b` first differ, looking from index `i` on (or the
/// length of the shorter one).
pub open spec fn shared_from(a: Seq<char>, b: Seq<char>, i: int) -> int
    decreases a.len() - i,
{
    if 0 <= i < a.len() && i < b.len() && a[i] == b[i] {
        shared_from(a, b, i + 1)
    } else {
        i
    }
}

/// How many characters, counted from the end, `a` and `b` share beyond the
/// first `k` shared ones.
pub open spec fn shared_back_from(a: Seq<char>, b: Seq<char>, k: int) -> int
    decreases a.len() - k,
{
    if 0 <= k < a.len() && k < b.len() && a[a.len() - 1 - k] == b[b.len() - 1 - k] {
        shared_back_from(a, b, k + 1)
    } else {
        k
    }
}

pub open spec fn min_int(a: int, b: int) -> int {
    if a <= b {
        a
    } else {
        b
    }
}

/// The length of the prefix that `first` shares with every entry of `rest`.
pub open spec fn prefix_len_spec(first: Seq<char>, rest: Seq<Seq<char>>) -> int
    decreases rest.len(),
{
    if rest.len() == 0 {
        first.len() as int
    } else {
        min_int(prefix_len_spec(first, rest.drop_last()), shared_from(first, rest.last(), 0))
    }
}

/// The longest prefix that all of `values` share (empty for no values).
pub open spec fn common_prefix_spec(values: Seq<Seq<char>>) -> Seq<char> {
    if values.len() == 0 {
        Seq::empty()
    } else {
        values[0].take(prefix_len_spec(values[0], values.drop_first()))
    }
}

/// The shortest length of a value once `prefix_chars` characters are taken off
/// (never below zero).
pub open spec fn room_after_prefix(values: Seq<Seq<char>>, prefix_chars: int) -> int
    decreases values.len(),
{
    if values.len() == 0 {
        0
    } else if values.len() == 1 {
        if values[0].len() >= prefix_chars { values[0].len() - prefix_chars } else { 0 }
    } else {
        let last = if values.last().len() >= prefix_chars {
            values.last().len() - prefix_chars
        } else {
            0
        };
        min_int(room_after_prefix(values.drop_last(), prefix_chars), last)
    }
}

/// The length of the suffix that `first` shares with every entry of `rest`,
/// capped at `cap`.
pub open spec fn suffix_len_spec(first: Seq<char>, rest: Seq<Seq<char>>, cap: int) -> int
    decreases rest.len(),
{
    if rest.len() == 0 {
        min_int(cap, first.len() as int)
    } else {
        min_int(
            min_int(suffix_len_spec(first, rest.drop_last(), cap), shared_back_from(first, rest.last(), 0)),
            cap,
        )
    }
}

/// The longest suffix that all of `values` share, no longer than the shortest
/// value leaves after a prefix of the length of `prefix`.
pub open spec fn common_suffix_spec(values: Seq<Seq<char>>, prefix: Seq<char>) -> Seq<char> {
    if values.len() == 0 {
        Seq::empty()
    } else {
        let first = values[0];
        let l = suffix_len_spec(first, values.drop_first(), room_after_prefix(values, prefix.len() as int));
        first.subrange(first.len() - l, first.len() as int)
    }
}

/// What is left of `value` once as many characters as `prefix` holds are cut
/// from its front and as many as `suffix` holds from its back; nothing when
/// that is empty or the cuts overlap.
pub open spec fn middle_token_spec(value: Seq<char>, prefix: Seq<char>, suffix: Seq<char>) -> Option<Seq<char>> {
    if prefix.len() + suffix.len() > value.len() {
        None
    } else {
        let m = value.subrange(prefix.len() as int, value.len() - suffix.len());
        if m.len() == 0 {
            None
        } else {
            Some(m)
        }
    }
}

fn shared_prefix_len(a: &Vec<char>, b: &Vec<char>) -> (r: usize)
    ensures
        r == shared_from(a@, b@, 0),
{
    let mut i: usize = 0;
    while i < a.len() && i < b.len() && a[i] == b[i]
        invariant
            i <= a.len(),
            shared_from(a@, b@, i as int) == shared_from(a@, b@, 0),
        decreases a.len() - i,
    {
        i += 1;
    }
    i
}

fn shared_suffix_len(a: &Vec<char>, b: &Vec<char>) -> (r: usize)
    ensures
        r == shared_back_from(a@, b@, 0),
{
    let mut k: usize = 0;
    while k < a.len() && k < b.len() && a[a.len() - 1 - k] == b[b.len() - 1 - k]
        invariant
            k <= a.len(),
            shared_back_from(a@, b@, k as int) == shared_back_from(a@, b@, 0),
        decreases a.len() - k,
    {
        k += 1;
    }
    k
}

proof fn lemma_shared_from_bound(a: Seq<char>, b: Seq<char>, i: int)
    requires
        0 <= i <= a.len(),
    ensures
        i <= shared_from(a, b, i) <= a.len(),
    decreases a.len() - i,
{
    if i < a.len() && i < b.len() && a[i] == b[i] {
        lemma_shared_from_bound(a, b, i + 1);
    }
}

proof fn lemma_prefix_len_bound(first: Seq<char>, rest: Seq<Seq<char>>)
    ensures
        0 <= prefix_len_spec(first, rest) <= first.len(),
    decreases rest.len(),
{
    if rest.len() > 0 {
        lemma_prefix_len_bound(first, rest.drop_last());
        lemma_shared_from_bound(first, rest.last(), 0);
    }
}

/// The longest prefix that all values share (empty for no values).
pub fn longest_common_prefix(values: &Vec<String>) -> (r: String)
    ensures
        r@ == common_prefix_spec(names_view(values@)),
{
    if values.len() == 0 {
        return String::new();
    }
    let ghost vs = names_view(values@);
    let first = chars_of(values[0].as_str());
    assert(first@ == vs[0]);
    let mut prefix_len = first.len();
    let mut i: usize = 1;
    assert(vs.drop_first().take(0) =~= Seq::<Seq<char>>::empty());
    while i < values.len()
        invariant
            1 <= i <= values.len(),
            vs == names_view(values@),
            first@ == vs[0],
            prefix_len == prefix_len_spec(first@, vs.drop_first().take(i - 1)),
        decreases values.len() - i,
    {
        let other = chars_of(values[i].as_str());
        assert(other@ == vs[i as int]);
        let shared = shared_prefix_len(&first, &other);
        assert(vs.drop_first().take(i as int).drop_last() =~= vs.drop_first().take(i - 1));
        if shared < prefix_len {
            prefix_len = shared;
        }
        i += 1;
    }
    assert(vs.drop_first().take(values.len() - 1) =~= vs.drop_first());
    proof {
        lemma_prefix_len_bound(first@, vs.drop_first());
    }
    let p = copy_range(&first, 0, prefix_len);
    assert(p@ =~= first@.take(prefix_len as int));
    string_of(&p)
}

proof fn lemma_room_bound(values: Seq<Seq<char>>, p: int)
    requires
        values.len() > 0,
        p >= 0,
    ensures
        0 <= room_after_prefix(values, p) <= values[0].len(),
    decreases values.len(),
{
    if values.len() > 1 {
        lemma_room_bound(values.drop_last(), p);
        assert(values.drop_last()[0] == values[0]);
    }
}

proof fn lemma_shared_back_bound(a: Seq<char>, b: Seq<char>, k: int)
    requires
        0 <= k,
    ensures
        k <= shared_back_from(a, b, k),
    decreases a.len() - k,
{
    if 0 <= k < a.len() && k < b.len() && a[a.len() - 1 - k] == b[b.len() - 1 - k] {
        lemma_shared_back_bound(a, b, k + 1);
    }
}

proof fn lemma_suffix_len_bound(first: Seq<char>, rest: Seq<Seq<char>>, cap: int)
    requires
        0 <= cap,
    ensures
        0 <= suffix_len_spec(first, rest, cap) <= cap,
        suffix_len_spec(first, rest, cap) <= first.len(),
    decreases rest.len(),
{
    if rest.len() > 0 {
        lemma_suffix_len_bound(first, rest.drop_last(), cap);
        lemma_shared_back_bound(first, rest.last(), 0);
    }
}

/// The longest suffix that all values share, no longer than what the shortest
/// value leaves after a prefix as long as `prefix` (empty for no values).
pub fn longest_common_suffix(values: &Vec<String>, prefix: &str) -> (r: String)
    ensures
        r@ == common_suffix_spec(names_view(values@), prefix@),
{
    if values.len() == 0 {
        return String::new();
    }
    let ghost vs = names_view(values@);
    let prefix_chars = chars_of(prefix).len();
    let mut max_suffix_len: usize = 0;
    let mut i: usize = 0;
    while i < values.len()
        invariant
            i <= values.len(),
            vs == names_view(values@),
            i > 0 ==> max_suffix_len == room_after_prefix(vs.take(i as int), prefix_chars as int),
        decreases values.len() - i,
    {
        let len = chars_of(values[i].as_str()).len();
        assert(vs[i as int].len() == len);
        let room = if len >= prefix_chars { len - prefix_chars } else { 0 };
        assert(vs.take(i + 1).drop_last() =~= vs.take(i as int));
        if i == 0 || room < max_suffix_len {
            max_suffix_len = room;
        }
        i += 1;
    }
    assert(vs.take(values.len() as int) =~= vs);
    let first = chars_of(values[0].as_str());
    assert(first@ == vs[0]);
    let mut suffix_len = if max_suffix_len < first.len() { max_suffix_len } else { first.len() };
    let mut j: usize = 1;
    assert(vs.drop_first().take(0) =~= Seq::<Seq<char>>::empty());
    while j < values.len()
        invariant
            1 <= j <= values.len(),
            vs == names_view(values@),
            first@ == vs[0],
            max_suffix_len == room_after_prefix(vs, prefix_chars as int),
            suffix_len == suffix_len_spec(first@, vs.drop_first().take(j - 1), max_suffix_len as int),
        decreases values.len() - j,
    {
        let other = chars_of(values[j].as_str());
        assert(other@ == vs[j as int]);
        let shared = shared_suffix_len(&first, &other);
        assert(vs.drop_first().take(j as int).drop_last() =~= vs.drop_first().take(j - 1));
        if shared < suffix_len {
            suffix_len = shared;
        }
        if max_suffix_len < suffix_len {
            suffix_len = max_suffix_len;
        }
        j += 1;
    }
    assert(vs.drop_first().take(values.len() - 1) =~= vs.drop_first());
    proof {
        lemma_suffix_len_bound(first@, vs.drop_first(), max_suffix_len as int);
    }
    let s = copy_range(&first, first.len() - suffix_len, first.len());
    string_of(&s)
}

/// The middle of `value` between a prefix as long as `prefix` and a suffix as
/// long as `suffix`; `None` when the two overlap or nothing is left.
pub fn extract_middle_token(value: &str, prefix: &str, suffix: &str) -> (r: Option<String>)
    ensures
        match r {
            None => middle_token_spec(value@, prefix@, suffix@) is None,
            Some(m) => middle_token_spec(value@, prefix@, suffix@) == Some(m@),
        },
{
    let v = chars_of(value);
    let total = v.len();
    let prefix_chars = chars_of(prefix).len();
    let suffix_chars = chars_of(suffix).len();
    if prefix_chars > total || suffix_chars > total - prefix_chars {
        return None;
    }
    let m = copy_range(&v, prefix_chars, total - suffix_chars);
    if m.len() == 0 {
        None
    } else {
        Some(string_of(&m))
    }
}

/// The view of a list of optional strings.
pub open spec fn opt_names_view(tokens: Seq<Option<String>>) -> Seq<Option<Seq<char>>> {
    tokens.map_values(|t: Option<String>| match t {
        Some(s) => Some(s@),
        None => None,
    })
}

/// Every token is present, and no two are equal.
pub open spec fn tokens_distinct(tokens: Seq<Option<Seq<char>>>) -> bool {
    &&& forall|i: int| 0 <= i < tokens.len() ==> #[trigger] tokens[i] is Some
    &&& forall|i: int, j: int| 0 <= i < j < tokens.len() ==> #[trigger] tokens[i] != #[trigger] tokens[j]
}

/// The middle tokens of the names, with the prefix and suffix the names share.
pub open spec fn middle_tokens_spec(names: Seq<Seq<char>>) -> Seq<Option<Seq<char>>> {
    let prefix = common_prefix_spec(names);
    let suffix = common_suffix_spec(names, prefix);
    names.map_values(|n: Seq<char>| middle_token_spec(n, prefix, suffix))
}

/// The name tokens of the members of a group: their middle tokens when those
/// are all present and all different, else the full names.
pub open spec fn group_name_tokens_spec(names: Seq<Seq<char>>) -> Seq<Option<Seq<char>>> {
    let tokens = middle_tokens_spec(names);
    if tokens_distinct(tokens) {
        tokens
    } else {
        names.map_values(|n: Seq<char>| Some(n))
    }
}

fn opt_string_eq(a: &Option<String>, b: &Option<String>) -> (r: bool)
    ensures
        r == (opt_names_view(seq![*a])[0] == opt_names_view(seq![*b])[0]),
{
    match (a, b) {
        (Some(x), Some(y)) => *x == *y,
        (None, None) => true,
        _ => false,
    }
}

fn all_distinct(tokens: &Vec<Option<String>>) -> (r: bool)
    ensures
        r == tokens_distinct(opt_names_view(tokens@)),
{
    let ghost tv = opt_names_view(tokens@);
    let mut i: usize = 0;
    while i < tokens.len()
        invariant
            i <= tokens.len(),
            tv == opt_names_view(tokens@),
            forall|k: int| 0 <= k < i ==> #[trigger] tv[k] is Some,
        decreases tokens.len() - i,
    {
        if tokens[i].is_none() {
            assert(tv[i as int] is None);
            return false;
        }
        i += 1;
    }
    let mut a: usize = 0;
    while a < tokens.len()
        invariant
            a <= tokens.len(),
            tv == opt_names_view(tokens@),
            forall|k: int| 0 <= k < tokens.len() ==> #[trigger] tv[k] is Some,
            forall|x: int, y: int| 0 <= x < a && x < y < tokens.len() ==> #[trigger] tv[x] != #[trigger] tv[y],
        decreases tokens.len() - a,
    {
        let mut b: usize = a + 1;
        while b < tokens.len()
            invariant
                a < tokens.len(),
                a < b <= tokens.len(),
                tv == opt_names_view(tokens@),
                forall|k: int| 0 <= k < tokens.len() ==> #[trigger] tv[k] is Some,
                forall|x: int, y: int| 0 <= x < a && x < y < tokens.len() ==> #[trigger] tv[x] != #[trigger] tv[y],
                forall|y: int| a < y < b ==> tv[a as int] != #[trigger] tv[y],
            decreases tokens.len() - b,
        {
            let same = opt_string_eq(&tokens[a], &tokens[b]);
            assert(opt_names_view(seq![tokens@[a as int]])[0] == tv[a as int]);
            assert(opt_names_view(seq![tokens@[b as int]])[0] == tv[b as int]);
            if same {
                return false;
            }
            b += 1;
        }
        a += 1;
    }
    true
}

/// The name token of each member of a group; see `group_name_tokens_spec`.
pub fn derive_group_name_tokens(column_names: &Vec<String>) -> (r: Vec<Option<String>>)
    ensures
        opt_names_view(r@) == group_name_tokens_spec(names_view(column_names@)),
{
    let ghost names = names_view(column_names@);
    if column_names.len() == 0 {
        let r: Vec<Option<String>> = Vec::new();
        assert(opt_names_view(r@) =~= group_name_tokens_spec(names));
        return r;
    }
    let prefix = longest_common_prefix(column_names);
    let suffix = longest_common_suffix(column_names, prefix.as_str());
    let ghost mids = middle_tokens_spec(names);
    let mut tokens: Vec<Option<String>> = Vec::new();
    let mut i: usize = 0;
    while i < column_names.len()
        invariant
            i <= column_names.len(),
            names == names_view(column_names@),
            prefix@ == common_prefix_spec(names),
            suffix@ == common_suffix_spec(names, prefix@),
            mids == middle_tokens_spec(names),
            opt_names_view(tokens@) == mids.take(i as int),
        decreases column_names.len() - i,
    {
        let t = extract_middle_token(column_names[i].as_str(), prefix.as_str(), suffix.as_str());
        let ghost before = opt_names_view(tokens@);
        assert(names[i as int] == column_names@[i as int]@);
        assert(mids[i as int] == middle_token_spec(names[i as int], prefix@, suffix@));
        let ghost tview = opt_names_view(seq![t])[0];
        assert(tview == mids[i as int]);
        tokens.push(t);
        assert(opt_names_view(tokens@) =~= before.push(tview));
        assert(opt_names_view(tokens@) =~= mids.take(i + 1));
        i += 1;
    }
    assert(mids.take(column_names.len() as int) =~= mids);
    if all_distinct(&tokens) {
        return tokens;
    }
    let mut full: Vec<Option<String>> = Vec::new();
    let mut k: usize = 0;
    while k < column_names.len()
        invariant
            k <= column_names.len(),
            names == names_view(column_names@),
            opt_names_view(full@) == names.map_values(|n: Seq<char>| Some(n)).take(k as int),
        decreases column_names.len() - k,
    {
        assert(names[k as int] == column_names@[k as int]@);
        let ghost before = opt_names_view(full@);
        full.push(Some(column_names[k].clone()));
        assert(opt_names_view(full@) =~= before.push(Some(names[k as int])));
        assert(opt_names_view(full@) =~= names.map_values(|n: Seq<char>| Some(n)).take(k + 1));
        k += 1;
    }
    assert(names.map_values(|n: Seq<char>| Some(n)).take(column_names.len() as int)
        =~= names.map_values(|n: Seq<char>| Some(n)));
    full
}

} // verus!
