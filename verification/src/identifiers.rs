//! Naming rules for computed columns: identifiers, aliases with `{}`
//! placeholders, and the aliases given to grouped expansions.
use vstd::prelude::*;
use crate::text::{
    chars_of, is_alnum, is_alnum_spec, is_alpha, is_alpha_spec, is_digit, is_digit_spec, squeeze,
    squeeze_chars, string_of, trim_spec, trim_underscores, trim_underscores_spec, trimmed_chars,
};

verus! {

/// A character allowed inside an identifier: an ASCII letter or digit, or `_`.
pub open spec fn is_ident_char(c: char) -> bool {
    is_alnum_spec(c) || c == '_'
}

/// `s` is a valid identifier: it starts with an ASCII letter or `_` and holds
/// only ASCII letters, digits and `_`.
pub open spec fn is_identifier(s: Seq<char>) -> bool {
    &&& s.len() > 0
    &&& (is_alpha_spec(s[0]) || s[0] == '_')
    &&& forall|i: int| 0 <= i < s.len() ==> #[trigger] is_ident_char(s[i])
}

/// A character as it stands in a sanitized identifier.
pub open spec fn ident_map(c: char) -> char {
    if is_ident_char(c) {
        c
    } else {
        '_'
    }
}

/// `s` with each character mapped by `ident_map`.
pub open spec fn ident_mapped(s: Seq<char>) -> Seq<char> {
    s.map_values(|c: char| ident_map(c))
}

/// Prefixes an underscore where `s` would start with a digit.
pub open spec fn guard_leading_digit(s: Seq<char>) -> Seq<char> {
    if s.len() > 0 && is_digit_spec(s[0]) {
        seq!['_'] + s
    } else {
        s
    }
}

/// The identifier made from `name`: trimmed, every character that is not an
/// identifier character replaced by `_`, runs of `_` squeezed to one, and an
/// `_` put in front of a leading digit.
pub open spec fn sanitize_identifier_spec(name: Seq<char>) -> Seq<char> {
    guard_leading_digit(squeeze(ident_mapped(trim_spec(name)), false))
}

/// The identifier fragment made from `name`: every character that is not an
/// identifier character replaced by `_`, runs of `_` squeezed, and leading and
/// trailing `_` removed.
pub open spec fn sanitize_fragment_spec(name: Seq<char>) -> Seq<char> {
    trim_underscores_spec(squeeze(ident_mapped(name), false))
}

/// `s` holds the placeholder `{}` starting at index `i`.
pub open spec fn placeholder_at(s: Seq<char>, i: int) -> bool {
    0 <= i && i + 1 < s.len() && s[i] == '{' && s[i + 1] == '}'
}

/// `s` holds the placeholder `{}` somewhere.
pub open spec fn has_placeholder(s: Seq<char>) -> bool {
    exists|i: int| placeholder_at(s, i)
}

/// `s` with every `{}`, taken from left to right, replaced by `r`.
pub open spec fn replace_placeholder_spec(s: Seq<char>, r: Seq<char>) -> Seq<char>
    decreases s.len(),
{
    if s.len() == 0 {
        Seq::empty()
    } else if placeholder_at(s, 0) {
        r + replace_placeholder_spec(s.subrange(2, s.len() as int), r)
    } else {
        seq![s[0]] + replace_placeholder_spec(s.drop_first(), r)
    }
}

/// An alias sanitized as an identifier, except that each `{}` placeholder is
/// kept and ends a run of underscores.
pub open spec fn alias_squeeze(s: Seq<char>, prev: bool) -> Seq<char>
    decreases s.len(),
{
    if s.len() == 0 {
        Seq::empty()
    } else if placeholder_at(s, 0) {
        seq!['{', '}'] + alias_squeeze(s.subrange(2, s.len() as int), false)
    } else if ident_map(s[0]) == '_' {
        if prev {
            alias_squeeze(s.drop_first(), true)
        } else {
            seq!['_'] + alias_squeeze(s.drop_first(), true)
        }
    } else {
        seq![s[0]] + alias_squeeze(s.drop_first(), false)
    }
}

/// The computed-column alias made from `alias`.
pub open spec fn sanitize_alias_spec(alias: Seq<char>) -> Seq<char> {
    guard_leading_digit(alias_squeeze(trim_spec(alias), false))
}

/// `alias` is acceptable for a computed column: nonempty after trimming, and an
/// identifier either as it stands or with each `{}` read as a word.
pub open spec fn is_valid_alias_spec(alias: Seq<char>) -> bool {
    let t = trim_spec(alias);
    t.len() > 0 && (is_identifier(t) || is_identifier(
        replace_placeholder_spec(t, "GroupToken"@),
    ))
}

fn is_ident_char_exec(c: char) -> (r: bool)
    ensures
        r == is_ident_char(c),
{
    is_alnum(c) || c == '_'
}

fn ident_map_chars(v: &Vec<char>) -> (r: Vec<char>)
    ensures
        r@ == ident_mapped(v@),
{
    let mut r: Vec<char> = Vec::new();
    let mut i: usize = 0;
    while i < v.len()
        invariant
            i <= v.len(),
            r@ == ident_mapped(v@.take(i as int)),
        decreases v.len() - i,
    {
        let c = v[i];
        if is_ident_char_exec(c) {
            r.push(c);
        } else {
            r.push('_');
        }
        i += 1;
        assert(r@ =~= ident_mapped(v@.take(i as int)));
    }
    assert(v@.take(v.len() as int) =~= v@);
    r
}

fn guard_leading_digit_exec(v: Vec<char>) -> (r: Vec<char>)
    ensures
        r@ == guard_leading_digit(v@),
{
    if v.len() > 0 && is_digit(v[0]) {
        let mut r: Vec<char> = Vec::new();
        r.push('_');
        let mut i: usize = 0;
        while i < v.len()
            invariant
                i <= v.len(),
                r@ == seq!['_'] + v@.take(i as int),
            decreases v.len() - i,
        {
            r.push(v[i]);
            i += 1;
            assert(r@ =~= seq!['_'] + v@.take(i as int));
        }
        assert(v@.take(v.len() as int) =~= v@);
        r
    } else {
        v
    }
}

fn is_identifier_chars(v: &Vec<char>) -> (r: bool)
    ensures
        r == is_identifier(v@),
{
    if v.len() == 0 {
        return false;
    }
    if !(is_alpha(v[0]) || v[0] == '_') {
        return false;
    }
    let mut i: usize = 1;
    while i < v.len()
        invariant
            1 <= i <= v.len(),
            is_ident_char(v@[0]),
            forall|k: int| 0 <= k < i ==> #[trigger] is_ident_char(v@[k]),
        decreases v.len() - i,
    {
        if !is_ident_char_exec(v[i]) {
            return false;
        }
        i += 1;
    }
    true
}

/// Whether `name` is a valid identifier (ASCII letter or `_` first, then ASCII
/// letters, digits and `_`).
pub fn is_valid_identifier_name(name: &str) -> (r: bool)
    ensures
        r == is_identifier(name@),
{
    let v = chars_of(name);
    is_identifier_chars(&v)
}

/// Turns `name` into an identifier; see `sanitize_identifier_spec`.
pub fn sanitize_identifier_name(name: &str) -> (r: String)
    ensures
        r@ == sanitize_identifier_spec(name@),
{
    let trimmed = trimmed_chars(name);
    let mapped = ident_map_chars(&trimmed);
    let squeezed = squeeze_chars(&mapped);
    let guarded = guard_leading_digit_exec(squeezed);
    string_of(&guarded)
}

fn sanitize_fragment_chars(v: &Vec<char>) -> (r: Vec<char>)
    ensures
        r@ == sanitize_fragment_spec(v@),
{
    let mapped = ident_map_chars(v);
    let squeezed = squeeze_chars(&mapped);
    trim_underscores(&squeezed)
}

/// Turns `name` into an identifier fragment; see `sanitize_fragment_spec`.
pub fn sanitize_identifier_fragment(name: &str) -> (r: String)
    ensures
        r@ == sanitize_fragment_spec(name@),
{
    let v = chars_of(name);
    let r = sanitize_fragment_chars(&v);
    string_of(&r)
}

fn has_placeholder_at_exec(v: &Vec<char>, i: usize) -> (r: bool)
    ensures
        r == placeholder_at(v@, i as int),
{
    i < v.len() && v.len() - i >= 2 && v[i] == '{' && v[i + 1] == '}'
}

/// Whether `v` holds the placeholder `{}`.
pub fn contains_placeholder(v: &Vec<char>) -> (r: bool)
    ensures
        r == has_placeholder(v@),
{
    let mut i: usize = 0;
    while i < v.len()
        invariant
            i <= v.len(),
            forall|k: int| 0 <= k < i ==> !#[trigger] placeholder_at(v@, k),
        decreases v.len() - i,
    {
        if has_placeholder_at_exec(v, i) {
            return true;
        }
        i += 1;
    }
    assert forall|k: int| !#[trigger] placeholder_at(v@, k) by {
        if 0 <= k < v.len() {
        }
    }
    false
}

/// `v` with every `{}` replaced by `r`.
pub fn replace_placeholder(v: &Vec<char>, r: &Vec<char>) -> (out: Vec<char>)
    ensures
        out@ == replace_placeholder_spec(v@, r@),
{
    let n = v.len();
    let mut out: Vec<char> = Vec::new();
    let mut i: usize = 0;
    assert(v@.subrange(0, n as int) =~= v@);
    assert(out@ + replace_placeholder_spec(v@, r@) =~= replace_placeholder_spec(v@, r@));
    while i < n
        invariant
            i <= n == v.len(),
            out@ + replace_placeholder_spec(v@.subrange(i as int, n as int), r@)
                == replace_placeholder_spec(v@, r@),
        decreases n - i,
    {
        let ghost s_i = v@.subrange(i as int, n as int);
        let ghost old_out = out@;
        if has_placeholder_at_exec(v, i) {
            assert(placeholder_at(s_i, 0));
            assert(s_i.subrange(2, s_i.len() as int) =~= v@.subrange(i + 2, n as int));
            let mut k: usize = 0;
            while k < r.len()
                invariant
                    k <= r.len(),
                    out@ == old_out + r@.take(k as int),
                decreases r.len() - k,
            {
                out.push(r[k]);
                k += 1;
                assert(out@ =~= old_out + r@.take(k as int));
            }
            assert(r@.take(r.len() as int) =~= r@);
            let ghost rest = replace_placeholder_spec(v@.subrange(i + 2, n as int), r@);
            assert(old_out + (r@ + rest) =~= out@ + rest);
            i += 2;
        } else {
            assert(!placeholder_at(s_i, 0));
            assert(s_i.drop_first() =~= v@.subrange(i + 1, n as int));
            let ghost rest = replace_placeholder_spec(v@.subrange(i + 1, n as int), r@);
            out.push(v[i]);
            assert(old_out + (seq![v@[i as int]] + rest) =~= out@ + rest);
            i += 1;
        }
    }
    assert(v@.subrange(n as int, n as int) =~= Seq::<char>::empty());
    assert(out@ + Seq::<char>::empty() =~= out@);
    out
}

fn alias_squeeze_chars(v: &Vec<char>) -> (out: Vec<char>)
    ensures
        out@ == alias_squeeze(v@, false),
{
    let n = v.len();
    let mut out: Vec<char> = Vec::new();
    let mut prev = false;
    let mut i: usize = 0;
    assert(v@.subrange(0, n as int) =~= v@);
    assert(out@ + alias_squeeze(v@, false) =~= alias_squeeze(v@, false));
    while i < n
        invariant
            i <= n == v.len(),
            out@ + alias_squeeze(v@.subrange(i as int, n as int), prev) == alias_squeeze(v@, false),
        decreases n - i,
    {
        let ghost s_i = v@.subrange(i as int, n as int);
        let ghost old_out = out@;
        if has_placeholder_at_exec(v, i) {
            assert(placeholder_at(s_i, 0));
            assert(s_i.subrange(2, s_i.len() as int) =~= v@.subrange(i + 2, n as int));
            let ghost rest = alias_squeeze(v@.subrange(i + 2, n as int), false);
            out.push('{');
            out.push('}');
            assert(old_out + (seq!['{', '}'] + rest) =~= out@ + rest);
            prev = false;
            i += 2;
        } else {
            let c = v[i];
            assert(!placeholder_at(s_i, 0));
            assert(s_i[0] == c);
            assert(s_i.drop_first() =~= v@.subrange(i + 1, n as int));
            if !is_ident_char_exec(c) || c == '_' {
                let ghost rest = alias_squeeze(v@.subrange(i + 1, n as int), true);
                if !prev {
                    out.push('_');
                    assert(old_out + (seq!['_'] + rest) =~= out@ + rest);
                }
                prev = true;
            } else {
                let ghost rest = alias_squeeze(v@.subrange(i + 1, n as int), false);
                out.push(c);
                assert(old_out + (seq![c] + rest) =~= out@ + rest);
                prev = false;
            }
            i += 1;
        }
    }
    assert(v@.subrange(n as int, n as int) =~= Seq::<char>::empty());
    assert(out@ + Seq::<char>::empty() =~= out@);
    out
}

/// Turns `alias` into a computed-column alias; see `sanitize_alias_spec`.
pub fn sanitize_computed_column_alias(alias: &str) -> (r: String)
    ensures
        r@ == sanitize_alias_spec(alias@),
{
    let trimmed = trimmed_chars(alias);
    let squeezed = alias_squeeze_chars(&trimmed);
    let guarded = guard_leading_digit_exec(squeezed);
    string_of(&guarded)
}

/// Whether `alias` may name a computed column; see `is_valid_alias_spec`.
pub fn is_valid_computed_column_alias(alias: &str) -> (r: bool)
    ensures
        r == is_valid_alias_spec(alias@),
{
    let trimmed = trimmed_chars(alias);
    if trimmed.len() == 0 {
        return false;
    }
    if is_identifier_chars(&trimmed) {
        return true;
    }
    let word = chars_of("GroupToken");
    let replaced = replace_placeholder(&trimmed, &word);
    is_identifier_chars(&replaced)
}

/// The parts of `parts` that are not empty, in order.
pub open spec fn nonempty_parts(parts: Seq<Seq<char>>) -> Seq<Seq<char>>
    decreases parts.len(),
{
    if parts.len() == 0 {
        Seq::empty()
    } else if parts.last().len() == 0 {
        nonempty_parts(parts.drop_last())
    } else {
        nonempty_parts(parts.drop_last()).push(parts.last())
    }
}

/// The parts joined with `sep` between neighbours.
pub open spec fn join_spec(parts: Seq<Seq<char>>, sep: Seq<char>) -> Seq<char>
    decreases parts.len(),
{
    if parts.len() == 0 {
        Seq::empty()
    } else if parts.len() == 1 {
        parts[0]
    } else {
        join_spec(parts.drop_last(), sep) + sep + parts.last()
    }
}

/// The token that names one grouped expansion: the sanitized fragments of the
/// column names, empty ones left out, joined with `_`.
pub open spec fn expansion_token(names: Seq<Seq<char>>) -> Seq<char> {
    join_spec(nonempty_parts(names.map_values(|n: Seq<char>| sanitize_fragment_spec(n))), seq!['_'])
}

/// The alias of one grouped expansion of a computed column.
pub open spec fn expanded_alias_spec(
    alias: Seq<char>,
    names: Seq<Seq<char>>,
    expansion_count: nat,
) -> Seq<char> {
    let t = trim_spec(alias);
    let token = expansion_token(names);
    let expanded = if has_placeholder(t) {
        replace_placeholder_spec(t, token)
    } else if expansion_count > 1 && token.len() > 0 {
        t + seq!['_'] + token
    } else {
        t
    };
    sanitize_identifier_spec(expanded)
}

fn append_chars(out: &mut Vec<char>, v: &Vec<char>)
    ensures
        final(out)@ == old(out)@ + v@,
{
    let ghost start = out@;
    let mut i: usize = 0;
    while i < v.len()
        invariant
            i <= v.len(),
            out@ == start + v@.take(i as int),
        decreases v.len() - i,
    {
        out.push(v[i]);
        i += 1;
        assert(out@ =~= start + v@.take(i as int));
    }
    assert(v@.take(v.len() as int) =~= v@);
}

/// The alias given to one expansion of a grouped computed column: `{}` in the
/// alias is replaced by the expansion token, or, when there are several
/// expansions and no placeholder, the token is appended after `_`; the result
/// is sanitized as an identifier.
pub fn expanded_computed_column_alias(
    alias: &str,
    grouped_column_names: &Vec<String>,
    expansion_count: usize,
) -> (r: String)
    ensures
        r@ == expanded_alias_spec(alias@, grouped_column_names.deep_view(), expansion_count as nat),
{
    let ghost names = grouped_column_names.deep_view();
    let ghost frags = names.map_values(|n: Seq<char>| sanitize_fragment_spec(n));
    let mut token: Vec<char> = Vec::new();
    let mut count: usize = 0;
    let ghost mut kept: Seq<Seq<char>> = Seq::empty();
    let mut i: usize = 0;
    while i < grouped_column_names.len()
        invariant
            i <= grouped_column_names.len(),
            names == grouped_column_names.deep_view(),
            frags == names.map_values(|n: Seq<char>| sanitize_fragment_spec(n)),
            kept == nonempty_parts(frags.take(i as int)),
            token@ == join_spec(kept, seq!['_']),
            count == kept.len(),
            count <= i,
        decreases grouped_column_names.len() - i,
    {
        assert(frags.take(i + 1).drop_last() =~= frags.take(i as int));
        let name_chars = chars_of(grouped_column_names[i].as_str());
        assert(name_chars@ == names[i as int]);
        let fragment = sanitize_fragment_chars(&name_chars);
        if fragment.len() > 0 {
            if count > 0 {
                token.push('_');
            }
            let ghost before = token@;
            append_chars(&mut token, &fragment);
            proof {
                if count > 0 {
                    assert(token@ =~= join_spec(kept, seq!['_']) + seq!['_'] + fragment@);
                } else {
                    assert(kept.len() == 0);
                    assert(token@ =~= fragment@);
                }
                kept = kept.push(fragment@);
                assert(kept.drop_last() =~= nonempty_parts(frags.take(i as int)));
            }
            count = count + 1;
        }
        i += 1;
    }
    assert(frags.take(grouped_column_names.len() as int) =~= frags);
    assert(token@ == expansion_token(names));
    let trimmed = trimmed_chars(alias);
    let ghost t = trimmed@;
    let expanded = if contains_placeholder(&trimmed) {
        replace_placeholder(&trimmed, &token)
    } else if expansion_count > 1 && token.len() > 0 {
        let mut e = trimmed;
        e.push('_');
        append_chars(&mut e, &token);
        assert(e@ =~= t + seq!['_'] + token@);
        e
    } else {
        trimmed
    };
    let expanded_str = string_of(&expanded);
    assert(expanded@ == (if has_placeholder(t) {
        replace_placeholder_spec(t, token@)
    } else if expansion_count > 1 && token@.len() > 0 {
        t + seq!['_'] + token@
    } else {
        t
    }));
    sanitize_identifier_name(expanded_str.as_str())
}

/// The one-line summary of a computed-column expression.
pub open spec fn summarize_spec(expression: Seq<char>) -> Seq<char> {
    let t = trim_spec(expression);
    if t.len() == 0 {
        "Incomplete expression"@
    } else if t.len() <= 84 {
        t
    } else {
        t.take(83).push('\u{2026}')
    }
}

/// Summarizes an expression for a table row: the trimmed expression, cut to 83
/// characters and an ellipsis when it is longer than 84 characters.
pub fn summarize_column_expression_line(expression: &str) -> (r: String)
    ensures
        r@ == summarize_spec(expression@),
{
    let trimmed = trimmed_chars(expression);
    if trimmed.len() == 0 {
        return String::from_str("Incomplete expression");
    }
    if trimmed.len() <= 84 {
        return string_of(&trimmed);
    }
    let mut summary: Vec<char> = Vec::new();
    let mut i: usize = 0;
    while i < 83
        invariant
            i <= 83 < trimmed.len(),
            summary@ == trimmed@.take(i as int),
        decreases 83 - i,
    {
        summary.push(trimmed[i]);
        i += 1;
        assert(summary@ =~= trimmed@.take(i as int));
    }
    summary.push('\u{2026}');
    string_of(&summary)
}

/// No two neighbouring characters of `s` are both `_`.
pub open spec fn no_double_underscore(s: Seq<char>) -> bool {
    forall|i: int| 0 <= i < s.len() - 1 ==> !(#[trigger] s[i] == '_' && s[i + 1] == '_')
}

proof fn lemma_squeeze_shape(s: Seq<char>, prev: bool)
    requires
        forall|i: int| 0 <= i < s.len() ==> #[trigger] is_ident_char(s[i]),
    ensures
        forall|i: int|
            0 <= i < squeeze(s, prev).len() ==> #[trigger] is_ident_char(squeeze(s, prev)[i]),
        no_double_underscore(squeeze(s, prev)),
        prev && squeeze(s, prev).len() > 0 ==> squeeze(s, prev)[0] != '_',
    decreases s.len(),
{
    if s.len() > 0 {
        let rest = s.drop_first();
        assert forall|i: int| 0 <= i < rest.len() implies #[trigger] is_ident_char(rest[i]) by {
            assert(rest[i] == s[i + 1]);
        }
        lemma_squeeze_shape(rest, true);
        lemma_squeeze_shape(rest, false);
        assert(is_ident_char(s[0]));
    }
}

proof fn lemma_squeeze_identity(s: Seq<char>, prev: bool)
    requires
        no_double_underscore(s),
        prev ==> s.len() == 0 || s[0] != '_',
    ensures
        squeeze(s, prev) == s,
    decreases s.len(),
{
    if s.len() > 0 {
        let rest = s.drop_first();
        assert forall|i: int| 0 <= i < rest.len() - 1 implies !(#[trigger] rest[i] == '_' && rest[i + 1] == '_') by {
            assert(rest[i] == s[i + 1] && rest[i + 1] == s[i + 2]);
        }
        if rest.len() > 0 {
            assert(rest[0] == s[1]);
        }
        lemma_squeeze_identity(rest, s[0] == '_');
        assert(seq![s[0]] + rest =~= s);
    }
}

proof fn lemma_trim_of_solid(s: Seq<char>)
    requires
        forall|i: int| 0 <= i < s.len() ==> #[trigger] is_ident_char(s[i]),
    ensures
        trim_spec(s) == s,
{
    let p = |c: char| crate::text::is_white_space_spec(c);
    if s.len() > 0 {
        assert(is_ident_char(s[0]));
        assert(is_ident_char(s[s.len() - 1]));
    }
    assert(crate::text::skip_from(s, p, 0) == 0);
    assert(crate::text::skip_back(s, p, 0, s.len() as int) == s.len());
    assert(s.subrange(0, s.len() as int) =~= s);
}

proof fn lemma_ident_mapped_shape(s: Seq<char>)
    ensures
        forall|i: int| 0 <= i < ident_mapped(s).len() ==> #[trigger] is_ident_char(ident_mapped(s)[i]),
        (forall|i: int| 0 <= i < s.len() ==> #[trigger] is_ident_char(s[i])) ==> ident_mapped(s) == s,
{
    if forall|i: int| 0 <= i < s.len() ==> #[trigger] is_ident_char(s[i]) {
        assert(ident_mapped(s) =~= s);
    }
}

/// Sanitizing yields either the empty string or a valid identifier, and
/// sanitizing a sanitized name changes nothing.
pub proof fn lemma_sanitized_identifier_is_valid_and_stable(name: Seq<char>)
    ensures
        sanitize_identifier_spec(name).len() == 0 || is_identifier(sanitize_identifier_spec(name)),
        sanitize_identifier_spec(sanitize_identifier_spec(name)) == sanitize_identifier_spec(name),
{
    let mapped = ident_mapped(trim_spec(name));
    lemma_ident_mapped_shape(trim_spec(name));
    let core = squeeze(mapped, false);
    lemma_squeeze_shape(mapped, false);
    let r = sanitize_identifier_spec(name);
    if core.len() > 0 && is_digit_spec(core[0]) {
        assert(r == seq!['_'] + core);
        assert forall|i: int| 0 <= i < r.len() implies #[trigger] is_ident_char(r[i]) by {
            if i > 0 {
                assert(r[i] == core[i - 1]);
            }
        }
        assert forall|i: int| 0 <= i < r.len() - 1 implies !(#[trigger] r[i] == '_' && r[i + 1] == '_') by {
            if i > 0 {
                assert(r[i] == core[i - 1] && r[i + 1] == core[i]);
            } else {
                assert(r[1] == core[0]);
            }
        }
    } else {
        assert(r == core);
    }
    lemma_trim_of_solid(r);
    lemma_ident_mapped_shape(r);
    lemma_squeeze_identity(r, false);
}

/// A character that an alias keeps: an identifier character or a brace.
pub open spec fn alias_char(c: char) -> bool {
    is_ident_char(c) || c == '{' || c == '}'
}

proof fn lemma_alias_squeeze_chars(s: Seq<char>, prev: bool)
    ensures
        forall|i: int| 0 <= i < alias_squeeze(s, prev).len() ==> #[trigger] alias_char(alias_squeeze(s, prev)[i]),
        forall|i: int|
            0 <= i < replace_placeholder_spec(alias_squeeze(s, prev), "GroupToken"@).len() ==> #[trigger] is_ident_char(
                replace_placeholder_spec(alias_squeeze(s, prev), "GroupToken"@)[i],
            ),
        !prev && s.len() > 0 ==> alias_squeeze(s, prev).len() > 0,
    decreases s.len(),
{
    reveal_strlit("GroupToken");
    let g = "GroupToken"@;
    if s.len() == 0 {
        assert(alias_squeeze(s, prev) == Seq::<char>::empty());
        assert(replace_placeholder_spec(Seq::<char>::empty(), g) == Seq::<char>::empty());
    } else {
        let q = alias_squeeze(s, prev);
        if placeholder_at(s, 0) {
            let tail = s.subrange(2, s.len() as int);
            lemma_alias_squeeze_chars(tail, false);
            let q2 = alias_squeeze(tail, false);
            assert(q == seq!['{', '}'] + q2);
            assert forall|i: int| 0 <= i < q.len() implies #[trigger] alias_char(q[i]) by {
                if i >= 2 {
                    assert(q[i] == q2[i - 2]);
                }
            }
            assert(placeholder_at(q, 0));
            assert(q.subrange(2, q.len() as int) =~= q2);
            let rq = replace_placeholder_spec(q, g);
            assert(rq == g + replace_placeholder_spec(q2, g));
            assert forall|i: int| 0 <= i < rq.len() implies #[trigger] is_ident_char(rq[i]) by {
                if i >= g.len() {
                    assert(rq[i] == replace_placeholder_spec(q2, g)[i - g.len()]);
                }
            }
        } else {
            let rest = s.drop_first();
            lemma_alias_squeeze_chars(rest, true);
            lemma_alias_squeeze_chars(rest, false);
            if ident_map(s[0]) == '_' && prev {
                assert(q == alias_squeeze(rest, true));
            } else {
                let c = ident_map(s[0]);
                let q2 = if c == '_' { alias_squeeze(rest, true) } else { alias_squeeze(rest, false) };
                assert(q == seq![c] + q2);
                assert(is_ident_char(c));
                assert forall|i: int| 0 <= i < q.len() implies #[trigger] alias_char(q[i]) by {
                    if i >= 1 {
                        assert(q[i] == q2[i - 1]);
                    }
                }
                assert(!placeholder_at(q, 0));
                assert(q.drop_first() =~= q2);
                let rq = replace_placeholder_spec(q, g);
                assert(rq == seq![c] + replace_placeholder_spec(q2, g));
                assert forall|i: int| 0 <= i < rq.len() implies #[trigger] is_ident_char(rq[i]) by {
                    if i >= 1 {
                        assert(rq[i] == replace_placeholder_spec(q2, g)[i - 1]);
                    }
                }
            }
        }
    }
}

proof fn lemma_alias_squeeze_stable(s: Seq<char>, prev: bool)
    ensures
        alias_squeeze(alias_squeeze(s, prev), prev) == alias_squeeze(s, prev),
    decreases s.len(),
{
    if s.len() > 0 {
        let q = alias_squeeze(s, prev);
        if placeholder_at(s, 0) {
            let tail = s.subrange(2, s.len() as int);
            lemma_alias_squeeze_stable(tail, false);
            let q2 = alias_squeeze(tail, false);
            assert(q == seq!['{', '}'] + q2);
            assert(placeholder_at(q, 0));
            assert(q.subrange(2, q.len() as int) =~= q2);
        } else {
            let rest = s.drop_first();
            lemma_alias_squeeze_stable(rest, true);
            lemma_alias_squeeze_stable(rest, false);
            if ident_map(s[0]) == '_' && prev {
            } else {
                let c = ident_map(s[0]);
                let q2 = if c == '_' { alias_squeeze(rest, true) } else { alias_squeeze(rest, false) };
                assert(q == seq![c] + q2);
                assert(!placeholder_at(q, 0));
                assert(q.drop_first() =~= q2);
                assert(ident_map(c) == c);
            }
        }
    }
}

/// A sanitized computed-column alias is empty exactly when the alias is blank;
/// otherwise it is a valid alias; and sanitizing it again changes nothing.
pub proof fn lemma_sanitized_alias_is_valid_and_stable(alias: Seq<char>)
    ensures
        (sanitize_alias_spec(alias).len() == 0) == (trim_spec(alias).len() == 0),
        sanitize_alias_spec(alias).len() > 0 ==> is_valid_alias_spec(sanitize_alias_spec(alias)),
        sanitize_alias_spec(sanitize_alias_spec(alias)) == sanitize_alias_spec(alias),
{
    reveal_strlit("GroupToken");
    let g = "GroupToken"@;
    let t = trim_spec(alias);
    let q = alias_squeeze(t, false);
    lemma_alias_squeeze_chars(t, false);
    lemma_alias_squeeze_stable(t, false);
    let r = sanitize_alias_spec(alias);
    let guarded = q.len() > 0 && is_digit_spec(q[0]);
    // The characters of `r`, and of `r` with its placeholders read as words.
    assert forall|i: int| 0 <= i < r.len() implies #[trigger] alias_char(r[i]) by {
        if guarded && i > 0 {
            assert(r[i] == q[i - 1]);
        }
    }
    let rq = replace_placeholder_spec(r, g);
    if guarded {
        assert(r == seq!['_'] + q);
        assert(!placeholder_at(r, 0));
        assert(r.drop_first() =~= q);
        assert(rq == seq!['_'] + replace_placeholder_spec(q, g));
        assert forall|i: int| 0 <= i < rq.len() implies #[trigger] is_ident_char(rq[i]) by {
            if i > 0 {
                assert(rq[i] == replace_placeholder_spec(q, g)[i - 1]);
            }
        }
    }
    // `r` holds no white space, so trimming leaves it as it is.
    let p = |c: char| crate::text::is_white_space_spec(c);
    if r.len() > 0 {
        assert(alias_char(r[0]));
        assert(alias_char(r[r.len() - 1]));
    }
    assert(crate::text::skip_from(r, p, 0) == 0);
    assert(crate::text::skip_back(r, p, 0, r.len() as int) == r.len());
    assert(r.subrange(0, r.len() as int) =~= r);
    assert(trim_spec(r) == r);
    if r.len() > 0 {
        // The first character of `rq`: a placeholder reads as `G`, a guarded
        // digit follows `_`, and otherwise `r` starts with a letter or `_`.
        if placeholder_at(r, 0) {
            assert(r.subrange(2, r.len() as int).len() == r.len() - 2);
            assert(rq == g + replace_placeholder_spec(r.subrange(2, r.len() as int), g));
            assert(rq[0] == 'G');
        } else {
            assert(rq == seq![r[0]] + replace_placeholder_spec(r.drop_first(), g));
            assert(r[0] != '{');
            if r[0] == '}' {
                assert(!guarded);
                assert(r == q);
            }
        }
        assert(is_identifier(rq));
    }
    // Sanitizing again.
    if guarded {
        let q0 = q[0];
        assert(!placeholder_at(q, 0));
        assert(alias_squeeze(q, true) == seq![q0] + alias_squeeze(q.drop_first(), false));
        assert(alias_squeeze(q, false) == seq![q0] + alias_squeeze(q.drop_first(), false));
        assert(alias_squeeze(r, false) == seq!['_'] + alias_squeeze(q, true));
        assert(alias_squeeze(r, false) == r);
    } else {
        assert(r == q);
    }
}

} // verus!
