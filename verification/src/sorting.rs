//! The order of strings (by code point, as `str`'s order gives it, since UTF-8
//! keeps the order of code points) and sorting lists of names by it.
use vstd::prelude::*;
use vstd::relations::{sorted_by, total_ordering};
use crate::names::names_view;
use crate::text::chars_of;

verus! {

broadcast use vstd::multiset::group_multiset_axioms, vstd::seq_lib::group_to_multiset_ensures;

/// `a` comes before `b` or equals it, comparing code points from the left; a
/// proper prefix comes first.
pub open spec fn lex_le(a: Seq<char>, b: Seq<char>) -> bool
    decreases a.len(),
{
    if a.len() == 0 {
        true
    } else if b.len() == 0 {
        false
    } else if a[0] < b[0] {
        true
    } else if a[0] == b[0] {
        lex_le(a.drop_first(), b.drop_first())
    } else {
        false
    }
}

/// The order as a relation.
pub open spec fn lex_order() -> spec_fn(Seq<char>, Seq<char>) -> bool {
    |a: Seq<char>, b: Seq<char>| lex_le(a, b)
}

/// `names` sorted by the order of strings.
pub open spec fn sorted_names(names: Seq<Seq<char>>) -> Seq<Seq<char>> {
    names.sort_by(lex_order())
}

proof fn lemma_lex_reflexive(a: Seq<char>)
    ensures
        lex_le(a, a),
    decreases a.len(),
{
    if a.len() > 0 {
        lemma_lex_reflexive(a.drop_first());
    }
}

proof fn lemma_lex_antisymmetric(a: Seq<char>, b: Seq<char>)
    requires
        lex_le(a, b),
        lex_le(b, a),
    ensures
        a == b,
    decreases a.len(),
{
    if a.len() == 0 {
        assert(b.len() == 0 || !lex_le(b, a));
        assert(a =~= b);
    } else {
        assert(b.len() > 0);
        assert(a[0] == b[0]);
        lemma_lex_antisymmetric(a.drop_first(), b.drop_first());
        assert(a =~= seq![a[0]] + a.drop_first());
        assert(b =~= seq![b[0]] + b.drop_first());
    }
}

proof fn lemma_lex_transitive(a: Seq<char>, b: Seq<char>, c: Seq<char>)
    requires
        lex_le(a, b),
        lex_le(b, c),
    ensures
        lex_le(a, c),
    decreases a.len(),
{
    if a.len() > 0 && b.len() > 0 && c.len() > 0 && a[0] == b[0] && b[0] == c[0] {
        lemma_lex_transitive(a.drop_first(), b.drop_first(), c.drop_first());
    }
}

proof fn lemma_lex_total(a: Seq<char>, b: Seq<char>)
    ensures
        lex_le(a, b) || lex_le(b, a),
    decreases a.len(),
{
    if a.len() > 0 && b.len() > 0 && a[0] == b[0] {
        lemma_lex_total(a.drop_first(), b.drop_first());
    }
}

/// The order of strings is a total order.
pub proof fn lemma_lex_total_ordering()
    ensures
        total_ordering(lex_order()),
{
    let r = lex_order();
    assert forall|a: Seq<char>| #[trigger] r(a, a) by {
        lemma_lex_reflexive(a);
    }
    assert forall|a: Seq<char>, b: Seq<char>| #[trigger] r(a, b) && #[trigger] r(b, a) implies a == b by {
        lemma_lex_antisymmetric(a, b);
    }
    assert forall|a: Seq<char>, b: Seq<char>, c: Seq<char>| #[trigger] r(a, b) && #[trigger] r(b, c) implies r(a, c) by {
        lemma_lex_transitive(a, b, c);
    }
    assert forall|a: Seq<char>, b: Seq<char>| #[trigger] r(a, b) || #[trigger] r(b, a) by {
        lemma_lex_total(a, b);
    }
}

/// Any sorted rearrangement of `names` is `sorted_names(names)`.
pub proof fn lemma_sorted_names_unique(names: Seq<Seq<char>>, s: Seq<Seq<char>>)
    requires
        sorted_by(s, lex_order()),
        s.to_multiset() == names.to_multiset(),
    ensures
        s == sorted_names(names),
{
    lemma_lex_total_ordering();
    names.lemma_sort_by_ensures(lex_order());
    vstd::seq_lib::lemma_sorted_unique(s, sorted_names(names), lex_order());
}

/// Two lists with the same names, in whatever order, sort alike.
pub proof fn lemma_sorted_names_ignore_order(a: Seq<Seq<char>>, b: Seq<Seq<char>>)
    requires
        a.to_multiset() == b.to_multiset(),
    ensures
        sorted_names(a) == sorted_names(b),
{
    lemma_lex_total_ordering();
    a.lemma_sort_by_ensures(lex_order());
    lemma_sorted_names_unique(b, sorted_names(a));
}

/// Whether `a` comes before `b` or equals it.
pub fn lex_le_exec(a: &Vec<char>, b: &Vec<char>) -> (r: bool)
    ensures
        r == lex_le(a@, b@),
{
    let mut i: usize = 0;
    assert(a@.skip(0) =~= a@ && b@.skip(0) =~= b@);
    while i < a.len()
        invariant
            i <= a.len(),
            i <= b.len(),
            lex_le(a@, b@) == lex_le(a@.skip(i as int), b@.skip(i as int)),
        decreases a.len() - i,
    {
        let ghost sa = a@.skip(i as int);
        let ghost sb = b@.skip(i as int);
        if i == b.len() {
            return false;
        }
        assert(sa[0] == a@[i as int] && sb[0] == b@[i as int]);
        if a[i] < b[i] {
            return true;
        }
        if a[i] != b[i] {
            return false;
        }
        assert(sa.drop_first() =~= a@.skip(i + 1));
        assert(sb.drop_first() =~= b@.skip(i + 1));
        i += 1;
    }
    true
}

/// `names` sorted by the order of strings.
pub fn sort_names(names: &Vec<String>) -> (r: Vec<String>)
    ensures
        names_view(r@) == sorted_names(names_view(names@)),
{
    proof {
        lemma_lex_total_ordering();
    }
    let ghost order = lex_order();
    let mut out: Vec<String> = Vec::new();
    let mut keys: Vec<Vec<char>> = Vec::new();
    let mut i: usize = 0;
    while i < names.len()
        invariant
            i <= names.len(),
            order == lex_order(),
            total_ordering(order),
            keys.len() == out.len(),
            forall|k: int| 0 <= k < keys.len() ==> (#[trigger] keys@[k])@ == out@[k]@,
            sorted_by(names_view(out@), order),
            names_view(out@).to_multiset() == names_view(names@).take(i as int).to_multiset(),
        decreases names.len() - i,
    {
        let key = chars_of(names[i].as_str());
        let ghost sorted = names_view(out@);
        let ghost x = key@;
        let mut p: usize = 0;
        while p < out.len() && lex_le_exec(&keys[p], &key)
            invariant
                p <= out.len() == keys.len() == sorted.len(),
                sorted == names_view(out@),
                x == key@,
                forall|k: int| 0 <= k < keys.len() ==> (#[trigger] keys@[k])@ == out@[k]@,
                forall|k: int| 0 <= k < p ==> lex_le(#[trigger] sorted[k], x),
            decreases out.len() - p,
        {
            assert(sorted[p as int] == keys@[p as int]@);
            p += 1;
        }
        proof {
            if p < sorted.len() {
                assert(sorted[p as int] == keys@[p as int]@);
                assert(!lex_le(sorted[p as int], x));
                assert(!order(sorted[p as int], x));
                assert(order(x, sorted[p as int]));
            }
            let ns = sorted.insert(p as int, x);
            assert forall|a: int, b: int| 0 <= a < b < ns.len() implies #[trigger] order(ns[a], ns[b]) by {
                if b < p {
                    assert(ns[a] == sorted[a] && ns[b] == sorted[b]);
                } else if b == p {
                    assert(ns[a] == sorted[a] && ns[b] == x);
                } else if a == p {
                    assert(ns[b] == sorted[b - 1]);
                    assert(order(x, sorted[p as int]));
                    if b - 1 > p {
                        assert(order(sorted[p as int], sorted[b - 1]));
                    }
                } else if a < p {
                    assert(ns[a] == sorted[a] && ns[b] == sorted[b - 1]);
                } else {
                    assert(ns[a] == sorted[a - 1] && ns[b] == sorted[b - 1]);
                }
            }
            assert(ns.remove(p as int) =~= sorted);
            assert(names_view(names@).take(i + 1) =~= names_view(names@).take(i as int).push(x));
            assert(ns.to_multiset() =~= sorted.to_multiset().insert(x)) by {
                assert(ns.remove(p as int).to_multiset() == ns.to_multiset().remove(ns[p as int]));
            }
        }
        let name = names[i].clone();
        let ghost old_keys = keys@;
        let ghost old_out = out@;
        out.insert(p, name);
        keys.insert(p, key);
        proof {
            assert(names_view(out@) =~= sorted.insert(p as int, x));
            assert forall|k: int| 0 <= k < keys.len() implies (#[trigger] keys@[k])@ == out@[k]@ by {
                if k < p {
                    assert(keys@[k] == old_keys[k] && out@[k] == old_out[k]);
                } else if k > p {
                    assert(keys@[k] == old_keys[k - 1] && out@[k] == old_out[k - 1]);
                }
            }
        }
        i += 1;
    }
    proof {
        assert(names_view(names@).take(names.len() as int) =~= names_view(names@));
        lemma_sorted_names_unique(names_view(names@), names_view(out@));
    }
    out
}

} // verus!
