//! Sequences: searching and filtering them.
use vstd::prelude::*;

verus! {

/// The first of `items` that is `wanted`.
pub open spec fn first_such<A>(items: Seq<A>, wanted: spec_fn(A) -> bool) -> Option<A>
    decreases items.len(),
{
    if items.len() == 0 {
        None
    } else if wanted(items[0]) {
        Some(items[0])
    } else {
        first_such(items.drop_first(), wanted)
    }
}

/// What `first_such` finds is wanted, and it finds something where something is wanted.
pub proof fn lemma_first_such<A>(items: Seq<A>, wanted: spec_fn(A) -> bool)
    ensures
        match first_such(items, wanted) {
            Some(item) => items.contains(item) && wanted(item),
            None => forall|i: int| 0 <= i < items.len() ==> !wanted(#[trigger] items[i]),
        },
    decreases items.len(),
{
    if items.len() > 0 {
        if wanted(items[0]) {
            assert(items.contains(items[0]));
        } else {
            let rest = items.drop_first();
            lemma_first_such(rest, wanted);
            match first_such(rest, wanted) {
                Some(item) => {
                    let k = choose|k: int| 0 <= k < rest.len() && rest[k] == item;
                    assert(items[k + 1] == item);
                },
                None => {
                    assert forall|i: int| 0 <= i < items.len() implies !wanted(
                        #[trigger] items[i],
                    ) by {
                        if i > 0 {
                            assert(rest[i - 1] == items[i]);
                        }
                    }
                },
            }
        }
    }
}

/// What `first_such` finds with one more item at the end.
pub proof fn lemma_first_such_push<A>(items: Seq<A>, item: A, wanted: spec_fn(A) -> bool)
    ensures
        first_such(items.push(item), wanted) == match first_such(items, wanted) {
            Some(found) => Some(found),
            None => if wanted(item) {
                Some(item)
            } else {
                None
            },
        },
    decreases items.len(),
{
    if items.len() == 0 {
        assert(items.push(item).drop_first() =~= items);
    } else {
        assert(items.push(item).drop_first() =~= items.drop_first().push(item));
        lemma_first_such_push(items.drop_first(), item, wanted);
    }
}

/// What a filtered sequence contains.
pub proof fn lemma_filter_is<A>(s: Seq<A>, keep: spec_fn(A) -> bool, item: A)
    ensures
        s.filter(keep).contains(item) <==> s.contains(item) && keep(item),
{
    if s.filter(keep).contains(item) {
        s.lemma_filter_contains_rev(keep, item);
        let k = choose|k: int| 0 <= k < s.filter(keep).len() && s.filter(keep)[k] == item;
        s.lemma_filter_pred(keep, k);
    }
    if s.contains(item) && keep(item) {
        let k = choose|k: int| 0 <= k < s.len() && s[k] == item;
        s.lemma_filter_contains(keep, k);
    }
}

/// Filters that agree on the elements keep the same.
pub proof fn lemma_filter_same<A>(s: Seq<A>, p: spec_fn(A) -> bool, q: spec_fn(A) -> bool)
    requires
        forall|i: int| 0 <= i < s.len() ==> p(#[trigger] s[i]) == q(s[i]),
    ensures
        s.filter(p) == s.filter(q),
    decreases s.len(),
{
    reveal(Seq::filter);
    if s.len() > 0 {
        let init = s.drop_last();
        assert forall|i: int| 0 <= i < init.len() implies p(#[trigger] init[i]) == q(init[i]) by {
            assert(init[i] == s[i]);
        }
        lemma_filter_same(init, p, q);
        assert(p(s[s.len() - 1]) == q(s[s.len() - 1]));
    }
}

/// What two filters keep that exclude each other is, mapped, what their union keeps.
pub proof fn lemma_filter_either<A, B>(
    s: Seq<A>,
    p: spec_fn(A) -> bool,
    q: spec_fn(A) -> bool,
    f: spec_fn(A) -> B,
)
    requires
        forall|x: A| !(#[trigger] p(x) && q(x)),
    ensures
        s.filter(|x: A| p(x) || q(x)).map_values(f).to_multiset() == s.filter(p).map_values(
            f,
        ).to_multiset().add(s.filter(q).map_values(f).to_multiset()),
    decreases s.len(),
{
    let either = |x: A| p(x) || q(x);
    if s.len() == 0 {
        reveal(Seq::filter);
        let none = s.map_values(f);
        none.to_multiset_ensures();
        assert(none.to_multiset() =~= none.to_multiset().add(none.to_multiset()));
    } else {
        let init = s.drop_last();
        let x = s.last();
        lemma_filter_either(init, p, q, f);
        assert(s =~= init.push(x));
        init.lemma_filter_push(x, p);
        init.lemma_filter_push(x, q);
        init.lemma_filter_push(x, either);
        let (a, b, c) = (init.filter(p), init.filter(q), init.filter(either));
        assert(a.push(x).map_values(f) =~= a.map_values(f).push(f(x)));
        assert(b.push(x).map_values(f) =~= b.map_values(f).push(f(x)));
        assert(c.push(x).map_values(f) =~= c.map_values(f).push(f(x)));
        a.map_values(f).to_multiset_ensures();
        b.map_values(f).to_multiset_ensures();
        c.map_values(f).to_multiset_ensures();
        assert(!(p(x) && q(x)));
        assert(s.filter(either).map_values(f).to_multiset() =~= s.filter(p).map_values(
            f,
        ).to_multiset().add(s.filter(q).map_values(f).to_multiset()));
    }
}

/// Sequences of the same elements, mapped, are of the same elements.
pub proof fn lemma_map_same_multiset<A, B>(a: Seq<A>, b: Seq<A>, f: spec_fn(A) -> B)
    requires
        a.to_multiset() == b.to_multiset(),
    ensures
        a.map_values(f).to_multiset() == b.map_values(f).to_multiset(),
    decreases a.len(),
{
    a.to_multiset_ensures();
    b.to_multiset_ensures();
    if a.len() == 0 {
        assert(a.map_values(f) =~= b.map_values(f));
    } else {
        let last = a.len() - 1;
        let x = a[last];
        assert(a.contains(x));
        assert(a.to_multiset().count(x) > 0);
        assert(b.contains(x));
        let k = choose|k: int| 0 <= k < b.len() && b[k] == x;
        lemma_map_same_multiset(a.remove(last), b.remove(k), f);
        let (fa, fb) = (a.map_values(f), b.map_values(f));
        assert(a.remove(last).map_values(f) =~= fa.remove(last));
        assert(b.remove(k).map_values(f) =~= fb.remove(k));
        fa.to_multiset_ensures();
        fb.to_multiset_ensures();
        assert(fa.contains(fa[last]) && fb.contains(fb[k]));
        assert(fa.to_multiset() =~= fa.to_multiset().remove(f(x)).insert(f(x)));
        assert(fb.to_multiset() =~= fb.to_multiset().remove(f(x)).insert(f(x)));
    }
}

/// Filtering by what holds of all elements keeps all.
pub proof fn lemma_filter_all<A>(s: Seq<A>, keep: spec_fn(A) -> bool)
    requires
        forall|i: int| 0 <= i < s.len() ==> keep(#[trigger] s[i]),
    ensures
        s.filter(keep) == s,
    decreases s.len(),
{
    reveal(Seq::filter);
    if s.len() > 0 {
        let init = s.drop_last();
        assert forall|i: int| 0 <= i < init.len() implies keep(#[trigger] init[i]) by {
            assert(init[i] == s[i]);
        }
        lemma_filter_all(init, keep);
        assert(keep(s[s.len() - 1]));
        assert(s =~= init.push(s.last()));
    }
}

/// What is in one of the sequences is in all of them together.
pub proof fn lemma_flatten_contains<A>(parts: Seq<Seq<A>>, i: int, item: A)
    requires
        0 <= i < parts.len(),
        parts[i].contains(item),
    ensures
        parts.flatten().contains(item),
    decreases parts.len(),
{
    let first = parts.first();
    let rest = parts.drop_first().flatten();
    if i == 0 {
        let k = choose|k: int| 0 <= k < first.len() && first[k] == item;
        assert(parts.flatten()[k] == item);
    } else {
        assert(parts.drop_first()[i - 1] == parts[i]);
        lemma_flatten_contains(parts.drop_first(), i - 1, item);
        let k = choose|k: int| 0 <= k < rest.len() && rest[k] == item;
        assert(parts.flatten()[first.len() + k] == item);
    }
}

/// What is in all of the sequences together is in one of them.
pub proof fn lemma_flatten_holds<A>(parts: Seq<Seq<A>>, item: A) -> (i: int)
    requires
        parts.flatten().contains(item),
    ensures
        0 <= i < parts.len(),
        parts[i].contains(item),
    decreases parts.len(),
{
    if parts.len() == 0 {
        assert(parts.flatten().len() == 0);
        0
    } else {
        let first = parts.first();
        let rest = parts.drop_first().flatten();
        let k = choose|k: int| 0 <= k < parts.flatten().len() && parts.flatten()[k] == item;
        if k < first.len() {
            assert(first[k] == item);
            0
        } else {
            assert(rest[k - first.len()] == item);
            let i = lemma_flatten_holds(parts.drop_first(), item);
            assert(parts.drop_first()[i] == parts[i + 1]);
            i + 1
        }
    }
}

/// What a function picks of an element is among all that it picks.
pub proof fn lemma_filter_map_contains_picked<A, B>(
    s: Seq<A>,
    pick: spec_fn(A) -> Option<B>,
    k: int,
)
    requires
        0 <= k < s.len(),
        pick(s[k]) is Some,
    ensures
        s.filter_map(pick).contains(pick(s[k])->0),
    decreases s.len(),
{
    let init = s.drop_last();
    let picked = init.filter_map(pick);
    let all = s.filter_map(pick);
    if k == s.len() - 1 {
        assert(all[picked.len() as int] == pick(s[k])->0);
    } else {
        assert(init[k] == s[k]);
        lemma_filter_map_contains_picked(init, pick, k);
        let j = choose|j: int| 0 <= j < picked.len() && picked[j] == pick(s[k])->0;
        assert(all[j] == picked[j]);
    }
}

/// What is picked of two sequences together is what is picked of each.
pub proof fn lemma_filter_map_add<A, B>(a: Seq<A>, b: Seq<A>, pick: spec_fn(A) -> Option<B>)
    ensures
        (a + b).filter_map(pick) == a.filter_map(pick) + b.filter_map(pick),
    decreases b.len(),
{
    if b.len() == 0 {
        assert(a + b =~= a);
        assert(b.filter_map(pick) =~= seq![]);
        assert(a.filter_map(pick) + b.filter_map(pick) =~= a.filter_map(pick));
    } else {
        let init = b.drop_last();
        lemma_filter_map_add(a, init, pick);
        assert((a + b).drop_last() =~= a + init);
        assert((a + b).last() == b.last());
        assert((a + b).filter_map(pick) =~= a.filter_map(pick) + b.filter_map(pick));
    }
}

/// Filtering the first elements gives the first of all that are kept.
pub proof fn lemma_filter_prefix<A>(s: Seq<A>, keep: spec_fn(A) -> bool, n: int)
    requires
        0 <= n <= s.len(),
    ensures
        s.filter(keep) == s.take(n).filter(keep) + s.skip(n).filter(keep),
{
    assert(s =~= s.take(n) + s.skip(n));
    Seq::filter_distributes_over_add(s.take(n), s.skip(n), keep);
}

} // verus!
