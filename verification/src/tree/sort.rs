use vstd::prelude::*;

verus! {

/// `a` comes before `b` when their characters are compared one by one, a prefix first.
pub open spec fn text_lt(a: Seq<char>, b: Seq<char>) -> bool
    decreases a.len(),
{
    if b.len() == 0 {
        false
    } else if a.len() == 0 {
        true
    } else if a[0] != b[0] {
        (a[0] as int) < (b[0] as int)
    } else {
        text_lt(a.drop_first(), b.drop_first())
    }
}

/// Whether the first text comes before the second.
pub fn text_less(a: &str, b: &str) -> (r: bool)
    ensures
        r == text_lt(a@, b@),
{
    let n = a.unicode_len();
    let m = b.unicode_len();
    let mut i: usize = 0;
    assert(a@.skip(0) =~= a@);
    assert(b@.skip(0) =~= b@);
    while i < n && i < m
        invariant
            n == a@.len(),
            m == b@.len(),
            i <= n,
            i <= m,
            a@.subrange(0, i as int) == b@.subrange(0, i as int),
            text_lt(a@, b@) == text_lt(a@.skip(i as int), b@.skip(i as int)),
        decreases n - i,
    {
        let x = a.get_char(i);
        let y = b.get_char(i);
        proof {
            assert(a@.skip(i as int)[0] == x);
            assert(b@.skip(i as int)[0] == y);
            assert(a@.skip(i as int).drop_first() =~= a@.skip(i + 1));
            assert(b@.skip(i as int).drop_first() =~= b@.skip(i + 1));
        }
        if x != y {
            return (x as u32) < (y as u32);
        }
        i = i + 1;
        assert(a@.subrange(0, i as int) =~= b@.subrange(0, i as int)) by {
            assert forall|k: int| 0 <= k < i implies a@[k] == b@[k] by {
                if k < i - 1 {
                    assert(a@.subrange(0, i - 1)[k] == b@.subrange(0, i - 1)[k]);
                }
            }
        }
    }
    i < m
}

/// The key comes strictly before the other, or after it, or they are equal.
pub proof fn lemma_text_lt_total(a: Seq<char>, b: Seq<char>)
    ensures
        text_lt(a, b) || text_lt(b, a) || a == b,
        !(text_lt(a, b) && text_lt(b, a)),
    decreases a.len(),
{
    if a.len() > 0 && b.len() > 0 && a[0] == b[0] {
        lemma_text_lt_total(a.drop_first(), b.drop_first());
        if a.drop_first() == b.drop_first() {
            assert(a =~= seq![a[0]] + a.drop_first());
            assert(b =~= seq![b[0]] + b.drop_first());
        }
    } else if a.len() == 0 && b.len() == 0 {
        assert(a =~= b);
    } else if a.len() > 0 && b.len() > 0 {
        assert((a[0] as int) != (b[0] as int));
    }
}

/// The order is transitive.
pub proof fn lemma_text_lt_transitive(a: Seq<char>, b: Seq<char>, c: Seq<char>)
    requires
        text_lt(a, b),
        text_lt(b, c),
    ensures
        text_lt(a, c),
    decreases a.len(),
{
    if a.len() > 0 && b.len() > 0 && c.len() > 0 && a[0] == b[0] && b[0] == c[0] {
        lemma_text_lt_transitive(a.drop_first(), b.drop_first(), c.drop_first());
    }
}

/// The item inserted into keyed items: after those whose keys do not come after its key.
pub open spec fn insert_by_key<T>(x: (T, Seq<char>), s: Seq<(T, Seq<char>)>) -> Seq<(T, Seq<char>)>
    decreases s.len(),
{
    if s.len() == 0 {
        seq![x]
    } else if text_lt(x.1, s[0].1) {
        seq![x] + s
    } else {
        seq![s[0]] + insert_by_key(x, s.drop_first())
    }
}

/// Keyed items sorted by their keys, items with equal keys in their order.
pub open spec fn sort_by_key<T>(xs: Seq<(T, Seq<char>)>) -> Seq<(T, Seq<char>)>
    decreases xs.len(),
{
    if xs.len() == 0 {
        seq![]
    } else {
        insert_by_key(xs.last(), sort_by_key(xs.drop_last()))
    }
}

/// Items paired with their keys.
pub open spec fn keyed<T>(items: Seq<T>, keys: Seq<Seq<char>>) -> Seq<(T, Seq<char>)> {
    Seq::new(items.len(), |i: int| (items[i], keys[i]))
}

/// The keys never go down.
pub open spec fn keys_sorted<T>(s: Seq<(T, Seq<char>)>) -> bool {
    forall|i: int, j: int| 0 <= i < j < s.len() ==> !text_lt(#[trigger] s[j].1, #[trigger] s[i].1)
}

/// The first position whose key comes after the key, or the end.
pub open spec fn insert_pos<T>(key: Seq<char>, s: Seq<(T, Seq<char>)>) -> int
    decreases s.len(),
{
    if s.len() == 0 {
        0
    } else if text_lt(key, s[0].1) {
        0
    } else {
        1 + insert_pos(key, s.drop_first())
    }
}

/// Inserting puts the item at its position.
pub proof fn lemma_insert_at<T>(x: (T, Seq<char>), s: Seq<(T, Seq<char>)>)
    ensures
        0 <= insert_pos(x.1, s) <= s.len(),
        insert_by_key(x, s) == s.take(insert_pos(x.1, s)) + seq![x] + s.skip(insert_pos(x.1, s)),
        forall|k: int| 0 <= k < insert_pos(x.1, s) ==> !text_lt(x.1, #[trigger] s[k].1),
        insert_pos(x.1, s) < s.len() ==> text_lt(x.1, s[insert_pos(x.1, s)].1),
    decreases s.len(),
{
    if s.len() == 0 {
        assert(s.take(0) + seq![x] + s.skip(0) =~= seq![x]);
    } else if text_lt(x.1, s[0].1) {
        assert(s.take(0) + seq![x] + s.skip(0) =~= seq![x] + s);
    } else {
        let t = s.drop_first();
        lemma_insert_at(x, t);
        let p = insert_pos(x.1, t);
        assert(seq![s[0]] + (t.take(p) + seq![x] + t.skip(p)) =~= s.take(p + 1) + seq![x] + s.skip(p + 1));
        assert forall|k: int| 0 <= k < p + 1 implies !text_lt(x.1, #[trigger] s[k].1) by {
            if k > 0 {
                assert(s[k] == t[k - 1]);
            }
        }
        if p < t.len() {
            assert(s[p + 1] == t[p]);
        }
    }
}

/// Inserting into sorted keyed items keeps them sorted.
pub proof fn lemma_insert_sorted<T>(x: (T, Seq<char>), s: Seq<(T, Seq<char>)>)
    requires
        keys_sorted(s),
    ensures
        keys_sorted(insert_by_key(x, s)),
        insert_by_key(x, s).to_multiset() == s.to_multiset().insert(x),
{
    lemma_insert_at(x, s);
    let p = insert_pos(x.1, s);
    let r = insert_by_key(x, s);
    assert(r.len() == s.len() + 1);
    assert forall|i: int, j: int| 0 <= i < j < r.len() implies !text_lt(#[trigger] r[j].1, #[trigger] r[i].1) by {
        let ri = if i < p { s[i] } else if i == p { x } else { s[i - 1] };
        let rj = if j < p { s[j] } else if j == p { x } else { s[j - 1] };
        assert(r[i] == ri);
        assert(r[j] == rj);
        if i < p && j == p {
            lemma_text_lt_total(x.1, s[i].1);
        } else if i == p && j > p {
            lemma_text_lt_total(x.1, s[p].1);
            if text_lt(s[j - 1].1, x.1) {
                if j - 1 > p {
                    lemma_text_lt_total(s[p].1, s[j - 1].1);
                    if text_lt(s[p].1, s[j - 1].1) {
                        lemma_text_lt_transitive(x.1, s[p].1, s[j - 1].1);
                        lemma_text_lt_total(x.1, s[j - 1].1);
                    } else {
                        lemma_text_lt_total(x.1, s[j - 1].1);
                    }
                } else {
                    lemma_text_lt_total(x.1, s[p].1);
                }
            }
        } else if i < p && j > p {
            assert(!text_lt(s[j - 1].1, s[i].1));
        }
    }
    vstd::seq_lib::lemma_multiset_commutative(s.take(p) + seq![x], s.skip(p));
    vstd::seq_lib::lemma_multiset_commutative(s.take(p), seq![x]);
    vstd::seq_lib::lemma_multiset_commutative(s.take(p), s.skip(p));
    assert(s.take(p) + s.skip(p) =~= s);
    assert(seq![x].to_multiset() =~= vstd::multiset::Multiset::empty().insert(x)) by {
        broadcast use vstd::seq_lib::group_to_multiset_ensures;
        assert(seq![x] =~= Seq::<(T, Seq<char>)>::empty().push(x));
    }
    assert(r =~= s.take(p) + seq![x] + s.skip(p));
    assert(r.to_multiset() =~= s.to_multiset().insert(x));
}

/// Sorting by key sorts, and keeps the items.
pub proof fn lemma_sort_by_key<T>(xs: Seq<(T, Seq<char>)>)
    ensures
        keys_sorted(sort_by_key(xs)),
        sort_by_key(xs).to_multiset() == xs.to_multiset(),
    decreases xs.len(),
{
    if xs.len() == 0 {
        assert(sort_by_key(xs) =~= xs);
    } else {
        lemma_sort_by_key(xs.drop_last());
        lemma_insert_sorted(xs.last(), sort_by_key(xs.drop_last()));
        broadcast use vstd::seq_lib::group_to_multiset_ensures;
        assert(xs =~= xs.drop_last().push(xs.last()));
    }
}

/// Sort the items by their keys; items with equal keys keep their order.
pub fn sort_by_keys<T>(items: Vec<T>, keys: Vec<String>) -> (r: Vec<T>)
    requires
        items@.len() == keys@.len(),
    ensures
        r@ == sort_by_key(keyed(items@, keys@.map_values(|k: String| k@))).map_values(|p: (T, Seq<char>)| p.0),
{
    let ghost all = keyed(items@, keys@.map_values(|k: String| k@));
    let mut items = items;
    let mut keys = keys;
    let mut out: Vec<T> = Vec::new();
    let mut out_keys: Vec<String> = Vec::new();
    let ghost mut taken: int = 0;
    assert(all.take(0) =~= Seq::<(T, Seq<char>)>::empty());
    while items.len() > 0
        invariant
            items@.len() == keys@.len(),
            0 <= taken <= all.len(),
            items@.len() == all.len() - taken,
            forall|k: int| 0 <= k < items@.len() ==> (#[trigger] items@[k], keys@[k]@) == all[taken + k],
            out@.len() == out_keys@.len(),
            keyed(out@, out_keys@.map_values(|k: String| k@)) == sort_by_key(all.take(taken)),
        decreases items@.len(),
    {
        let x = items.remove(0);
        let key = keys.remove(0);
        let ghost xk = (x, key@);
        proof {
            assert(xk == all[taken]);
        }
        let ghost s = keyed(out@, out_keys@.map_values(|k: String| k@));
        let mut p: usize = 0;
        assert(s.skip(0) =~= s);
        while p < out_keys.len() && !text_less(key.as_str(), out_keys[p].as_str())
            invariant
                p <= out_keys@.len(),
                out@.len() == out_keys@.len(),
                s == keyed(out@, out_keys@.map_values(|k: String| k@)),
                insert_pos(key@, s) == p + insert_pos(key@, s.skip(p as int)),
            decreases out_keys@.len() - p,
        {
            proof {
                assert(s.skip(p as int)[0] == s[p as int]);
                assert(s.skip(p as int).drop_first() =~= s.skip(p + 1));
            }
            p = p + 1;
        }
        proof {
            if p < out_keys@.len() {
                assert(s.skip(p as int)[0] == s[p as int]);
            }
            lemma_insert_at(xk, s);
        }
        out.insert(p, x);
        out_keys.insert(p, key);
        proof {
            assert(keyed(out@, out_keys@.map_values(|k: String| k@)) =~= s.take(p as int) + seq![xk] + s.skip(p as int));
            assert(all.take(taken + 1).drop_last() =~= all.take(taken));
            assert(all.take(taken + 1).last() == xk);
            assert forall|k: int| 0 <= k < items@.len() implies (#[trigger] items@[k], keys@[k]@) == all[taken + 1 + k] by {
            }
            taken = taken + 1;
        }
    }
    proof {
        assert(all.take(taken) =~= all);
        assert(out@ =~= keyed(out@, out_keys@.map_values(|k: String| k@)).map_values(|p: (T, Seq<char>)| p.0));
    }
    out
}

/// The items sorted by the keys the function gives them, equal keys in their order.
pub open spec fn sort_named<T>(xs: Seq<T>, key: spec_fn(T) -> Seq<char>) -> Seq<T> {
    sort_by_key(Seq::new(xs.len(), |i: int| (xs[i], key(xs[i])))).map_values(|p: (T, Seq<char>)| p.0)
}

/// Changing the items but not their keys commutes with inserting.
proof fn lemma_insert_map<T, U>(x: (T, Seq<char>), s: Seq<(T, Seq<char>)>, f: spec_fn(T) -> U)
    ensures
        insert_by_key((f(x.0), x.1), s.map_values(|p: (T, Seq<char>)| (f(p.0), p.1)))
            == insert_by_key(x, s).map_values(|p: (T, Seq<char>)| (f(p.0), p.1)),
    decreases s.len(),
{
    let g = |p: (T, Seq<char>)| (f(p.0), p.1);
    let t = s.map_values(g);
    if s.len() == 0 {
        assert(insert_by_key(x, s).map_values(g) =~= seq![g(x)]);
    } else if text_lt(x.1, s[0].1) {
        assert(t[0] == g(s[0]));
        assert((seq![x] + s).map_values(g) =~= seq![g(x)] + t);
    } else {
        lemma_insert_map(x, s.drop_first(), f);
        assert(t[0] == g(s[0]));
        assert(t.drop_first() =~= s.drop_first().map_values(g));
        assert((seq![s[0]] + insert_by_key(x, s.drop_first())).map_values(g) =~= seq![g(s[0])] + insert_by_key(x, s.drop_first()).map_values(g));
    }
}

/// Changing the items but not their keys commutes with sorting.
proof fn lemma_sort_map<T, U>(xs: Seq<(T, Seq<char>)>, f: spec_fn(T) -> U)
    ensures
        sort_by_key(xs.map_values(|p: (T, Seq<char>)| (f(p.0), p.1))) == sort_by_key(xs).map_values(
            |p: (T, Seq<char>)| (f(p.0), p.1),
        ),
    decreases xs.len(),
{
    let g = |p: (T, Seq<char>)| (f(p.0), p.1);
    if xs.len() == 0 {
        assert(sort_by_key(xs.map_values(g)) =~= sort_by_key(xs).map_values(g));
    } else {
        lemma_sort_map(xs.drop_last(), f);
        assert(xs.map_values(g).drop_last() =~= xs.drop_last().map_values(g));
        assert(xs.map_values(g).last() == g(xs.last()));
        lemma_insert_map(xs.last(), sort_by_key(xs.drop_last()), f);
    }
}

/// Sorting items by name and then viewing them is viewing them and then sorting, when the
/// view keeps the names.
pub proof fn lemma_sort_named_map<T, U>(xs: Seq<T>, key: spec_fn(T) -> Seq<char>, f: spec_fn(T) -> U, key2: spec_fn(U) -> Seq<char>)
    requires
        forall|x: T| #[trigger] key2(f(x)) == key(x),
    ensures
        sort_named(xs.map_values(f), key2) == sort_named(xs, key).map_values(f),
{
    let pairs = Seq::new(xs.len(), |i: int| (xs[i], key(xs[i])));
    let g = |p: (T, Seq<char>)| (f(p.0), p.1);
    let ys = xs.map_values(f);
    let pairs2 = Seq::new(ys.len(), |i: int| (ys[i], key2(ys[i])));
    assert(pairs2 =~= pairs.map_values(g)) by {
        assert forall|i: int| 0 <= i < xs.len() implies pairs2[i] == pairs.map_values(g)[i] by {
            assert(key2(f(xs[i])) == key(xs[i]));
        }
    }
    lemma_sort_map(pairs, f);
    assert(sort_by_key(pairs2).map_values(|p: (U, Seq<char>)| p.0) =~= sort_by_key(pairs).map_values(
        |p: (T, Seq<char>)| p.0,
    ).map_values(f));
}

/// Every item of the sorted items is one of the items.
pub proof fn lemma_sort_named_from<T>(xs: Seq<T>, key: spec_fn(T) -> Seq<char>)
    ensures
        sort_named(xs, key).len() == xs.len(),
        forall|i: int| 0 <= i < xs.len() ==> xs.contains(#[trigger] sort_named(xs, key)[i]),
{
    broadcast use vstd::seq_lib::group_to_multiset_ensures;
    let pairs = Seq::new(xs.len(), |i: int| (xs[i], key(xs[i])));
    let sorted = sort_by_key(pairs);
    lemma_sort_by_key(pairs);
    assert(sorted.len() == pairs.len()) by {
        assert(sorted.to_multiset().len() == pairs.to_multiset().len());
    }
    assert forall|i: int| 0 <= i < xs.len() implies xs.contains(#[trigger] sort_named(xs, key)[i]) by {
        assert(sorted.contains(sorted[i]));
        assert(sorted.to_multiset().count(sorted[i]) > 0);
        assert(pairs.contains(sorted[i]));
        let j = choose|j: int| 0 <= j < pairs.len() && pairs[j] == sorted[i];
        assert(xs[j] == sort_named(xs, key)[i]);
    }
}

/// Sequences with the same items keep the same items through a function.
proof fn lemma_multiset_map<A, B>(s1: Seq<A>, s2: Seq<A>, f: spec_fn(A) -> B)
    requires
        s1.to_multiset() == s2.to_multiset(),
    ensures
        s1.map_values(f).to_multiset() == s2.map_values(f).to_multiset(),
    decreases s1.len(),
{
    broadcast use vstd::seq_lib::group_to_multiset_ensures;
    if s1.len() == 0 {
        assert(s2.to_multiset().len() == 0);
        assert(s2.len() == 0);
        assert(s1.map_values(f) =~= s2.map_values(f));
    } else {
        let a = s1.last();
        assert(s1 =~= s1.drop_last().push(a));
        assert(s1.to_multiset().count(a) > 0);
        assert(s2.contains(a));
        let j = choose|j: int| 0 <= j < s2.len() && s2[j] == a;
        let s2r = s2.remove(j);
        assert(s1.drop_last().to_multiset() =~= s2r.to_multiset()) by {
            assert(s1.to_multiset() =~= s1.drop_last().to_multiset().insert(a));
            assert(s2r.to_multiset() =~= s2.to_multiset().remove(a));
        }
        lemma_multiset_map(s1.drop_last(), s2r, f);
        assert(s1.map_values(f) =~= s1.drop_last().map_values(f).push(f(a)));
        assert(s2r.map_values(f) =~= s2.map_values(f).remove(j));
        assert(s2.map_values(f)[j] == f(a));
        assert(s2.map_values(f).remove(j).to_multiset() =~= s2.map_values(f).to_multiset().remove(f(a)));
        assert(s2.map_values(f).to_multiset().count(f(a)) > 0) by {
            assert(s2.map_values(f).contains(f(a)));
        }
        assert(s2.map_values(f).to_multiset() =~= s2.map_values(f).to_multiset().remove(f(a)).insert(f(a)));
    }
}

/// Sorting by name keeps every item, as often as it was there, and puts the names in
/// order.
pub proof fn law_sort_named<T>(xs: Seq<T>, key: spec_fn(T) -> Seq<char>)
    ensures
        sort_named(xs, key).to_multiset() == xs.to_multiset(),
        forall|i: int, j: int|
            0 <= i < j < xs.len() ==> !text_lt(key(#[trigger] sort_named(xs, key)[j]), key(#[trigger] sort_named(xs, key)[i])),
{
    let pairs = Seq::new(xs.len(), |i: int| (xs[i], key(xs[i])));
    let sorted = sort_by_key(pairs);
    lemma_sort_by_key(pairs);
    lemma_sort_named_from(xs, key);
    let first = |p: (T, Seq<char>)| p.0;
    assert(pairs.map_values(first) =~= xs);
    lemma_multiset_map(sorted, pairs, first);
    assert forall|i: int, j: int| 0 <= i < j < xs.len() implies !text_lt(key(#[trigger] sort_named(xs, key)[j]), key(#[trigger] sort_named(xs, key)[i])) by {
        broadcast use vstd::seq_lib::group_to_multiset_ensures;
        assert(sorted.len() == xs.len());
        assert(sorted.contains(sorted[i]));
        assert(sorted.contains(sorted[j]));
        assert(sorted.to_multiset().count(sorted[i]) > 0);
        assert(sorted.to_multiset().count(sorted[j]) > 0);
        assert(pairs.to_multiset().count(sorted[i]) > 0);
        assert(pairs.to_multiset().count(sorted[j]) > 0);
        assert(pairs.contains(sorted[i]));
        assert(pairs.contains(sorted[j]));
        let a = choose|a: int| 0 <= a < pairs.len() && pairs[a] == sorted[i];
        let b = choose|b: int| 0 <= b < pairs.len() && pairs[b] == sorted[j];
        assert(sorted[i].1 == key(sorted[i].0));
        assert(sorted[j].1 == key(sorted[j].0));
    }
}

} // verus!
