use vstd::prelude::*;

verus! {

/// Puts `x` into `s` in front of the first element that `x` must come before
/// (`before(x, e)`), or at the end when there is none: elements that tie with
/// `x` keep their place ahead of it.
pub open spec fn insert_ordered<T>(s: Seq<T>, x: T, before: spec_fn(T, T) -> bool) -> Seq<T>
    decreases s.len(),
{
    if s.len() == 0 {
        seq![x]
    } else if before(x, s[0]) {
        seq![x] + s
    } else {
        seq![s[0]] + insert_ordered(s.drop_first(), x, before)
    }
}

/// The elements of `s` put in order by `before`, one after another in the
/// order of `s`: elements that tie keep the order they had in `s`.
pub open spec fn sort_ordered<T>(s: Seq<T>, before: spec_fn(T, T) -> bool) -> Seq<T>
    decreases s.len(),
{
    if s.len() == 0 {
        s
    } else {
        insert_ordered(sort_ordered(s.drop_last(), before), s.last(), before)
    }
}

/// Where the first element that `x` must come before stands, `insert_ordered` places `x`.
pub proof fn lemma_insert_ordered_at<T>(s: Seq<T>, x: T, before: spec_fn(T, T) -> bool, p: int)
    requires
        0 <= p <= s.len(),
        forall|k: int| 0 <= k < p ==> !before(x, #[trigger] s[k]),
        p < s.len() ==> before(x, s[p]),
    ensures
        insert_ordered(s, x, before) == s.insert(p, x),
    decreases s.len(),
{
    if s.len() == 0 {
        assert(s.insert(p, x) =~= seq![x]);
    } else if p == 0 {
        assert(s.insert(p, x) =~= seq![x] + s);
    } else {
        let t = s.drop_first();
        assert forall|k: int| 0 <= k < p - 1 implies !before(x, #[trigger] t[k]) by {
            assert(t[k] == s[k + 1]);
        }
        lemma_insert_ordered_at(t, x, before, p - 1);
        assert(s.insert(p, x) =~= seq![s[0]] + t.insert(p - 1, x));
    }
}

/// Inserting adds exactly one element.
pub proof fn lemma_insert_ordered_len<T>(s: Seq<T>, x: T, before: spec_fn(T, T) -> bool)
    ensures
        insert_ordered(s, x, before).len() == s.len() + 1,
    decreases s.len(),
{
    if s.len() > 0 && !before(x, s[0]) {
        lemma_insert_ordered_len(s.drop_first(), x, before);
    }
}

/// Sorting keeps the number of elements.
pub proof fn lemma_sort_ordered_len<T>(s: Seq<T>, before: spec_fn(T, T) -> bool)
    ensures
        sort_ordered(s, before).len() == s.len(),
    decreases s.len(),
{
    if s.len() > 0 {
        lemma_sort_ordered_len(s.drop_last(), before);
        lemma_insert_ordered_len(sort_ordered(s.drop_last(), before), s.last(), before);
    }
}

/// No element of `s` must come before an element ahead of it.
pub open spec fn is_ordered<T>(s: Seq<T>, before: spec_fn(T, T) -> bool) -> bool {
    forall|i: int, j: int| 0 <= i < j < s.len() ==> !before(#[trigger] s[j], #[trigger] s[i])
}

/// `before` is a strict order: never both ways, and transitive.
pub open spec fn is_strict_order<T>(before: spec_fn(T, T) -> bool) -> bool {
    &&& forall|a: T, b: T| #[trigger] before(a, b) ==> !before(b, a)
    &&& forall|a: T, b: T, c: T| #[trigger] before(a, b) && #[trigger] before(b, c) ==> before(a, c)
}

/// Inserting into an ordered sequence keeps it ordered.
pub proof fn lemma_insert_keeps_order<T>(s: Seq<T>, x: T, before: spec_fn(T, T) -> bool)
    requires
        is_strict_order(before),
        is_ordered(s, before),
    ensures
        is_ordered(insert_ordered(s, x, before), before),
    decreases s.len(),
{
    if s.len() > 0 && !before(x, s[0]) {
        let t = s.drop_first();
        assert forall|i: int, j: int| 0 <= i < j < t.len() implies !before(#[trigger] t[j], #[trigger] t[i]) by {
            assert(t[i] == s[i + 1] && t[j] == s[j + 1]);
        }
        lemma_insert_keeps_order(t, x, before);
        let r = insert_ordered(t, x, before);
        lemma_insert_members(t, x, before);
        let u = seq![s[0]] + r;
        assert forall|i: int, j: int| 0 <= i < j < u.len() implies !before(#[trigger] u[j], #[trigger] u[i]) by {
            if i == 0 {
                assert(u[j] == r[j - 1]);
                if r[j - 1] != x {
                    let k = choose|k: int| 0 <= k < t.len() && t[k] == r[j - 1];
                    assert(t[k] == s[k + 1]);
                }
            } else {
                assert(u[i] == r[i - 1] && u[j] == r[j - 1]);
            }
        }
    } else if s.len() > 0 {
        let u = seq![x] + s;
        assert forall|i: int, j: int| 0 <= i < j < u.len() implies !before(#[trigger] u[j], #[trigger] u[i]) by {
            if i == 0 {
                assert(u[j] == s[j - 1]);
                if j > 1 {
                    assert(!before(s[j - 1], s[0]));
                }
            } else {
                assert(u[i] == s[i - 1] && u[j] == s[j - 1]);
            }
        }
    }
}

/// Each element of `insert_ordered(s, x, before)` is `x` or an element of `s`.
pub proof fn lemma_insert_members<T>(s: Seq<T>, x: T, before: spec_fn(T, T) -> bool)
    ensures
        insert_ordered(s, x, before).len() == s.len() + 1,
        forall|i: int| 0 <= i < s.len() + 1 ==> #[trigger] insert_ordered(s, x, before)[i] == x
            || exists|k: int| 0 <= k < s.len() && s[k] == insert_ordered(s, x, before)[i],
    decreases s.len(),
{
    lemma_insert_ordered_len(s, x, before);
    if s.len() > 0 && !before(x, s[0]) {
        let t = s.drop_first();
        lemma_insert_members(t, x, before);
        let r = insert_ordered(s, x, before);
        assert forall|i: int| 0 <= i < s.len() + 1 implies #[trigger] r[i] == x
            || exists|k: int| 0 <= k < s.len() && s[k] == r[i] by {
            if i == 0 {
                assert(s[0] == r[0]);
            } else {
                let ri = insert_ordered(t, x, before)[i - 1];
                assert(r[i] == ri);
                if ri != x {
                    let k = choose|k: int| 0 <= k < t.len() && t[k] == ri;
                    assert(s[k + 1] == r[i]);
                }
            }
        }
    } else if s.len() > 0 {
        let r = insert_ordered(s, x, before);
        assert forall|i: int| 0 <= i < s.len() + 1 implies #[trigger] r[i] == x
            || exists|k: int| 0 <= k < s.len() && s[k] == r[i] by {
            if i > 0 {
                assert(s[i - 1] == r[i]);
            }
        }
    }
}

/// Sorting by a strict order gives an ordered sequence.
pub proof fn lemma_sort_is_ordered<T>(s: Seq<T>, before: spec_fn(T, T) -> bool)
    requires
        is_strict_order(before),
    ensures
        is_ordered(sort_ordered(s, before), before),
    decreases s.len(),
{
    if s.len() > 0 {
        lemma_sort_is_ordered(s.drop_last(), before);
        lemma_insert_keeps_order(sort_ordered(s.drop_last(), before), s.last(), before);
    }
}

/// Inserting adds `x` to the elements and keeps every other one.
pub proof fn lemma_insert_ordered_multiset<T>(s: Seq<T>, x: T, before: spec_fn(T, T) -> bool)
    ensures
        insert_ordered(s, x, before).to_multiset() == s.to_multiset().insert(x),
    decreases s.len(),
{
    broadcast use vstd::seq_lib::group_to_multiset_ensures;

    if s.len() == 0 {
        assert(seq![x] =~= s.push(x));
    } else if before(x, s[0]) {
        assert(seq![x] + s =~= s.insert(0, x));
    } else {
        let t = s.drop_first();
        lemma_insert_ordered_multiset(t, x, before);
        let r = insert_ordered(t, x, before);
        assert(seq![s[0]] + r =~= r.insert(0, s[0]));
        assert(s =~= t.insert(0, s[0]));
        assert(t.to_multiset().insert(x).insert(s[0]) =~= t.to_multiset().insert(s[0]).insert(x));
    }
}

/// Sorting keeps exactly the elements of `s`, each as often as it occurs.
pub proof fn lemma_sort_ordered_multiset<T>(s: Seq<T>, before: spec_fn(T, T) -> bool)
    ensures
        sort_ordered(s, before).to_multiset() == s.to_multiset(),
    decreases s.len(),
{
    broadcast use vstd::seq_lib::group_to_multiset_ensures;

    if s.len() > 0 {
        lemma_sort_ordered_multiset(s.drop_last(), before);
        lemma_insert_ordered_multiset(sort_ordered(s.drop_last(), before), s.last(), before);
        assert(s.drop_last().push(s.last()) =~= s);
    }
}

} // verus!
