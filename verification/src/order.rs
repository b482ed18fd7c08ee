//! Orders: the lexicographic order of texts (the order of `str`), and a
//! stable insertion sort for any type that carries a strict weak order.
use vstd::prelude::*;

verus! {

/// `a` comes strictly before `b` in the lexicographic order of their
/// characters (by code point, which is also the byte order of UTF-8).
pub open spec fn text_less(a: Seq<char>, b: Seq<char>) -> bool
    decreases a.len(),
{
    if b.len() == 0 {
        false
    } else if a.len() == 0 {
        true
    } else if a[0] != b[0] {
        a[0] < b[0]
    } else {
        text_less(a.drop_first(), b.drop_first())
    }
}

/// No text comes before itself.
pub proof fn lemma_text_less_irreflexive(a: Seq<char>)
    ensures
        !text_less(a, a),
    decreases a.len(),
{
    if a.len() > 0 {
        lemma_text_less_irreflexive(a.drop_first());
    }
}

/// The text order is transitive.
pub proof fn lemma_text_less_transitive(a: Seq<char>, b: Seq<char>, c: Seq<char>)
    requires
        text_less(a, b),
        text_less(b, c),
    ensures
        text_less(a, c),
    decreases a.len(),
{
    if a.len() > 0 && b.len() > 0 && c.len() > 0 && a[0] == b[0] && b[0] == c[0] {
        lemma_text_less_transitive(a.drop_first(), b.drop_first(), c.drop_first());
    }
}

/// Two different texts are ordered one way or the other.
pub proof fn lemma_text_less_total(a: Seq<char>, b: Seq<char>)
    ensures
        a == b || text_less(a, b) || text_less(b, a),
    decreases a.len(),
{
    if a.len() > 0 && b.len() > 0 {
        if a[0] == b[0] {
            lemma_text_less_total(a.drop_first(), b.drop_first());
            if a.drop_first() == b.drop_first() {
                assert(a == seq![a[0]] + a.drop_first());
                assert(b == seq![b[0]] + b.drop_first());
            }
        } else {
        }
    } else if a.len() == 0 && b.len() == 0 {
        assert(a == b);
    }
}

proof fn lemma_text_less_skip(a: Seq<char>, b: Seq<char>, i: int)
    requires
        0 <= i <= a.len(),
        i <= b.len(),
        a.take(i) == b.take(i),
    ensures
        text_less(a, b) == text_less(a.skip(i), b.skip(i)),
    decreases i,
{
    if i > 0 {
        assert(a[0] == a.take(i)[0]);
        assert(b[0] == b.take(i)[0]);
        assert(a.drop_first().take(i - 1) == a.take(i).drop_first());
        assert(b.drop_first().take(i - 1) == b.take(i).drop_first());
        lemma_text_less_skip(a.drop_first(), b.drop_first(), i - 1);
        assert(a.drop_first().skip(i - 1) == a.skip(i));
        assert(b.drop_first().skip(i - 1) == b.skip(i));
    } else {
        assert(a.skip(0) == a);
        assert(b.skip(0) == b);
    }
}

/// Whether `a` comes strictly before `b` in the text order.
pub fn chars_less(a: &[char], b: &[char]) -> (r: bool)
    ensures
        r == text_less(a@, b@),
{
    let mut i: usize = 0;
    while i < a.len() && i < b.len() && a[i] == b[i]
        invariant
            i <= a@.len(),
            i <= b@.len(),
            a@.take(i as int) == b@.take(i as int),
        decreases a@.len() - i,
    {
        assert(a@.take(i + 1) == a@.take(i as int).push(a@[i as int]));
        assert(b@.take(i + 1) == b@.take(i as int).push(b@[i as int]));
        i = i + 1;
    }
    proof {
        lemma_text_less_skip(a@, b@, i as int);
    }
    if i == b.len() {
        false
    } else if i == a.len() {
        true
    } else {
        assert(a@.skip(i as int)[0] == a@[i as int]);
        assert(b@.skip(i as int)[0] == b@[i as int]);
        a[i] < b[i]
    }
}

/// A strict weak order on the views of a type, that a sort can put values in.
pub trait Ranked: View + Sized {
    /// `a` must come before `b`.
    spec fn precedes(a: Self::V, b: Self::V) -> bool;

    proof fn lemma_precedes_irreflexive(a: Self::V)
        ensures
            !Self::precedes(a, a),
    ;

    proof fn lemma_precedes_transitive(a: Self::V, b: Self::V, c: Self::V)
        requires
            Self::precedes(a, b),
            Self::precedes(b, c),
        ensures
            Self::precedes(a, c),
    ;

    /// Being unordered (equivalent) propagates: the order is weak.
    proof fn lemma_not_precedes_transitive(a: Self::V, b: Self::V, c: Self::V)
        requires
            !Self::precedes(a, b),
            !Self::precedes(b, c),
        ensures
            !Self::precedes(a, c),
    ;

    fn precedes_exec(&self, other: &Self) -> (r: bool)
        ensures
            r == Self::precedes(self@, other@),
    ;
}

/// The views of the elements of `s`.
pub open spec fn views<T: View>(s: Seq<T>) -> Seq<T::V> {
    s.map_values(|x: T| x@)
}

/// Inserting `x` into a sequence: `x` goes after every element that it does
/// not precede.
pub open spec fn insert_ranked<T: Ranked>(s: Seq<T::V>, x: T::V) -> Seq<T::V>
    decreases s.len(),
{
    if s.len() > 0 && T::precedes(x, s.last()) {
        insert_ranked::<T>(s.drop_last(), x).push(s.last())
    } else {
        s.push(x)
    }
}

/// The stable sort of `s`: its elements inserted one by one, first to last.
pub open spec fn stable_sorted<T: Ranked>(s: Seq<T::V>) -> Seq<T::V>
    decreases s.len(),
{
    if s.len() == 0 {
        s
    } else {
        insert_ranked::<T>(stable_sorted::<T>(s.drop_last()), s.last())
    }
}

/// No element precedes one that stands before it.
pub open spec fn is_ranked<T: Ranked>(s: Seq<T::V>) -> bool {
    forall|i: int, j: int| 0 <= i < j < s.len() ==> !T::precedes(#[trigger] s[j], #[trigger] s[i])
}

proof fn lemma_insert_at<T: Ranked>(s: Seq<T::V>, x: T::V, j: int)
    requires
        0 <= j <= s.len(),
        forall|m: int| j <= m < s.len() ==> T::precedes(x, #[trigger] s[m]),
        j == 0 || !T::precedes(x, s[j - 1]),
    ensures
        insert_ranked::<T>(s, x) == s.take(j).push(x) + s.skip(j),
    decreases s.len(),
{
    if s.len() > j {
        assert(T::precedes(x, s.last()));
        let t = s.drop_last();
        assert forall|m: int| j <= m < t.len() implies T::precedes(x, #[trigger] t[m]) by {
            assert(t[m] == s[m]);
        }
        if j > 0 {
            assert(t[j - 1] == s[j - 1]);
        }
        lemma_insert_at::<T>(t, x, j);
        assert(t.take(j) == s.take(j));
        assert(t.skip(j).push(s.last()) == s.skip(j));
        assert(insert_ranked::<T>(s, x) == insert_ranked::<T>(t, x).push(s.last()));
        assert((t.take(j).push(x) + t.skip(j)).push(s.last()) == t.take(j).push(x) + t.skip(
            j,
        ).push(s.last()));
    } else {
        assert(s.take(j) == s);
        assert(s.skip(j) == Seq::<T::V>::empty());
        assert(s.push(x) == s.take(j).push(x) + s.skip(j));
        if j > 0 {
            assert(s.last() == s[j - 1]);
        }
    }
}

/// Sorts `v` stably: the views of the result are `stable_sorted` of the
/// views of `v`.
pub fn stable_sort<T: Ranked>(v: Vec<T>) -> (res: Vec<T>)
    ensures
        views(res@) == stable_sorted::<T>(views(v@)),
{
    let ghost orig = views(v@);
    let mut rest = v;
    let mut res: Vec<T> = Vec::new();
    let n = rest.len();
    let mut k: usize = 0;
    while k < n
        invariant
            n == orig.len(),
            k <= n,
            views(rest@) == orig.skip(k as int),
            views(res@) == stable_sorted::<T>(orig.take(k as int)),
        decreases n - k,
    {
        assert(views(rest@).len() == n - k);
        let ghost before = rest@;
        let x = rest.remove(0);
        assert(x@ == orig[k as int]) by {
            assert(before[0] == x);
            assert(views(before)[0] == x@);
        }
        let mut j: usize = res.len();
        while j > 0 && x.precedes_exec(&res[j - 1])
            invariant
                j <= res@.len(),
                forall|m: int| j <= m < res@.len() ==> T::precedes(x@, #[trigger] views(res@)[m]),
            decreases j,
        {
            assert(views(res@)[j - 1] == res@[j - 1]@);
            j = j - 1;
        }
        let ghost old_res = res@;
        proof {
            lemma_insert_at::<T>(views(res@), x@, j as int);
            let t = orig.take(k + 1);
            assert(t.drop_last() == orig.take(k as int));
            assert(t.last() == x@);
            assert(views(rest@) == orig.skip(k + 1)) by {
                assert(rest@ == before.drop_first());
                assert(orig.skip(k as int).drop_first() == orig.skip(k + 1));
                assert(views(before.drop_first()) == views(before).drop_first());
            }
        }
        res.insert(j, x);
        proof {
            assert(res@ == old_res.take(j as int).push(x) + old_res.skip(j as int));
            assert(views(res@) == views(old_res).take(j as int).push(x@) + views(old_res).skip(
                j as int,
            ));
        }
        k = k + 1;
    }
    assert(orig.take(n as int) == orig);
    res
}

proof fn lemma_insert_ranked_keeps_order<T: Ranked>(s: Seq<T::V>, x: T::V)
    requires
        is_ranked::<T>(s),
    ensures
        is_ranked::<T>(insert_ranked::<T>(s, x)),
        insert_ranked::<T>(s, x).to_multiset() == s.to_multiset().insert(x),
        insert_ranked::<T>(s, x).len() == s.len() + 1,
    decreases s.len(),
{
    broadcast use vstd::seq_lib::group_to_multiset_ensures;

    if s.len() > 0 && T::precedes(x, s.last()) {
        let t = s.drop_last();
        assert forall|i: int, j: int| 0 <= i < j < t.len() implies !T::precedes(
            #[trigger] t[j],
            #[trigger] t[i],
        ) by {
            assert(t[i] == s[i] && t[j] == s[j]);
        }
        lemma_insert_ranked_keeps_order::<T>(t, x);
        let u = insert_ranked::<T>(t, x);
        let w = u.push(s.last());
        assert(s == t.push(s.last()));
        assert forall|i: int, j: int| 0 <= i < j < w.len() implies !T::precedes(
            #[trigger] w[j],
            #[trigger] w[i],
        ) by {
            if j == w.len() - 1 {
                assert(u.to_multiset().count(w[i]) > 0) by {
                    assert(u.contains(w[i])) by {
                        assert(u[i] == w[i]);
                    }
                }
                assert(u.to_multiset() == t.to_multiset().insert(x));
                if w[i] == x {
                    if T::precedes(s.last(), x) {
                        T::lemma_precedes_transitive(x, s.last(), x);
                        T::lemma_precedes_irreflexive(x);
                    }
                } else {
                    assert(t.to_multiset().count(w[i]) > 0);
                    assert(t.contains(w[i]));
                    let m = choose|m: int| 0 <= m < t.len() && t[m] == w[i];
                    assert(s[m] == w[i]);
                    assert(s[s.len() - 1] == s.last());
                    assert(!T::precedes(s[s.len() - 1], s[m]));
                }
                assert(w[j] == s.last());
            } else {
                assert(w[i] == u[i] && w[j] == u[j]);
            }
        }
    } else {
        let w = s.push(x);
        assert forall|i: int, j: int| 0 <= i < j < w.len() implies !T::precedes(
            #[trigger] w[j],
            #[trigger] w[i],
        ) by {
            if j == w.len() - 1 {
                assert(w[j] == x);
                if i < s.len() - 1 {
                    assert(!T::precedes(s[s.len() - 1], s[i]));
                    assert(s[s.len() - 1] == s.last());
                    assert(w[i] == s[i]);
                    T::lemma_not_precedes_transitive(x, s.last(), s[i]);
                } else {
                    assert(w[i] == s.last());
                }
            } else {
                assert(w[i] == s[i] && w[j] == s[j]);
            }
        }
    }
}

/// The stable sort puts its result in order and keeps every element, each
/// as often as it occurs.
pub proof fn lemma_stable_sorted_ranked<T: Ranked>(s: Seq<T::V>)
    ensures
        is_ranked::<T>(stable_sorted::<T>(s)),
        stable_sorted::<T>(s).to_multiset() == s.to_multiset(),
        stable_sorted::<T>(s).len() == s.len(),
    decreases s.len(),
{
    broadcast use vstd::seq_lib::group_to_multiset_ensures;

    if s.len() > 0 {
        lemma_stable_sorted_ranked::<T>(s.drop_last());
        lemma_insert_ranked_keeps_order::<T>(stable_sorted::<T>(s.drop_last()), s.last());
        assert(s == s.drop_last().push(s.last()));
    }
}

/// Neither comes before the other.
pub open spec fn equivalent<T: Ranked>(a: T::V, b: T::V) -> bool {
    !T::precedes(a, b) && !T::precedes(b, a)
}

/// The elements of `s` equivalent to `y`, in order.
pub open spec fn equivalents<T: Ranked>(s: Seq<T::V>, y: T::V) -> Seq<T::V>
    decreases s.len(),
{
    if s.len() == 0 {
        s
    } else if equivalent::<T>(s.last(), y) {
        equivalents::<T>(s.drop_last(), y).push(s.last())
    } else {
        equivalents::<T>(s.drop_last(), y)
    }
}

proof fn lemma_insert_keeps_equivalents<T: Ranked>(s: Seq<T::V>, x: T::V, y: T::V)
    ensures
        equivalents::<T>(insert_ranked::<T>(s, x), y) == (if equivalent::<T>(x, y) {
            equivalents::<T>(s, y).push(x)
        } else {
            equivalents::<T>(s, y)
        }),
    decreases s.len(),
{
    if s.len() > 0 && T::precedes(x, s.last()) {
        let t = s.drop_last();
        let l = s.last();
        lemma_insert_keeps_equivalents::<T>(t, x, y);
        assert(insert_ranked::<T>(s, x) == insert_ranked::<T>(t, x).push(l));
        assert(insert_ranked::<T>(s, x).drop_last() == insert_ranked::<T>(t, x));
        if equivalent::<T>(x, y) && equivalent::<T>(l, y) {
            T::lemma_not_precedes_transitive(x, y, l);
        }
    } else {
        assert(s.push(x).drop_last() == s);
    }
}

/// The stable sort keeps equivalent elements in the order they came in:
/// the elements equivalent to any `y` are the same, in the same order,
/// before and after sorting.
pub proof fn lemma_stable_sorted_keeps_equivalents<T: Ranked>(s: Seq<T::V>, y: T::V)
    ensures
        equivalents::<T>(stable_sorted::<T>(s), y) == equivalents::<T>(s, y),
    decreases s.len(),
{
    if s.len() > 0 {
        lemma_stable_sorted_keeps_equivalents::<T>(s.drop_last(), y);
        lemma_insert_keeps_equivalents::<T>(stable_sorted::<T>(s.drop_last()), s.last(), y);
    }
}

} // verus!
