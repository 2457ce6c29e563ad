//! Selecting from sequences, as the node's tables and queries need.

use vstd::prelude::*;

verus! {

/// The elements of `s` that satisfy `pred`, in their order in `s`.
pub open spec fn keep<T>(s: Seq<T>, pred: spec_fn(T) -> bool) -> Seq<T>
    decreases s.len(),
{
    if s.len() == 0 {
        Seq::empty()
    } else {
        let rest = keep(s.drop_last(), pred);
        if pred(s.last()) {
            rest.push(s.last())
        } else {
            rest
        }
    }
}

/// The first `n` elements of `s`, or all of them when there are fewer.
pub open spec fn at_most<T>(s: Seq<T>, n: int) -> Seq<T> {
    if n < s.len() {
        s.take(n)
    } else {
        s
    }
}

/// `s` in reverse order.
pub open spec fn reversed<T>(s: Seq<T>) -> Seq<T> {
    Seq::new(s.len(), |i: int| s[s.len() - 1 - i])
}

/// One more element looked at: `keep` of a longer prefix.
pub proof fn lemma_keep_step<T>(s: Seq<T>, pred: spec_fn(T) -> bool, i: int)
    requires
        0 <= i < s.len(),
    ensures
        keep(s.take(i + 1), pred) == if pred(s[i]) {
            keep(s.take(i), pred).push(s[i])
        } else {
            keep(s.take(i), pred)
        },
{
    assert(s.take(i + 1).drop_last() =~= s.take(i));
    assert(s.take(i + 1).last() == s[i]);
}

/// `keep` over the whole sequence, as the last step of a loop over its prefixes.
pub proof fn lemma_keep_all<T>(s: Seq<T>, pred: spec_fn(T) -> bool)
    ensures
        keep(s.take(s.len() as int), pred) == keep(s, pred),
{
    assert(s.take(s.len() as int) =~= s);
}

/// Everything kept is an element of `s` that satisfies `pred`, and every such element is kept.
pub proof fn lemma_keep_members<T>(s: Seq<T>, pred: spec_fn(T) -> bool)
    ensures
        forall|x: T| #[trigger] keep(s, pred).contains(x) <==> s.contains(x) && pred(x),
        keep(s, pred).len() <= s.len(),
    decreases s.len(),
{
    if s.len() > 0 {
        let d = s.drop_last();
        lemma_keep_members(d, pred);
        assert forall|x: T| #[trigger] keep(s, pred).contains(x) <==> s.contains(x) && pred(x) by {
            if s.contains(x) && pred(x) {
                let j = choose|j: int| 0 <= j < s.len() && s[j] == x;
                if j < s.len() - 1 {
                    assert(d[j] == x);
                    assert(d.contains(x));
                    assert(keep(d, pred).contains(x));
                    let k = choose|k: int| 0 <= k < keep(d, pred).len() && keep(d, pred)[k] == x;
                    if pred(s.last()) {
                        assert(keep(s, pred) == keep(d, pred).push(s.last()));
                        assert(keep(s, pred)[k] == x);
                    } else {
                        assert(keep(s, pred) == keep(d, pred));
                    }
                } else {
                    assert(keep(s, pred).last() == x);
                }
            }
            if keep(s, pred).contains(x) {
                let k = choose|k: int| 0 <= k < keep(s, pred).len() && keep(s, pred)[k] == x;
                if pred(s.last()) && k == keep(s, pred).len() - 1 {
                    assert(s[s.len() - 1] == x);
                } else {
                    assert(keep(d, pred)[k] == x);
                    assert(keep(d, pred).contains(x));
                    let j = choose|j: int| 0 <= j < d.len() && d[j] == x;
                    assert(s[j] == x);
                }
            }
        }
    }
}

/// Dropping elements keeps distinct elements distinct.
pub proof fn lemma_keep_no_duplicates<T>(s: Seq<T>, pred: spec_fn(T) -> bool)
    requires
        s.no_duplicates(),
    ensures
        keep(s, pred).no_duplicates(),
    decreases s.len(),
{
    if s.len() > 0 {
        let d = s.drop_last();
        assert(d.no_duplicates());
        lemma_keep_no_duplicates(d, pred);
        if pred(s.last()) {
            lemma_keep_members(d, pred);
            assert(!d.contains(s.last()));
            assert(!keep(d, pred).contains(s.last()));
        }
    }
}

/// The elements in `keep(s, pred)` are those of `s` whose image satisfies a property, in
/// the same relative order: any relation that holds between earlier and later elements of
/// `s` holds between earlier and later kept elements.
pub proof fn lemma_keep_ordered<T>(s: Seq<T>, pred: spec_fn(T) -> bool, before: spec_fn(T, T) -> bool)
    requires
        forall|i: int, j: int| 0 <= i < j < s.len() ==> before(#[trigger] s[i], #[trigger] s[j]),
    ensures
        forall|i: int, j: int|
            0 <= i < j < keep(s, pred).len() ==> before(
                #[trigger] keep(s, pred)[i],
                #[trigger] keep(s, pred)[j],
            ),
    decreases s.len(),
{
    if s.len() > 0 {
        let d = s.drop_last();
        assert forall|i: int, j: int| 0 <= i < j < d.len() implies before(#[trigger] d[i], #[trigger] d[j]) by {
            assert(d[i] == s[i] && d[j] == s[j]);
        }
        lemma_keep_ordered(d, pred, before);
        if pred(s.last()) {
            lemma_keep_members(d, pred);
            let r = keep(d, pred);
            assert forall|i: int, j: int| 0 <= i < j < keep(s, pred).len() implies before(
                #[trigger] keep(s, pred)[i],
                #[trigger] keep(s, pred)[j],
            ) by {
                if j == r.len() {
                    assert(r.contains(r[i]));
                    let k = choose|k: int| 0 <= k < d.len() && d[k] == r[i];
                    assert(s[k] == r[i]);
                    assert(s[s.len() - 1] == s.last());
                    assert(before(s[k], s[s.len() - 1]));
                } else {
                    assert(keep(s, pred)[i] == r[i]);
                    assert(keep(s, pred)[j] == r[j]);
                }
            }
        }
    }
}

/// An element that `pred` keeps lands in `keep(s, pred)` at the place given by how many
/// elements before it are kept.
pub proof fn lemma_keep_position<T>(s: Seq<T>, pred: spec_fn(T) -> bool, i: int)
    requires
        0 <= i < s.len(),
        pred(s[i]),
    ensures
        keep(s.take(i), pred).len() < keep(s, pred).len(),
        keep(s, pred)[keep(s.take(i), pred).len() as int] == s[i],
    decreases s.len(),
{
    let d = s.drop_last();
    if i == s.len() - 1 {
        assert(s.take(i) =~= d);
        assert(s.last() == s[i]);
    } else {
        assert(d.take(i) =~= s.take(i));
        assert(d[i] == s[i]);
        lemma_keep_position(d, pred, i);
    }
}

/// Every element of `keep(s, pred)` comes from a place of `s` whose element `pred` keeps,
/// with as many kept elements before it as its own place in the result.
pub proof fn lemma_keep_origin<T>(s: Seq<T>, pred: spec_fn(T) -> bool, k: int) -> (i: int)
    requires
        0 <= k < keep(s, pred).len(),
    ensures
        0 <= i < s.len(),
        pred(s[i]),
        keep(s.take(i), pred).len() == k,
        s[i] == keep(s, pred)[k],
    decreases s.len(),
{
    let d = s.drop_last();
    if pred(s.last()) && k == keep(d, pred).len() {
        let i = s.len() - 1;
        assert(s.take(i) =~= d);
        i
    } else {
        let i = lemma_keep_origin(d, pred, k);
        assert(d.take(i) =~= s.take(i));
        assert(d[i] == s[i]);
        i
    }
}

/// When every element satisfies `pred`, `keep` leaves the sequence whole.
pub proof fn lemma_keep_all_kept<T>(s: Seq<T>, pred: spec_fn(T) -> bool)
    requires
        forall|x: T| s.contains(x) ==> pred(x),
    ensures
        keep(s, pred) == s,
    decreases s.len(),
{
    if s.len() > 0 {
        let d = s.drop_last();
        assert forall|x: T| d.contains(x) implies pred(x) by {
            let j = choose|j: int| 0 <= j < d.len() && d[j] == x;
            assert(s[j] == x);
            assert(s.contains(x));
        }
        lemma_keep_all_kept(d, pred);
        assert(s.contains(s.last())) by {
            assert(s[s.len() - 1] == s.last());
        }
        assert(d.push(s.last()) =~= s);
    }
}

/// Selecting elements keeps distinct keys distinct: when no two elements of `s` share a
/// key, no two kept elements do.
pub proof fn lemma_keep_distinct_keys<T, K>(s: Seq<T>, pred: spec_fn(T) -> bool, key: spec_fn(T) -> K)
    requires
        forall|i: int, j: int| 0 <= i < s.len() && 0 <= j < s.len() && i != j ==> key(#[trigger] s[i]) != key(#[trigger] s[j]),
    ensures
        forall|i: int, j: int|
            0 <= i < keep(s, pred).len() && 0 <= j < keep(s, pred).len() && i != j ==> key(#[trigger] keep(s, pred)[i])
                != key(#[trigger] keep(s, pred)[j]),
{
    let differs = |a: T, b: T| key(a) != key(b);
    let differs_back = |a: T, b: T| key(b) != key(a);
    assert forall|i: int, j: int| 0 <= i < j < s.len() implies differs(#[trigger] s[i], #[trigger] s[j]) by {}
    assert forall|i: int, j: int| 0 <= i < j < s.len() implies differs_back(#[trigger] s[i], #[trigger] s[j]) by {}
    lemma_keep_ordered(s, pred, differs);
    lemma_keep_ordered(s, pred, differs_back);
    let k = keep(s, pred);
    assert forall|i: int, j: int| 0 <= i < k.len() && 0 <= j < k.len() && i != j implies key(#[trigger] k[i]) != key(
        #[trigger] k[j],
    ) by {
        if i < j {
            assert(differs(k[i], k[j]));
        } else {
            assert(differs_back(k[j], k[i]));
        }
    }
}

} // verus!
