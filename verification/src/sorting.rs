//! Stable sorting, stated over a total preorder: the sorted sequence is ordered,
//! and every group of elements that tie keeps the order it had in the input.
use vstd::prelude::*;

verus! {

broadcast use vstd::seq_lib::group_seq_properties;

/// `le` is total and transitive.
pub open spec fn total_preorder<T>(le: spec_fn(T, T) -> bool) -> bool {
    &&& forall|a: T, b: T| #[trigger] le(a, b) || le(b, a)
    &&& forall|a: T, b: T, c: T| #[trigger] le(a, b) && #[trigger] le(b, c) ==> le(a, c)
}

/// Every element comes no later than the elements after it.
pub open spec fn sorted_by<T>(s: Seq<T>, le: spec_fn(T, T) -> bool) -> bool {
    forall|i: int, j: int| 0 <= i < j < s.len() ==> #[trigger] le(s[i], s[j])
}

/// The elements of `s` that tie with `r` (neither must come before the other),
/// in their order in `s`.
pub open spec fn tie_class<T>(s: Seq<T>, le: spec_fn(T, T) -> bool, r: T) -> Seq<T> {
    s.filter(|x: T| le(x, r) && le(r, x))
}

/// `out` is `inp` sorted by `le`, where elements that tie keep their input order.
pub open spec fn is_stable_sort<T>(out: Seq<T>, inp: Seq<T>, le: spec_fn(T, T) -> bool) -> bool {
    &&& sorted_by(out, le)
    &&& forall|r: T| #[trigger] tie_class(out, le, r) == tie_class(inp, le, r)
}

/// The stable sort of `inp` by `le` (unique: see `lemma_stable_sort_unique`).
pub open spec fn stable_sorted<T>(inp: Seq<T>, le: spec_fn(T, T) -> bool) -> Seq<T> {
    choose|out: Seq<T>| is_stable_sort(out, inp, le)
}

proof fn lemma_filter_none<T>(s: Seq<T>, pred: spec_fn(T) -> bool)
    requires
        forall|k: int| 0 <= k < s.len() ==> !pred(#[trigger] s[k]),
    ensures
        s.filter(pred) == Seq::<T>::empty(),
    decreases s.len(),
{
    reveal(Seq::filter);
    if s.len() > 0 {
        lemma_filter_none(s.drop_last(), pred);
    }
}

proof fn lemma_filter_single<T>(x: T, pred: spec_fn(T) -> bool)
    ensures
        seq![x].filter(pred) == (if pred(x) { seq![x] } else { Seq::<T>::empty() }),
{
    reveal_with_fuel(Seq::filter, 2);
    assert(seq![x].drop_last() =~= Seq::<T>::empty());
}

/// Putting `x` just after the elements that come no later than it, into a stable sort
/// of `inp`, gives a stable sort of `inp` followed by `x`.
pub proof fn lemma_insert_after_ties<T>(
    out: Seq<T>,
    inp: Seq<T>,
    x: T,
    j: int,
    le: spec_fn(T, T) -> bool,
)
    requires
        total_preorder(le),
        is_stable_sort(out, inp, le),
        0 <= j <= out.len(),
        forall|k: int| 0 <= k < j ==> le(#[trigger] out[k], x),
        forall|k: int| j <= k < out.len() ==> !le(#[trigger] out[k], x),
    ensures
        is_stable_sort(out.insert(j, x), inp.push(x), le),
{
    let new = out.insert(j, x);
    let a = out.take(j);
    let b = out.skip(j);
    assert(out =~= a + b);
    assert(new =~= a + seq![x] + b);
    assert(inp.push(x) =~= inp + seq![x]);
    assert forall|p: int, q: int| 0 <= p < q < new.len() implies #[trigger] le(new[p], new[q]) by {
        if q < j {
            assert(le(out[p], out[q]));
        } else if q == j {
            assert(new[p] == out[p]);
        } else if p < j {
            assert(new[q] == out[q - 1]);
            assert(le(out[p], out[q - 1]));
        } else if p == j {
            assert(new[q] == out[q - 1]);
            assert(!le(out[q - 1], x));
            assert(le(out[q - 1], x) || le(x, out[q - 1]));
        } else {
            assert(le(out[p - 1], out[q - 1]));
        }
    }
    assert forall|r: T| #[trigger] tie_class(new, le, r) == tie_class(inp.push(x), le, r) by {
        let pred = |y: T| le(y, r) && le(r, y);
        Seq::filter_distributes_over_add(a + seq![x], b, pred);
        Seq::filter_distributes_over_add(a, seq![x], pred);
        Seq::filter_distributes_over_add(a, b, pred);
        Seq::filter_distributes_over_add(inp, seq![x], pred);
        lemma_filter_single(x, pred);
        if pred(x) {
            assert forall|k: int| 0 <= k < b.len() implies !pred(#[trigger] b[k]) by {
                assert(b[k] == out[j + k]);
                assert(!le(out[j + k], x));
                if pred(b[k]) {
                    assert(le(b[k], r) && le(r, x));
                }
            }
            lemma_filter_none(b, pred);
            assert(tie_class(new, le, r) =~= a.filter(pred) + seq![x] + b.filter(pred));
            assert(tie_class(out, le, r) =~= a.filter(pred) + b.filter(pred));
        } else {
            assert(tie_class(new, le, r) =~= a.filter(pred) + b.filter(pred));
        }
    }
}

proof fn lemma_filter_first<T>(s: Seq<T>, pred: spec_fn(T) -> bool)
    requires
        s.len() > 0,
    ensures
        s.filter(pred) == (if pred(s[0]) { seq![s[0]] } else { Seq::<T>::empty() }) + s.drop_first().filter(pred),
{
    assert(s =~= seq![s[0]] + s.drop_first());
    Seq::filter_distributes_over_add(seq![s[0]], s.drop_first(), pred);
    lemma_filter_single(s[0], pred);
}

/// A sequence has at most one stable sort by a total preorder.
pub proof fn lemma_stable_sort_unique<T>(o1: Seq<T>, o2: Seq<T>, inp: Seq<T>, le: spec_fn(T, T) -> bool)
    requires
        total_preorder(le),
        is_stable_sort(o1, inp, le),
        is_stable_sort(o2, inp, le),
    ensures
        o1 == o2,
{
    lemma_same_tie_classes_equal(o1, o2, le);
}

/// A stable sort of `inp` is the stable sort of `inp`.
pub proof fn lemma_is_stable_sorted<T>(out: Seq<T>, inp: Seq<T>, le: spec_fn(T, T) -> bool)
    requires
        total_preorder(le),
        is_stable_sort(out, inp, le),
    ensures
        out == stable_sorted(inp, le),
{
    let c = stable_sorted(inp, le);
    assert(is_stable_sort(c, inp, le));
    lemma_stable_sort_unique(out, c, inp, le);
}

/// The empty sequence is its own stable sort.
pub proof fn lemma_stable_sort_empty<T>(le: spec_fn(T, T) -> bool)
    ensures
        is_stable_sort(Seq::<T>::empty(), Seq::<T>::empty(), le),
{
}

proof fn lemma_same_tie_classes_equal<T>(o1: Seq<T>, o2: Seq<T>, le: spec_fn(T, T) -> bool)
    requires
        total_preorder(le),
        sorted_by(o1, le),
        sorted_by(o2, le),
        forall|r: T| #[trigger] tie_class(o1, le, r) == tie_class(o2, le, r),
    ensures
        o1 == o2,
    decreases o1.len() + o2.len(),
{
    if o1.len() == 0 && o2.len() == 0 {
        assert(o1 =~= o2);
    } else if o1.len() == 0 || o2.len() == 0 {
        // the first element of the nonempty one lies in its own tie class
        let (s, t) = if o1.len() == 0 { (o2, o1) } else { (o1, o2) };
        let r = s[0];
        let pred = |y: T| le(y, r) && le(r, y);
        assert(le(r, r) || le(r, r));
        lemma_filter_first(s, pred);
        assert(tie_class(s, le, r).len() > 0);
        assert(t =~= Seq::<T>::empty());
        lemma_filter_none(t, pred);
        assert(tie_class(s, le, r) == tie_class(t, le, r));
    } else {
        let x1 = o1[0];
        let x2 = o2[0];
        let p1 = |y: T| le(y, x1) && le(x1, y);
        let p2 = |y: T| le(y, x2) && le(x2, y);
        assert(le(x1, x1) || le(x1, x1));
        assert(le(x2, x2) || le(x2, x2));
        lemma_filter_first(o1, p1);
        lemma_filter_first(o2, p2);
        // x1 lies in o2's class of x1, so some element of o2 ties with x1
        assert(tie_class(o1, le, x1).contains(x1)) by {
            assert(tie_class(o1, le, x1)[0] == x1);
        }
        assert(tie_class(o2, le, x1).contains(x1));
        let k1 = choose|k: int| 0 <= k < tie_class(o2, le, x1).len() && tie_class(o2, le, x1)[k] == x1;
        o2.lemma_filter_pred(p1, k1);
        assert(o2.filter(p1).contains(x1));
        assert(exists|k: int| 0 <= k < o2.len() && o2[k] == x1) by {
            lemma_filter_member(o2, p1, x1);
        }
        let m2 = choose|k: int| 0 <= k < o2.len() && o2[k] == x1;
        assert(le(x2, x1)) by {
            if m2 > 0 {
                assert(le(o2[0], o2[m2]));
            }
        }
        assert(tie_class(o2, le, x2).contains(x2)) by {
            assert(tie_class(o2, le, x2)[0] == x2);
        }
        assert(tie_class(o1, le, x2).contains(x2));
        assert(exists|k: int| 0 <= k < o1.len() && o1[k] == x2) by {
            lemma_filter_member(o1, p2, x2);
        }
        let m1 = choose|k: int| 0 <= k < o1.len() && o1[k] == x2;
        assert(le(x1, x2)) by {
            if m1 > 0 {
                assert(le(o1[0], o1[m1]));
            }
        }
        // x1 and x2 tie, so both classes of x1 begin with them
        assert(p1(x2));
        assert(tie_class(o2, le, x1)[0] == x2) by {
            lemma_filter_first(o2, p1);
        }
        assert(x1 == x2);
        let t1 = o1.drop_first();
        let t2 = o2.drop_first();
        assert forall|i: int, j: int| 0 <= i < j < t1.len() implies #[trigger] le(t1[i], t1[j]) by {
            assert(le(o1[i + 1], o1[j + 1]));
        }
        assert forall|i: int, j: int| 0 <= i < j < t2.len() implies #[trigger] le(t2[i], t2[j]) by {
            assert(le(o2[i + 1], o2[j + 1]));
        }
        assert forall|r: T| #[trigger] tie_class(t1, le, r) == tie_class(t2, le, r) by {
            let pr = |y: T| le(y, r) && le(r, y);
            lemma_filter_first(o1, pr);
            lemma_filter_first(o2, pr);
            assert(tie_class(o1, le, r) == tie_class(o2, le, r));
            if pr(x1) {
                assert(tie_class(t1, le, r) =~= tie_class(o1, le, r).drop_first());
                assert(tie_class(t2, le, r) =~= tie_class(o2, le, r).drop_first());
            } else {
                assert(tie_class(t1, le, r) =~= tie_class(o1, le, r));
                assert(tie_class(t2, le, r) =~= tie_class(o2, le, r));
            }
        }
        lemma_same_tie_classes_equal(t1, t2, le);
        assert(o1 =~= seq![x1] + t1);
        assert(o2 =~= seq![x2] + t2);
    }
}

proof fn lemma_filter_member<T>(s: Seq<T>, pred: spec_fn(T) -> bool, x: T)
    requires
        s.filter(pred).contains(x),
    ensures
        exists|k: int| 0 <= k < s.len() && s[k] == x,
    decreases s.len(),
{
    reveal(Seq::filter);
    if s.len() == 0 {
        assert(s.filter(pred) =~= Seq::<T>::empty());
    } else {
        let rest = s.drop_last().filter(pred);
        if pred(s.last()) && x == s.last() {
            assert(s[s.len() - 1] == x);
        } else {
            if pred(s.last()) {
                assert(s.filter(pred) == rest.push(s.last()));
                let k = choose|k: int| 0 <= k < s.filter(pred).len() && s.filter(pred)[k] == x;
                assert(k < rest.len());
                assert(rest[k] == x);
            }
            assert(rest.contains(x));
            lemma_filter_member(s.drop_last(), pred, x);
            let k = choose|k: int| 0 <= k < s.drop_last().len() && s.drop_last()[k] == x;
            assert(s[k] == x);
        }
    }
}

/// In a sorted sequence, the elements that come no later than `x` form a prefix:
/// returns where it ends.
pub proof fn lemma_insert_position<T>(out: Seq<T>, x: T, le: spec_fn(T, T) -> bool) -> (j: int)
    requires
        total_preorder(le),
        sorted_by(out, le),
    ensures
        0 <= j <= out.len(),
        forall|k: int| 0 <= k < j ==> le(#[trigger] out[k], x),
        forall|k: int| j <= k < out.len() ==> !le(#[trigger] out[k], x),
    decreases out.len(),
{
    if out.len() == 0 {
        0
    } else if le(out.last(), x) {
        assert forall|k: int| 0 <= k < out.len() implies le(#[trigger] out[k], x) by {
            if k < out.len() - 1 {
                assert(le(out[k], out[out.len() - 1]));
            }
        }
        out.len() as int
    } else {
        let front = out.drop_last();
        assert forall|p: int, q: int| 0 <= p < q < front.len() implies #[trigger] le(front[p], front[q]) by {
            assert(le(out[p], out[q]));
        }
        let j = lemma_insert_position(front, x, le);
        assert forall|k: int| j <= k < out.len() implies !le(#[trigger] out[k], x) by {
            if k < out.len() - 1 {
                assert(front[k] == out[k]);
            }
        }
        assert forall|k: int| 0 <= k < j implies le(#[trigger] out[k], x) by {
            assert(front[k] == out[k]);
        }
        j
    }
}

/// A stable sort of `inp`, built by inserting its elements one by one.
pub proof fn lemma_stable_sort_witness<T>(inp: Seq<T>, le: spec_fn(T, T) -> bool) -> (out: Seq<T>)
    requires
        total_preorder(le),
    ensures
        is_stable_sort(out, inp, le),
    decreases inp.len(),
{
    if inp.len() == 0 {
        lemma_stable_sort_empty(le);
        assert(inp =~= Seq::<T>::empty());
        Seq::empty()
    } else {
        let front = inp.drop_last();
        let x = inp.last();
        let o = lemma_stable_sort_witness(front, le);
        let j = lemma_insert_position(o, x, le);
        lemma_insert_after_ties(o, front, x, j, le);
        assert(front.push(x) =~= inp);
        o.insert(j, x)
    }
}

/// Every sequence has a stable sort by a total preorder, so `stable_sorted`
/// is one.
pub proof fn lemma_stable_sorted_is_stable_sort<T>(inp: Seq<T>, le: spec_fn(T, T) -> bool)
    requires
        total_preorder(le),
    ensures
        is_stable_sort(stable_sorted(inp, le), inp, le),
{
    let w = lemma_stable_sort_witness(inp, le);
    assert(is_stable_sort(w, inp, le));
}

/// A sequence in which every two elements tie is its own stable sort.
pub proof fn lemma_all_ties_stable_sorted<T>(s: Seq<T>, le: spec_fn(T, T) -> bool)
    requires
        total_preorder(le),
        forall|i: int, j: int| 0 <= i < s.len() && 0 <= j < s.len() ==> le(s[i], s[j]),
    ensures
        stable_sorted(s, le) == s,
{
    assert(is_stable_sort(s, s, le));
    lemma_is_stable_sorted(s, s, le);
}

/// A stable sort holds the same elements as its input.
pub proof fn lemma_stable_sort_same_elements<T>(out: Seq<T>, inp: Seq<T>, le: spec_fn(T, T) -> bool, x: T)
    requires
        total_preorder(le),
        is_stable_sort(out, inp, le),
    ensures
        out.contains(x) <==> inp.contains(x),
{
    let pred = |y: T| le(y, x) && le(x, y);
    assert(le(x, x) || le(x, x));
    assert(tie_class(out, le, x) == tie_class(inp, le, x));
    if out.contains(x) {
        let k = choose|k: int| 0 <= k < out.len() && out[k] == x;
        out.lemma_filter_contains(pred, k);
        assert(tie_class(inp, le, x).contains(x));
        lemma_filter_member(inp, pred, x);
    }
    if inp.contains(x) {
        let k = choose|k: int| 0 <= k < inp.len() && inp[k] == x;
        inp.lemma_filter_contains(pred, k);
        assert(tie_class(out, le, x).contains(x));
        lemma_filter_member(out, pred, x);
    }
}

} // verus!
