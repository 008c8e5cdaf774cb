use vstd::prelude::*;

verus! {

/// `ord` is the three-way comparison of a total preorder: -1, 0 or 1, swapping the
/// arguments negates it, it is transitive, and values that tie compare alike to
/// everything else.
pub open spec fn is_preorder<T>(ord: spec_fn(T, T) -> int) -> bool {
    &&& forall|x: T, y: T| #[trigger] ord(x, y) == -ord(y, x)
    &&& forall|x: T, y: T| -1 <= #[trigger] ord(x, y) <= 1
    &&& forall|x: T, y: T, z: T|
        #![trigger ord(x, y), ord(y, z)]
        ord(x, y) <= 0 && ord(y, z) <= 0 ==> ord(x, z) <= 0
    &&& forall|x: T, y: T, z: T|
        #![trigger ord(x, y), ord(x, z)]
        ord(x, y) == 0 ==> ord(x, z) == ord(y, z)
}

/// Every element comes no later than the ones after it.
pub open spec fn sorted_by_order<T>(s: Seq<T>, ord: spec_fn(T, T) -> int) -> bool {
    forall|i: int, j: int| 0 <= i < j < s.len() ==> ord(#[trigger] s[i], #[trigger] s[j]) <= 0
}

/// The elements of `s` that tie with `x`, in the order in which `s` holds them.
pub open spec fn ties<T>(s: Seq<T>, x: T, ord: spec_fn(T, T) -> int) -> Seq<T>
    decreases s.len(),
{
    if s.len() == 0 {
        seq![]
    } else if ord(s.last(), x) == 0 {
        ties(s.drop_last(), x, ord).push(s.last())
    } else {
        ties(s.drop_last(), x, ord)
    }
}

/// The sum of `weight` over the elements of `s`.
pub open spec fn seq_sum<T>(s: Seq<T>, weight: spec_fn(T) -> int) -> int
    decreases s.len(),
{
    if s.len() == 0 {
        0
    } else {
        seq_sum(s.drop_last(), weight) + weight(s.last())
    }
}

/// `new` is what a stable sort makes of `old`: it is sorted, and the elements that
/// tie with any given value come in the order that `old` had them. This pins
/// `new` down: it is `old` with its tie classes laid out in order.
pub open spec fn is_stable_sort<T>(old: Seq<T>, new: Seq<T>, ord: spec_fn(T, T) -> int) -> bool {
    &&& new.len() == old.len()
    &&& sorted_by_order(new, ord)
    &&& forall|x: T| #[trigger] ties(new, x, ord) == ties(old, x, ord)
}

pub proof fn lemma_ties_add<T>(a: Seq<T>, b: Seq<T>, x: T, ord: spec_fn(T, T) -> int)
    ensures
        ties(a + b, x, ord) == ties(a, x, ord) + ties(b, x, ord),
    decreases b.len(),
{
    if b.len() == 0 {
        assert(a + b =~= a);
        assert(ties(b, x, ord) =~= Seq::<T>::empty());
        assert(ties(a, x, ord) + ties(b, x, ord) =~= ties(a, x, ord));
    } else {
        assert((a + b).drop_last() =~= a + b.drop_last());
        assert((a + b).last() == b.last());
        lemma_ties_add(a, b.drop_last(), x, ord);
        if ord(b.last(), x) == 0 {
            assert(ties(a, x, ord) + ties(b, x, ord) =~= (ties(a, x, ord) + ties(b.drop_last(), x, ord)).push(b.last()));
        }
    }
}

pub proof fn lemma_sum_add<T>(a: Seq<T>, b: Seq<T>, weight: spec_fn(T) -> int)
    ensures
        seq_sum(a + b, weight) == seq_sum(a, weight) + seq_sum(b, weight),
    decreases b.len(),
{
    if b.len() == 0 {
        assert(a + b =~= a);
    } else {
        assert((a + b).drop_last() =~= a + b.drop_last());
        lemma_sum_add(a, b.drop_last(), weight);
    }
}

pub proof fn lemma_ties_none<T>(s: Seq<T>, x: T, ord: spec_fn(T, T) -> int)
    requires
        forall|j: int| 0 <= j < s.len() ==> ord(#[trigger] s[j], x) != 0,
    ensures
        ties(s, x, ord) =~= Seq::<T>::empty(),
    decreases s.len(),
{
    if s.len() > 0 {
        assert(ord(s[s.len() - 1], x) != 0);
        lemma_ties_none(s.drop_last(), x, ord);
    }
}

proof fn lemma_insert_step<T>(
    s: Seq<T>,
    pos: int,
    x: T,
    ord: spec_fn(T, T) -> int,
    weight: spec_fn(T) -> int,
)
    requires
        is_preorder(ord),
        sorted_by_order(s, ord),
        0 <= pos <= s.len(),
        forall|j: int| 0 <= j < pos ==> ord(x, #[trigger] s[j]) >= 0,
        forall|j: int| pos <= j < s.len() ==> ord(x, #[trigger] s[j]) < 0,
    ensures
        sorted_by_order(s.insert(pos, x), ord),
        forall|y: T|
            #[trigger] ties(s.insert(pos, x), y, ord) == if ord(x, y) == 0 {
                ties(s, y, ord).push(x)
            } else {
                ties(s, y, ord)
            },
        seq_sum(s.insert(pos, x), weight) == seq_sum(s, weight) + weight(x),
{
    let pre = s.subrange(0, pos);
    let suf = s.subrange(pos, s.len() as int);
    let t = s.insert(pos, x);
    assert(t =~= pre + seq![x] + suf);
    assert(s =~= pre + suf);
    assert forall|i: int, j: int| 0 <= i < j < t.len() implies ord(#[trigger] t[i], #[trigger] t[j]) <= 0 by {
        if j < pos {
            assert(t[i] == s[i] && t[j] == s[j]);
        } else if j == pos {
            assert(t[j] == x && t[i] == s[i]);
            assert(ord(x, s[i]) >= 0);
            assert(ord(s[i], x) == -ord(x, s[i]));
        } else if i == pos {
            assert(t[i] == x && t[j] == s[j - 1]);
        } else if i < pos {
            assert(t[i] == s[i] && t[j] == s[j - 1]);
        } else {
            assert(t[i] == s[i - 1] && t[j] == s[j - 1]);
        }
    }
    assert forall|y: T|
        #[trigger] ties(t, y, ord) == if ord(x, y) == 0 {
            ties(s, y, ord).push(x)
        } else {
            ties(s, y, ord)
        } by {
        lemma_ties_add(pre + seq![x], suf, y, ord);
        lemma_ties_add(pre, seq![x], y, ord);
        lemma_ties_add(pre, suf, y, ord);
        assert(seq![x].drop_last() =~= Seq::<T>::empty());
        assert(ties(Seq::<T>::empty(), y, ord) =~= Seq::<T>::empty());
        if ord(x, y) == 0 {
            assert forall|j: int| 0 <= j < suf.len() implies ord(#[trigger] suf[j], y) != 0 by {
                assert(suf[j] == s[pos + j]);
                assert(ord(x, s[pos + j]) < 0);
                assert(ord(x, s[pos + j]) == ord(y, s[pos + j]));
                assert(ord(s[pos + j], y) == -ord(y, s[pos + j]));
            }
            lemma_ties_none(suf, y, ord);
            assert(ties(seq![x], y, ord) =~= seq![x]);
            assert(ties(t, y, ord) =~= ties(s, y, ord).push(x));
        } else {
            assert(ord(x, y) != 0);
            assert(ties(seq![x], y, ord) =~= Seq::<T>::empty());
            assert(ties(t, y, ord) =~= ties(s, y, ord));
        }
    }
    lemma_sum_add(pre + seq![x], suf, weight);
    lemma_sum_add(pre, seq![x], weight);
    lemma_sum_add(pre, suf, weight);
    assert(seq![x].drop_last() =~= Seq::<T>::empty());
    assert(seq_sum(Seq::<T>::empty(), weight) == 0);
    assert(seq_sum(seq![x], weight) == weight(x));
    assert(seq_sum(t, weight) == seq_sum(pre + seq![x], weight) + seq_sum(suf, weight));
}

/// Replacing one element changes the sum by the difference of the weights.
pub proof fn lemma_sum_update<T>(s: Seq<T>, i: int, x: T, weight: spec_fn(T) -> int)
    requires
        0 <= i < s.len(),
    ensures
        seq_sum(s.update(i, x), weight) == seq_sum(s, weight) - weight(s[i]) + weight(x),
{
    let pre = s.subrange(0, i);
    let suf = s.subrange(i + 1, s.len() as int);
    assert(s =~= pre + seq![s[i]] + suf);
    assert(s.update(i, x) =~= pre + seq![x] + suf);
    lemma_sum_add(pre + seq![s[i]], suf, weight);
    lemma_sum_add(pre, seq![s[i]], weight);
    lemma_sum_add(pre + seq![x], suf, weight);
    lemma_sum_add(pre, seq![x], weight);
    assert(seq![x].drop_last() =~= Seq::<T>::empty());
    assert(seq![s[i]].drop_last() =~= Seq::<T>::empty());
    assert(seq_sum(Seq::<T>::empty(), weight) == 0);
    assert(seq![x].last() == x);
    assert(seq_sum(seq![x], weight) == weight(x));
    assert(seq_sum(seq![s[i]], weight) == weight(s[i]));
}

/// A sum of non-negative weights is at least each of them.
pub proof fn lemma_sum_ge_elem<T>(s: Seq<T>, i: int, weight: spec_fn(T) -> int)
    requires
        0 <= i < s.len(),
        forall|x: T| #[trigger] weight(x) >= 0,
    ensures
        seq_sum(s, weight) >= weight(s[i]),
        seq_sum(s, weight) >= 0,
    decreases s.len(),
{
    lemma_sum_nonneg(s.drop_last(), weight);
    if i < s.len() - 1 {
        lemma_sum_ge_elem(s.drop_last(), i, weight);
        assert(s.drop_last()[i] == s[i]);
    }
}

pub proof fn lemma_sum_nonneg<T>(s: Seq<T>, weight: spec_fn(T) -> int)
    requires
        forall|x: T| #[trigger] weight(x) >= 0,
    ensures
        seq_sum(s, weight) >= 0,
    decreases s.len(),
{
    if s.len() > 0 {
        lemma_sum_nonneg(s.drop_last(), weight);
    }
}

/// Sorts `v` stably by the order that `compare` computes (insertion sort).
pub fn stable_sort<T, F: Fn(&T, &T) -> i8>(
    v: Vec<T>,
    compare: F,
    Ghost(ord): Ghost<spec_fn(T, T) -> int>,
    Ghost(weight): Ghost<spec_fn(T) -> int>,
) -> (res: Vec<T>)
    requires
        is_preorder(ord),
        forall|a: &T, b: &T| #[trigger] compare.requires((a, b)),
        forall|a: &T, b: &T, r: i8| compare.ensures((a, b), r) ==> r == ord(*a, *b),
    ensures
        is_stable_sort(v@, res@, ord),
        seq_sum(res@, weight) == seq_sum(v@, weight),
{
    let ghost orig = v@;
    let mut src = v;
    let mut out: Vec<T> = Vec::new();
    let ghost mut k: int = 0;
    assert(orig.take(0) =~= Seq::<T>::empty());
    assert(orig.skip(0) =~= orig);
    while src.len() > 0
        invariant
            is_preorder(ord),
            forall|a: &T, b: &T| #[trigger] compare.requires((a, b)),
            forall|a: &T, b: &T, r: i8| compare.ensures((a, b), r) ==> r == ord(*a, *b),
            0 <= k <= orig.len(),
            src@ == orig.skip(k),
            out@.len() == k,
            sorted_by_order(out@, ord),
            forall|y: T| #[trigger] ties(out@, y, ord) == ties(orig.take(k), y, ord),
            seq_sum(out@, weight) == seq_sum(orig.take(k), weight),
        decreases src@.len(),
    {
        let x = src.remove(0);
        let mut pos: usize = 0;
        while pos < out.len() && compare(&x, &out[pos]) >= 0
            invariant
                forall|a: &T, b: &T| #[trigger] compare.requires((a, b)),
                forall|a: &T, b: &T, r: i8| compare.ensures((a, b), r) ==> r == ord(*a, *b),
                pos <= out@.len(),
                forall|j: int| 0 <= j < pos ==> ord(x, #[trigger] out@[j]) >= 0,
            decreases out@.len() - pos,
        {
            pos = pos + 1;
        }
        proof {
            if pos < out@.len() {
                assert(ord(x, out@[pos as int]) < 0);
                assert forall|j: int| pos <= j < out@.len() implies ord(x, #[trigger] out@[j]) < 0 by {
                    if j > pos {
                        assert(ord(out@[pos as int], out@[j]) <= 0);
                        assert(ord(x, out@[pos as int]) <= 0 && ord(out@[pos as int], out@[j]) <= 0);
                        if ord(x, out@[j]) == 0 {
                            assert(ord(x, out@[pos as int]) == ord(out@[j], out@[pos as int]));
                            assert(ord(out@[j], out@[pos as int]) == -ord(out@[pos as int], out@[j]));
                        }
                    }
                }
            }
            lemma_insert_step(out@, pos as int, x, ord, weight);
            assert(orig.take(k + 1).drop_last() =~= orig.take(k));
            assert(orig.take(k + 1).last() == x);
            assert(orig.skip(k + 1) =~= orig.skip(k).drop_first());
        }
        out.insert(pos, x);
        proof {
            k = k + 1;
        }
    }
    assert(orig.take(k) =~= orig);
    out
}

/// A value ties with itself under a preorder.
pub proof fn lemma_preorder_reflexive<T>(ord: spec_fn(T, T) -> int, y: T)
    requires
        is_preorder(ord),
    ensures
        ord(y, y) == 0,
{
    assert(ord(y, y) == -ord(y, y));
}

/// Every occurrence of `y` in `s` is among the elements that tie with `y`.
proof fn lemma_count_in_ties<T>(s: Seq<T>, y: T, ord: spec_fn(T, T) -> int)
    requires
        ord(y, y) == 0,
    ensures
        s.to_multiset().count(y) == ties(s, y, ord).to_multiset().count(y),
    decreases s.len(),
{
    broadcast use vstd::seq_lib::group_to_multiset_ensures;

    if s.len() == 0 {
        assert(ties(s, y, ord) =~= Seq::<T>::empty());
    } else {
        let rest = s.drop_last();
        lemma_count_in_ties(rest, y, ord);
        assert(s =~= rest.push(s.last()));
        if ord(s.last(), y) == 0 {
            assert(ties(s, y, ord) == ties(rest, y, ord).push(s.last()));
        } else {
            assert(s.last() != y);
        }
    }
}

/// A stable sort loses and adds nothing: the sorted sequence holds each value as
/// many times as the input.
pub proof fn law_stable_sort_permutes<T>(old: Seq<T>, new: Seq<T>, ord: spec_fn(T, T) -> int)
    requires
        is_preorder(ord),
        is_stable_sort(old, new, ord),
    ensures
        new.to_multiset() == old.to_multiset(),
{
    assert forall|y: T| new.to_multiset().count(y) == old.to_multiset().count(y) by {
        lemma_preorder_reflexive(ord, y);
        lemma_count_in_ties(new, y, ord);
        lemma_count_in_ties(old, y, ord);
        assert(ties(new, y, ord) == ties(old, y, ord));
    }
    assert(new.to_multiset() =~= old.to_multiset());
}

proof fn lemma_sorted_same_ties_equal<T>(a: Seq<T>, b: Seq<T>, ord: spec_fn(T, T) -> int)
    requires
        is_preorder(ord),
        a.len() == b.len(),
        sorted_by_order(a, ord),
        sorted_by_order(b, ord),
        forall|z: T| #[trigger] ties(a, z, ord) == ties(b, z, ord),
    ensures
        a == b,
    decreases a.len(),
{
    broadcast use vstd::seq_lib::group_to_multiset_ensures;

    if a.len() == 0 {
        assert(a =~= b);
    } else {
        let n = a.len() - 1;
        let x = a.last();
        let y = b.last();
        lemma_preorder_reflexive(ord, x);
        lemma_preorder_reflexive(ord, y);
        // Both ends hold the same count of each value, so each end value occurs in the other.
        lemma_count_in_ties(a, y, ord);
        lemma_count_in_ties(b, y, ord);
        lemma_count_in_ties(a, x, ord);
        lemma_count_in_ties(b, x, ord);
        assert(ties(a, y, ord) == ties(b, y, ord));
        assert(ties(a, x, ord) == ties(b, x, ord));
        assert(b.contains(y)) by {
            assert(b[n] == y);
        }
        assert(a.contains(x)) by {
            assert(a[n] == x);
        }
        assert(a.contains(y));
        assert(b.contains(x));
        let j = choose|j: int| 0 <= j < a.len() && a[j] == y;
        let k = choose|k: int| 0 <= k < b.len() && b[k] == x;
        assert(ord(y, x) <= 0) by {
            if j < n {
                assert(ord(a[j], a[n]) <= 0);
            }
        }
        assert(ord(x, y) <= 0) by {
            if k < n {
                assert(ord(b[k], b[n]) <= 0);
            }
        }
        assert(ord(x, y) == -ord(y, x));
        assert(ord(y, x) == 0);
        assert(ties(a, x, ord) == ties(a.drop_last(), x, ord).push(x));
        assert(ties(b, x, ord) == ties(b.drop_last(), x, ord).push(y));
        assert(x == y) by {
            assert(ties(a, x, ord).last() == x);
            assert(ties(b, x, ord).last() == y);
        }
        let a1 = a.drop_last();
        let b1 = b.drop_last();
        assert forall|z: T| #[trigger] ties(a1, z, ord) == ties(b1, z, ord) by {
            assert(ties(a, z, ord) == ties(b, z, ord));
            if ord(x, z) == 0 {
                assert(ties(a, z, ord) == ties(a1, z, ord).push(x));
                assert(ties(b, z, ord) == ties(b1, z, ord).push(x));
                assert(ties(a1, z, ord) =~= ties(a, z, ord).drop_last());
                assert(ties(b1, z, ord) =~= ties(b, z, ord).drop_last());
            } else {
                assert(ties(a, z, ord) == ties(a1, z, ord));
                assert(ties(b, z, ord) == ties(b1, z, ord));
            }
        }
        assert(sorted_by_order(a1, ord)) by {
            assert forall|i: int, l: int| 0 <= i < l < a1.len() implies ord(#[trigger] a1[i], #[trigger] a1[l]) <= 0 by {
                assert(a1[i] == a[i] && a1[l] == a[l]);
            }
        }
        assert(sorted_by_order(b1, ord)) by {
            assert forall|i: int, l: int| 0 <= i < l < b1.len() implies ord(#[trigger] b1[i], #[trigger] b1[l]) <= 0 by {
                assert(b1[i] == b[i] && b1[l] == b[l]);
            }
        }
        lemma_sorted_same_ties_equal(a1, b1, ord);
        assert(a =~= a1.push(x));
        assert(b =~= b1.push(y));
    }
}

/// A stable sort has one outcome: two stable sorts of the same sequence by the
/// same order are equal, so the order of a list after a sort depends on nothing
/// but its contents before it.
pub proof fn law_stable_sort_unique<T>(old: Seq<T>, a: Seq<T>, b: Seq<T>, ord: spec_fn(T, T) -> int)
    requires
        is_preorder(ord),
        is_stable_sort(old, a, ord),
        is_stable_sort(old, b, ord),
    ensures
        a == b,
{
    assert forall|z: T| #[trigger] ties(a, z, ord) == ties(b, z, ord) by {
        assert(ties(a, z, ord) == ties(old, z, ord));
        assert(ties(b, z, ord) == ties(old, z, ord));
    }
    lemma_sorted_same_ties_equal(a, b, ord);
}

} // verus!
