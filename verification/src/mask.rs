//! Sequences filtered by a parallel sequence of flags: what a removal keeps,
//! what it takes out, and how many flags are set.

use vstd::prelude::*;

verus! {

/// Number of set flags.
pub open spec fn count_true(m: Seq<bool>) -> nat
    decreases m.len(),
{
    if m.len() == 0 {
        0
    } else {
        count_true(m.drop_last()) + if m.last() { 1nat } else { 0nat }
    }
}

/// The items whose flag is unset, in their former order.
pub open spec fn kept<T>(s: Seq<T>, m: Seq<bool>) -> Seq<T>
    decreases s.len(),
{
    if s.len() == 0 {
        Seq::empty()
    } else {
        let rest = kept(s.drop_last(), m.drop_last());
        if m[s.len() - 1] {
            rest
        } else {
            rest.push(s.last())
        }
    }
}

/// The items whose flag is set, each with its former index, in order.
pub open spec fn picked<T>(s: Seq<T>, m: Seq<bool>) -> Seq<(usize, T)>
    decreases s.len(),
{
    if s.len() == 0 {
        Seq::empty()
    } else {
        let rest = picked(s.drop_last(), m.drop_last());
        if m[s.len() - 1] {
            rest.push(((s.len() - 1) as usize, s.last()))
        } else {
            rest
        }
    }
}

pub proof fn lemma_count_true_step(m: Seq<bool>, j: int)
    requires
        0 <= j < m.len(),
    ensures
        count_true(m.take(j + 1)) == count_true(m.take(j)) + if m[j] { 1nat } else { 0nat },
{
    assert(m.take(j + 1).drop_last() =~= m.take(j));
}

pub proof fn lemma_kept_step<T>(s: Seq<T>, m: Seq<bool>, j: int)
    requires
        0 <= j < s.len(),
        m.len() == s.len(),
    ensures
        kept(s.take(j + 1), m.take(j + 1)) == if m[j] {
            kept(s.take(j), m.take(j))
        } else {
            kept(s.take(j), m.take(j)).push(s[j])
        },
        picked(s.take(j + 1), m.take(j + 1)) == if m[j] {
            picked(s.take(j), m.take(j)).push((j as usize, s[j]))
        } else {
            picked(s.take(j), m.take(j))
        },
{
    assert(s.take(j + 1).drop_last() =~= s.take(j));
    assert(m.take(j + 1).drop_last() =~= m.take(j));
}

pub proof fn lemma_count_true_le(m: Seq<bool>)
    ensures
        count_true(m) <= m.len(),
    decreases m.len(),
{
    if m.len() > 0 {
        lemma_count_true_le(m.drop_last());
    }
}

/// Flags past position `k` add at most one each.
pub proof fn lemma_count_true_take(m: Seq<bool>, k: int)
    requires
        0 <= k <= m.len(),
    ensures
        count_true(m.take(k)) <= count_true(m),
        count_true(m) <= count_true(m.take(k)) + (m.len() - k),
    decreases m.len() - k,
{
    if k == m.len() {
        assert(m.take(k) =~= m);
    } else {
        lemma_count_true_take(m, k + 1);
        lemma_count_true_step(m, k);
    }
}

pub proof fn lemma_kept_len<T>(s: Seq<T>, m: Seq<bool>)
    requires
        m.len() == s.len(),
    ensures
        kept(s, m).len() + count_true(m) == s.len(),
        picked(s, m).len() == count_true(m),
    decreases s.len(),
{
    if s.len() > 0 {
        lemma_kept_len(s.drop_last(), m.drop_last());
    }
}

/// Filtering a prefix yields a prefix of the filtered whole.
pub proof fn lemma_kept_prefix<T>(s: Seq<T>, m: Seq<bool>, k: int)
    requires
        m.len() == s.len(),
        0 <= k <= s.len(),
    ensures
        kept(s.take(k), m.take(k)).len() <= kept(s, m).len(),
        forall|i: int|
            0 <= i < kept(s.take(k), m.take(k)).len() ==> #[trigger] kept(s, m)[i] == kept(
                s.take(k),
                m.take(k),
            )[i],
    decreases s.len() - k,
{
    if k == s.len() {
        assert(s.take(k) =~= s);
        assert(m.take(k) =~= m);
    } else {
        lemma_kept_prefix(s, m, k + 1);
        lemma_kept_step(s, m, k);
    }
}

/// An item whose flag is unset keeps its place among the unset items: it
/// lands at the index given by the number of unset items before it.
pub proof fn lemma_kept_index<T>(s: Seq<T>, m: Seq<bool>, i: int)
    requires
        m.len() == s.len(),
        0 <= i < s.len(),
        !m[i],
    ensures
        kept(s.take(i), m.take(i)).len() < kept(s, m).len(),
        kept(s, m)[kept(s.take(i), m.take(i)).len() as int] == s[i],
{
    lemma_kept_step(s, m, i);
    lemma_kept_prefix(s, m, i + 1);
}

/// With exactly one flag set, at `c`, filtering takes out just the item at
/// `c`.
pub proof fn lemma_one_flag<T>(s: Seq<T>, m: Seq<bool>, c: int)
    requires
        m.len() == s.len(),
        0 <= c,
        forall|j: int| 0 <= j < m.len() ==> (m[j] <==> j == c),
    ensures
        c < s.len() ==> {
            &&& kept(s, m) == s.remove(c)
            &&& picked(s, m) == seq![(c as usize, s[c])]
            &&& count_true(m) == 1
        },
        c >= s.len() ==> {
            &&& kept(s, m) == s
            &&& picked(s, m) == Seq::<(usize, T)>::empty()
            &&& count_true(m) == 0
        },
    decreases s.len(),
{
    if s.len() > 0 {
        let s2 = s.drop_last();
        let m2 = m.drop_last();
        lemma_one_flag(s2, m2, c);
        if c < s2.len() {
            assert(s2.remove(c).push(s.last()) =~= s.remove(c));
        } else if c == s2.len() {
            assert(s2 =~= s.remove(c));
            assert(Seq::<(usize, T)>::empty().push(((s.len() - 1) as usize, s.last())) =~= seq![
                (c as usize, s[c]),
            ]);
        } else {
            assert(s2.push(s.last()) =~= s);
        }
    } else {
        assert(s =~= Seq::<T>::empty());
    }
}

/// The picked items are exactly the flagged ones, each with its index and
/// in increasing order of index.
pub proof fn lemma_picked_exact<T>(s: Seq<T>, m: Seq<bool>)
    requires
        m.len() == s.len(),
        s.len() <= usize::MAX,
    ensures
        forall|k: int|
            0 <= k < picked(s, m).len() ==> {
                let (i, x) = #[trigger] picked(s, m)[k];
                &&& i < s.len()
                &&& m[i as int]
                &&& x == s[i as int]
            },
        forall|k1: int, k2: int|
            0 <= k1 < k2 < picked(s, m).len() ==> (#[trigger] picked(s, m)[k1]).0 < (
            #[trigger] picked(s, m)[k2]).0,
        forall|j: int|
            0 <= j < s.len() && #[trigger] m[j] ==> exists|k: int|
                0 <= k < picked(s, m).len() && (#[trigger] picked(s, m)[k]).0 == j,
    decreases s.len(),
{
    if s.len() > 0 {
        let s2 = s.drop_last();
        let m2 = m.drop_last();
        lemma_picked_exact(s2, m2);
        let p2 = picked(s2, m2);
        let p = picked(s, m);
        let last = s.len() - 1;
        assert forall|k: int| 0 <= k < p2.len() implies (#[trigger] p2[k]).0 < last by {
            let (i, x) = p2[k];
            assert(i < s2.len());
        }
        if m[last] {
            assert(p == p2.push((last as usize, s[last])));
            assert forall|k: int|
                0 <= k < p.len() implies {
                    let (i, x) = #[trigger] p[k];
                    &&& i < s.len()
                    &&& m[i as int]
                    &&& x == s[i as int]
                } by {
                if k < p2.len() {
                    assert(p[k] == p2[k]);
                    let (i, x) = p2[k];
                    assert(m2[i as int] == m[i as int]);
                    assert(s2[i as int] == s[i as int]);
                }
            }
            assert forall|k1: int, k2: int|
                0 <= k1 < k2 < p.len() implies (#[trigger] p[k1]).0 < (#[trigger] p[k2]).0 by {
                assert(p[k1] == p2[k1]);
                if k2 < p2.len() {
                    assert(p[k2] == p2[k2]);
                }
            }
            assert forall|j: int| 0 <= j < s.len() && #[trigger] m[j] implies exists|k: int|
                0 <= k < p.len() && (#[trigger] p[k]).0 == j by {
                if j < last {
                    assert(m2[j] == m[j]);
                    let k = choose|k: int| 0 <= k < p2.len() && (#[trigger] p2[k]).0 == j;
                    assert(p[k] == p2[k]);
                } else {
                    assert(p[p.len() - 1].0 == j);
                }
            }
        } else {
            assert(p == p2);
            assert forall|k: int|
                0 <= k < p.len() implies {
                    let (i, x) = #[trigger] p[k];
                    &&& i < s.len()
                    &&& m[i as int]
                    &&& x == s[i as int]
                } by {
                let (i, x) = p2[k];
                assert(m2[i as int] == m[i as int]);
                assert(s2[i as int] == s[i as int]);
            }
            assert forall|j: int| 0 <= j < s.len() && #[trigger] m[j] implies exists|k: int|
                0 <= k < p.len() && (#[trigger] p[k]).0 == j by {
                assert(j < last);
                assert(m2[j] == m[j]);
            }
        }
    }
}

} // verus!
