//! Counting over presence masks: the mathematics shared by the filtered views
//! of lists and vectors.
use vstd::prelude::*;

verus! {

/// Number of `true` entries in `m`.
pub open spec fn count_true(m: Seq<bool>) -> nat
    decreases m.len(),
{
    if m.len() == 0 {
        0
    } else {
        count_true(m.drop_last()) + if m.last() { 1nat } else { 0nat }
    }
}

/// The rank of position `i`: how many `true` entries come before it.
pub open spec fn rank(m: Seq<bool>, i: int) -> nat {
    count_true(m.take(i))
}

/// Which entries of `s` are present.
pub open spec fn mask_of<T>(s: Seq<Option<T>>) -> Seq<bool> {
    s.map_values(|o: Option<T>| o is Some)
}

/// The present values of `s`, in order.
pub open spec fn filter_some<T>(s: Seq<Option<T>>) -> Seq<T>
    decreases s.len(),
{
    if s.len() == 0 {
        Seq::empty()
    } else {
        match s.last() {
            Some(v) => filter_some(s.drop_last()).push(v),
            None => filter_some(s.drop_last()),
        }
    }
}

/// The position table that a filtered view keeps for a mask: each present
/// entry holds its rank, each absent entry holds nothing.
pub open spec fn positions(m: Seq<bool>) -> Seq<Option<usize>> {
    Seq::new(m.len(), |i: int| if m[i] { Some(rank(m, i) as usize) } else { None })
}

pub proof fn lemma_count_true_append(a: Seq<bool>, b: Seq<bool>)
    ensures
        count_true(a + b) == count_true(a) + count_true(b),
    decreases b.len(),
{
    if b.len() == 0 {
        assert(a + b =~= a);
    } else {
        assert((a + b).drop_last() =~= a + b.drop_last());
        lemma_count_true_append(a, b.drop_last());
    }
}

pub proof fn lemma_count_true_bound(m: Seq<bool>)
    ensures
        count_true(m) <= m.len(),
    decreases m.len(),
{
    if m.len() > 0 {
        lemma_count_true_bound(m.drop_last());
    }
}

pub proof fn lemma_rank_step(m: Seq<bool>, i: int)
    requires
        0 <= i < m.len(),
    ensures
        rank(m, i + 1) == rank(m, i) + if m[i] { 1nat } else { 0nat },
{
    assert(m.take(i + 1).drop_last() =~= m.take(i));
}

pub proof fn lemma_rank_full(m: Seq<bool>)
    ensures
        rank(m, m.len() as int) == count_true(m),
{
    assert(m.take(m.len() as int) =~= m);
}

pub proof fn lemma_filter_some_append<T>(a: Seq<Option<T>>, b: Seq<Option<T>>)
    ensures
        filter_some(a + b) == filter_some(a) + filter_some(b),
    decreases b.len(),
{
    if b.len() == 0 {
        assert(a + b =~= a);
        assert(filter_some(a) + filter_some(b) =~= filter_some(a));
    } else {
        assert((a + b).drop_last() =~= a + b.drop_last());
        lemma_filter_some_append(a, b.drop_last());
        assert((a + b).last() == b.last());
        match b.last() {
            Some(v) => {
                assert(filter_some(a) + filter_some(b.drop_last()).push(v) =~= (filter_some(a)
                    + filter_some(b.drop_last())).push(v));
            },
            None => {},
        }
    }
}

pub proof fn lemma_filter_some_len<T>(s: Seq<Option<T>>)
    ensures
        filter_some(s).len() == count_true(mask_of(s)),
    decreases s.len(),
{
    if s.len() > 0 {
        assert(mask_of(s.drop_last()) =~= mask_of(s).drop_last());
        lemma_filter_some_len(s.drop_last());
    }
}

} // verus!

verus! {

pub proof fn lemma_rank_mono(m: Seq<bool>, a: int, b: int)
    requires
        0 <= a <= b <= m.len(),
    ensures
        rank(m, a) <= rank(m, b),
    decreases b - a,
{
    if a < b {
        lemma_rank_mono(m, a, b - 1);
        lemma_rank_step(m, b - 1);
    }
}

pub proof fn lemma_rank_strict(m: Seq<bool>, a: int, b: int)
    requires
        0 <= a < b <= m.len(),
        m[a],
    ensures
        rank(m, a) < rank(m, b),
{
    lemma_rank_step(m, a);
    lemma_rank_mono(m, a + 1, b);
}

/// Present entries of `ix` hold strictly increasing values, all below `bound`.
pub open spec fn increasing(ix: Seq<Option<usize>>, bound: nat) -> bool {
    &&& forall|j: int| 0 <= j < ix.len() && (#[trigger] ix[j]) is Some ==> ix[j]->0 < bound
    &&& forall|j: int, k: int|
        0 <= j < k < ix.len() && (#[trigger] ix[j]) is Some && (#[trigger] ix[k]) is Some
            ==> ix[j]->0 < ix[k]->0
}

pub proof fn lemma_positions_increasing(m: Seq<bool>)
    requires
        m.len() <= usize::MAX,
    ensures
        increasing(positions(m), count_true(m)),
        positions(m).len() == m.len(),
{
    lemma_count_true_bound(m);
    assert forall|j: int| 0 <= j < m.len() && m[j] implies rank(m, j) < count_true(m) by {
        lemma_rank_strict(m, j, m.len() as int);
        lemma_rank_full(m);
    }
    assert forall|j: int, k: int| 0 <= j < k < m.len() && m[j] implies rank(m, j) < rank(m, k) by {
        lemma_rank_strict(m, j, k);
    }
    assert forall|j: int| 0 <= j < m.len() implies rank(m, j) <= m.len() by {
        lemma_rank_mono(m, j, m.len() as int);
        lemma_rank_full(m);
    }
    let p = positions(m);
    assert forall|j: int| 0 <= j < p.len() && (#[trigger] p[j]) is Some implies p[j]->0 < count_true(m) by {
        lemma_rank_mono(m, j, m.len() as int);
        lemma_rank_full(m);
        lemma_rank_strict(m, j, m.len() as int);
    }
    assert forall|j: int, k: int|
        0 <= j < k < p.len() && (#[trigger] p[j]) is Some && (#[trigger] p[k]) is Some
            implies p[j]->0 < p[k]->0 by {
        lemma_rank_mono(m, k, m.len() as int);
        lemma_rank_full(m);
        lemma_rank_strict(m, j, k);
    }
}

/// `o` moved one step up or down.
pub open spec fn shift_some(o: Option<usize>, up: bool) -> Option<usize> {
    match o {
        Some(i) => Some(if up { (i + 1) as usize } else { (i - 1) as usize }),
        None => None,
    }
}

/// `ix` with every present entry at or after `from` moved one step.
pub open spec fn shifted(ix: Seq<Option<usize>>, from: int, up: bool) -> Seq<Option<usize>> {
    Seq::new(ix.len(), |j: int| if j < from { ix[j] } else { shift_some(ix[j], up) })
}

/// The value of the first present entry of `ix` at or after `from`, or
/// `default` where there is none.
pub open spec fn first_some_from(ix: Seq<Option<usize>>, from: int, default: usize) -> usize
    decreases ix.len() - from,
{
    if from < 0 || from >= ix.len() {
        default
    } else {
        match ix[from] {
            Some(i) => i,
            None => first_some_from(ix, from + 1, default),
        }
    }
}

} // verus!

verus! {

/// Where the present entries are increasing, the first present value at or
/// after `from` lies above every present value before `from` and below every
/// present value after it.
pub proof fn lemma_first_some_from_bounds(ix: Seq<Option<usize>>, from: int, d: usize)
    requires
        increasing(ix, d as nat),
        0 <= from <= ix.len(),
    ensures
        first_some_from(ix, from, d) <= d,
        forall|k: int| from <= k < ix.len() && (#[trigger] ix[k]) is Some
            ==> first_some_from(ix, from, d) <= ix[k]->0,
        forall|k: int| 0 <= k < from && (#[trigger] ix[k]) is Some
            ==> ix[k]->0 < first_some_from(ix, from, d),
    decreases ix.len() - from,
{
    if from < ix.len() {
        lemma_first_some_from_bounds(ix, from + 1, d);
        match ix[from] {
            Some(i) => {
                assert forall|k: int| from <= k < ix.len() && (#[trigger] ix[k]) is Some
                    implies i <= ix[k]->0 by {
                    if k > from {
                        assert(ix[from] is Some);
                    }
                }
            },
            None => {},
        }
    }
}

} // verus!

verus! {

pub proof fn lemma_count_true_single(b: bool)
    ensures
        count_true(seq![b]) == if b { 1nat } else { 0nat },
{
    assert(seq![b].drop_last() =~= Seq::<bool>::empty());
    assert(count_true(Seq::<bool>::empty()) == 0);
}

pub proof fn lemma_rank_insert(m: Seq<bool>, i: int, b: bool, j: int)
    requires
        0 <= i <= m.len(),
        0 <= j <= m.len() + 1,
    ensures
        rank(m.insert(i, b), j) == if j <= i {
            rank(m, j)
        } else {
            rank(m, j - 1) + if b { 1nat } else { 0nat }
        },
{
    let n = m.insert(i, b);
    if j <= i {
        assert(n.take(j) =~= m.take(j));
    } else {
        assert(n.take(j) =~= m.take(i) + seq![b] + m.subrange(i, j - 1));
        assert(m.take(j - 1) =~= m.take(i) + m.subrange(i, j - 1));
        lemma_count_true_append(m.take(i) + seq![b], m.subrange(i, j - 1));
        lemma_count_true_append(m.take(i), seq![b]);
        lemma_count_true_append(m.take(i), m.subrange(i, j - 1));
        lemma_count_true_single(b);
    }
}

pub proof fn lemma_rank_remove(m: Seq<bool>, i: int, j: int)
    requires
        0 <= i < m.len(),
        0 <= j <= m.len() - 1,
    ensures
        rank(m.remove(i), j) == if j <= i {
            rank(m, j)
        } else {
            (rank(m, j + 1) - if m[i] { 1int } else { 0int }) as nat
        },
{
    let n = m.remove(i);
    if j <= i {
        assert(n.take(j) =~= m.take(j));
    } else {
        assert(n.take(j) =~= m.take(i) + m.subrange(i + 1, j + 1));
        assert(m.take(j + 1) =~= m.take(i) + seq![m[i]] + m.subrange(i + 1, j + 1));
        lemma_count_true_append(m.take(i) + seq![m[i]], m.subrange(i + 1, j + 1));
        lemma_count_true_append(m.take(i), seq![m[i]]);
        lemma_count_true_append(m.take(i), m.subrange(i + 1, j + 1));
        lemma_count_true_single(m[i]);
    }
}

pub proof fn lemma_rank_update(m: Seq<bool>, i: int, b: bool, j: int)
    requires
        0 <= i < m.len(),
        0 <= j <= m.len(),
    ensures
        rank(m.update(i, b), j) == if j <= i {
            rank(m, j) as int
        } else {
            rank(m, j) - (if m[i] { 1int } else { 0int }) + (if b { 1int } else { 0int })
        },
{
    let n = m.update(i, b);
    if j <= i {
        assert(n.take(j) =~= m.take(j));
    } else {
        assert(n.take(j) =~= m.take(i) + seq![b] + m.subrange(i + 1, j));
        assert(m.take(j) =~= m.take(i) + seq![m[i]] + m.subrange(i + 1, j));
        lemma_count_true_append(m.take(i) + seq![b], m.subrange(i + 1, j));
        lemma_count_true_append(m.take(i), seq![b]);
        lemma_count_true_append(m.take(i) + seq![m[i]], m.subrange(i + 1, j));
        lemma_count_true_append(m.take(i), seq![m[i]]);
        assert(seq![b].drop_last() =~= Seq::<bool>::empty());
        assert(seq![m[i]].drop_last() =~= Seq::<bool>::empty());
    }
}

pub proof fn lemma_rank_push(m: Seq<bool>, b: bool, j: int)
    requires
        0 <= j <= m.len(),
    ensures
        rank(m.push(b), j) == rank(m, j),
{
    assert(m.push(b).take(j) =~= m.take(j));
}

pub proof fn lemma_rank_drop_last(m: Seq<bool>, j: int)
    requires
        0 <= j < m.len(),
    ensures
        rank(m.drop_last(), j) == rank(m, j),
{
    assert(m.drop_last().take(j) =~= m.take(j));
}

/// The first present value of a position table at or after `i` is the rank of `i`.
pub proof fn lemma_first_some_from_positions(m: Seq<bool>, i: int)
    requires
        0 <= i <= m.len(),
        m.len() <= usize::MAX,
    ensures
        first_some_from(positions(m), i, count_true(m) as usize) == rank(m, i),
    decreases m.len() - i,
{
    lemma_count_true_bound(m);
    if i == m.len() {
        lemma_rank_full(m);
    } else {
        lemma_rank_mono(m, i, m.len() as int);
        lemma_rank_full(m);
        if !m[i] {
            lemma_first_some_from_positions(m, i + 1);
            lemma_rank_step(m, i);
        }
    }
}

pub proof fn lemma_filter_some_single<T>(x: Option<T>)
    ensures
        filter_some(seq![x]) == match x {
            Some(v) => seq![v],
            None => Seq::<T>::empty(),
        },
{
    assert(seq![x].drop_last() =~= Seq::<Option<T>>::empty());
    assert(seq![x].last() == x);
    assert(filter_some(Seq::<Option<T>>::empty()) == Seq::<T>::empty());
    match x {
        Some(v) => {
            assert(Seq::<T>::empty().push(v) =~= seq![v]);
        },
        None => {},
    }
}

pub proof fn lemma_mask_take<T>(s: Seq<Option<T>>, i: int)
    requires
        0 <= i <= s.len(),
    ensures
        mask_of(s.take(i)) == mask_of(s).take(i),
        filter_some(s.take(i)).len() == rank(mask_of(s), i),
{
    assert(mask_of(s.take(i)) =~= mask_of(s).take(i));
    lemma_filter_some_len(s.take(i));
}

pub proof fn lemma_filter_some_insert<T>(s: Seq<Option<T>>, i: int, x: Option<T>)
    requires
        0 <= i <= s.len(),
    ensures
        filter_some(s.insert(i, x)) == match x {
            Some(v) => filter_some(s).insert(rank(mask_of(s), i) as int, v),
            None => filter_some(s),
        },
{
    let a = s.take(i);
    let c = s.skip(i);
    assert(s =~= a + c);
    assert(s.insert(i, x) =~= a + seq![x] + c);
    lemma_filter_some_append(a, c);
    lemma_filter_some_append(a + seq![x], c);
    lemma_filter_some_append(a, seq![x]);
    lemma_filter_some_single(x);
    lemma_mask_take(s, i);
    match x {
        Some(v) => {
            assert(filter_some(a) + seq![v] + filter_some(c) =~= (filter_some(a) + filter_some(c)).insert(
                filter_some(a).len() as int,
                v,
            ));
        },
        None => {
            assert(filter_some(a) + Seq::<T>::empty() =~= filter_some(a));
        },
    }
}

pub proof fn lemma_filter_some_remove<T>(s: Seq<Option<T>>, i: int)
    requires
        0 <= i < s.len(),
    ensures
        filter_some(s.remove(i)) == match s[i] {
            Some(v) => filter_some(s).remove(rank(mask_of(s), i) as int),
            None => filter_some(s),
        },
{
    let a = s.take(i);
    let c = s.skip(i + 1);
    assert(s =~= a + seq![s[i]] + c);
    assert(s.remove(i) =~= a + c);
    lemma_filter_some_append(a, c);
    lemma_filter_some_append(a + seq![s[i]], c);
    lemma_filter_some_append(a, seq![s[i]]);
    lemma_filter_some_single(s[i]);
    lemma_mask_take(s, i);
    match s[i] {
        Some(v) => {
            assert(filter_some(a) + filter_some(c) =~= (filter_some(a) + seq![v] + filter_some(c)).remove(
                filter_some(a).len() as int,
            ));
        },
        None => {
            assert(filter_some(a) + Seq::<T>::empty() =~= filter_some(a));
        },
    }
}

pub proof fn lemma_filter_some_update<T>(s: Seq<Option<T>>, i: int, x: Option<T>)
    requires
        0 <= i < s.len(),
    ensures
        filter_some(s.update(i, x)) == match (s[i], x) {
            (Some(_), Some(v)) => filter_some(s).update(rank(mask_of(s), i) as int, v),
            (None, Some(v)) => filter_some(s).insert(rank(mask_of(s), i) as int, v),
            (Some(_), None) => filter_some(s).remove(rank(mask_of(s), i) as int),
            (None, None) => filter_some(s),
        },
{
    let a = s.take(i);
    let c = s.skip(i + 1);
    assert(s =~= a + seq![s[i]] + c);
    assert(s.update(i, x) =~= a + seq![x] + c);
    lemma_filter_some_append(a + seq![s[i]], c);
    lemma_filter_some_append(a, seq![s[i]]);
    lemma_filter_some_append(a + seq![x], c);
    lemma_filter_some_append(a, seq![x]);
    lemma_filter_some_single(s[i]);
    lemma_filter_some_single(x);
    lemma_mask_take(s, i);
    let fa = filter_some(a);
    let fc = filter_some(c);
    match (s[i], x) {
        (Some(w), Some(v)) => {
            assert(fa + seq![v] + fc =~= (fa + seq![w] + fc).update(fa.len() as int, v));
        },
        (None, Some(v)) => {
            assert(fa + seq![v] + fc =~= (fa + Seq::<T>::empty() + fc).insert(fa.len() as int, v));
        },
        (Some(w), None) => {
            assert(fa + Seq::<T>::empty() + fc =~= (fa + seq![w] + fc).remove(fa.len() as int));
        },
        (None, None) => {},
    }
}

} // verus!

verus! {

pub proof fn lemma_positions_insert(m: Seq<bool>, i: int, b: bool)
    requires
        0 <= i <= m.len(),
        m.len() < usize::MAX,
    ensures
        positions(m.insert(i, b)) == if b {
            shifted(positions(m), i, true).insert(i, Some(rank(m, i) as usize))
        } else {
            positions(m).insert(i, None)
        },
{
    let n = m.insert(i, b);
    let rhs = if b {
        shifted(positions(m), i, true).insert(i, Some(rank(m, i) as usize))
    } else {
        positions(m).insert(i, None)
    };
    assert forall|j: int| 0 <= j < n.len() implies positions(n)[j] == rhs[j] by {
        lemma_rank_insert(m, i, b, j);
        if j > i {
            lemma_rank_mono(m, j - 1, m.len() as int);
            lemma_rank_full(m);
            lemma_count_true_bound(m);
        }
        if j < i {
            lemma_rank_mono(m, j, m.len() as int);
            lemma_rank_full(m);
            lemma_count_true_bound(m);
        }
    }
    assert(positions(n) =~= rhs);
}

pub proof fn lemma_positions_remove(m: Seq<bool>, i: int)
    requires
        0 <= i < m.len(),
        m.len() <= usize::MAX,
    ensures
        positions(m.remove(i)) == if m[i] {
            shifted(positions(m).remove(i), i, false)
        } else {
            positions(m).remove(i)
        },
{
    let n = m.remove(i);
    let rhs = if m[i] {
        shifted(positions(m).remove(i), i, false)
    } else {
        positions(m).remove(i)
    };
    assert forall|j: int| 0 <= j < n.len() implies positions(n)[j] == rhs[j] by {
        lemma_rank_remove(m, i, j);
        lemma_rank_mono(m, j, m.len() as int);
        lemma_rank_mono(m, j + 1, m.len() as int);
        lemma_rank_full(m);
        lemma_count_true_bound(m);
        if j >= i {
            lemma_rank_step(m, i);
            assert(n[j] == m[j + 1]);
            if m[i] {
                lemma_rank_strict(m, i, j + 1);
                assert(positions(m).remove(i)[j] == positions(m)[j + 1]);
                assert(rank(n, j) == rank(m, j + 1) - 1);
                assert(rank(m, j + 1) <= usize::MAX);
                assert(rank(m, j + 1) >= 1);
                if m[j + 1] {
                    assert(positions(n)[j] == Some(rank(n, j) as usize));
                    assert(positions(m)[j + 1] == Some(rank(m, j + 1) as usize));
                    assert(rhs[j] == shift_some(positions(m).remove(i)[j], false));
                }
            } else {
                assert(positions(m).remove(i)[j] == positions(m)[j + 1]);
            }
        } else {
            assert(n[j] == m[j]);
            assert(positions(m).remove(i)[j] == positions(m)[j]);
        }
    }
    assert(positions(n) =~= rhs);
}

pub proof fn lemma_positions_update(m: Seq<bool>, i: int, b: bool)
    requires
        0 <= i < m.len(),
        m.len() <= usize::MAX,
    ensures
        positions(m.update(i, b)) == if b == m[i] {
            positions(m)
        } else if b {
            shifted(positions(m), i + 1, true).update(i, Some(rank(m, i) as usize))
        } else {
            shifted(positions(m).update(i, None), i + 1, false)
        },
{
    let n = m.update(i, b);
    let rhs = if b == m[i] {
        positions(m)
    } else if b {
        shifted(positions(m), i + 1, true).update(i, Some(rank(m, i) as usize))
    } else {
        shifted(positions(m).update(i, None), i + 1, false)
    };
    assert forall|j: int| 0 <= j < n.len() implies positions(n)[j] == rhs[j] by {
        lemma_rank_update(m, i, b, j);
        lemma_rank_mono(m, j, m.len() as int);
        lemma_rank_full(m);
        lemma_count_true_bound(m);
        if j > i && m[i] {
            lemma_rank_strict(m, i, j);
        }
        if j > i && m[j] {
            lemma_rank_strict(m, j, m.len() as int);
        }
    }
    if b == m[i] {
        assert(n =~= m);
    }
    assert(positions(n) =~= rhs);
}

pub proof fn lemma_positions_push(m: Seq<bool>, b: bool)
    requires
        m.len() < usize::MAX,
    ensures
        positions(m.push(b)) == positions(m).push(if b { Some(count_true(m) as usize) } else { None }),
{
    let n = m.push(b);
    assert forall|j: int| 0 <= j < n.len() implies positions(n)[j] == positions(m).push(
        if b { Some(count_true(m) as usize) } else { None },
    )[j] by {
        lemma_rank_push(m, b, j);
        if j == m.len() {
            lemma_rank_full(m);
        }
    }
    assert(positions(n) =~= positions(m).push(if b { Some(count_true(m) as usize) } else { None }));
}

pub proof fn lemma_positions_drop_last(m: Seq<bool>)
    requires
        m.len() > 0,
    ensures
        positions(m.drop_last()) == positions(m).drop_last(),
{
    assert forall|j: int| 0 <= j < m.len() - 1 implies positions(m.drop_last())[j] == positions(m).drop_last()[j] by {
        lemma_rank_drop_last(m, j);
    }
    assert(positions(m.drop_last()) =~= positions(m).drop_last());
}

pub proof fn lemma_count_true_push(m: Seq<bool>, b: bool)
    ensures
        count_true(m.push(b)) == count_true(m) + if b { 1nat } else { 0nat },
{
    assert(m.push(b).drop_last() =~= m);
}

} // verus!

verus! {

/// The value of the first present entry of `ix`.
pub open spec fn first_present(ix: Seq<Option<usize>>) -> Option<usize>
    decreases ix.len(),
{
    if ix.len() == 0 {
        None
    } else {
        match ix[0] {
            Some(i) => Some(i),
            None => first_present(ix.drop_first()),
        }
    }
}

pub proof fn lemma_first_present_from(ix: Seq<Option<usize>>, from: int, d: usize)
    requires
        0 <= from <= ix.len(),
    ensures
        first_some_from(ix, from, d) == match first_present(ix.subrange(from, ix.len() as int)) {
            Some(i) => i,
            None => d,
        },
    decreases ix.len() - from,
{
    if from < ix.len() {
        assert(ix.subrange(from, ix.len() as int).drop_first() =~= ix.subrange(from + 1, ix.len() as int));
        lemma_first_present_from(ix, from + 1, d);
    }
}

} // verus!
