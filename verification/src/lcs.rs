use vstd::prelude::*;

verus! {

/// Length of a longest common subsequence of `a[..i]` and `b[..j]`, by the usual recurrence.
pub open spec fn lcs_len<A>(a: Seq<A>, b: Seq<A>, i: nat, j: nat) -> nat
    decreases i + j,
{
    if i == 0 || j == 0 {
        0
    } else if a[i - 1] == b[j - 1] {
        lcs_len(a, b, (i - 1) as nat, (j - 1) as nat) + 1
    } else {
        let up = lcs_len(a, b, (i - 1) as nat, j);
        let left = lcs_len(a, b, i, (j - 1) as nat);
        if up >= left {
            up
        } else {
            left
        }
    }
}

/// The elements of the longest common subsequence chosen by walking the table back from
/// `(i, j)`: equal last elements are kept together; otherwise the walk drops the last
/// element of `a` when that loses nothing (ties go that way) and the last element of `b`
/// otherwise. Returns, for `a[..i]` and for `b[..j]`, which positions are kept.
pub open spec fn walk_masks<A>(a: Seq<A>, b: Seq<A>, i: nat, j: nat) -> (Seq<bool>, Seq<bool>)
    decreases i + j,
{
    if i == 0 || j == 0 {
        (Seq::new(i, |k: int| false), Seq::new(j, |k: int| false))
    } else if a[i - 1] == b[j - 1] {
        let (ma, mb) = walk_masks(a, b, (i - 1) as nat, (j - 1) as nat);
        (ma.push(true), mb.push(true))
    } else if lcs_len(a, b, (i - 1) as nat, j) >= lcs_len(a, b, i, (j - 1) as nat) {
        let (ma, mb) = walk_masks(a, b, (i - 1) as nat, j);
        (ma.push(false), mb)
    } else {
        let (ma, mb) = walk_masks(a, b, i, (j - 1) as nat);
        (ma, mb.push(false))
    }
}

/// Which elements of `a` are kept by the walk over the whole of `a` and `b`.
pub open spec fn kept_mask_a<A>(a: Seq<A>, b: Seq<A>) -> Seq<bool> {
    walk_masks(a, b, a.len(), b.len()).0
}

/// Which elements of `b` are kept by the walk over the whole of `a` and `b`.
pub open spec fn kept_mask_b<A>(a: Seq<A>, b: Seq<A>) -> Seq<bool> {
    walk_masks(a, b, a.len(), b.len()).1
}

/// `m` with every entry negated.
pub open spec fn negate(m: Seq<bool>) -> Seq<bool> {
    m.map_values(|x: bool| !x)
}

/// Number of `true` entries of `m`.
pub open spec fn count_true(m: Seq<bool>) -> nat
    decreases m.len(),
{
    if m.len() == 0 {
        0
    } else {
        count_true(m.drop_last()) + if m.last() {
            1nat
        } else {
            0nat
        }
    }
}

/// The elements of `a` at the positions where `m` is `true`, in order.
pub open spec fn select<A>(a: Seq<A>, m: Seq<bool>) -> Seq<A>
    decreases m.len(),
{
    if m.len() == 0 || a.len() == 0 {
        Seq::empty()
    } else if m.last() {
        select(a.drop_last(), m.drop_last()).push(a.last())
    } else {
        select(a.drop_last(), m.drop_last())
    }
}

pub proof fn lemma_lcs_bounds<A>(a: Seq<A>, b: Seq<A>, i: nat, j: nat)
    ensures
        lcs_len(a, b, i, j) <= i,
        lcs_len(a, b, i, j) <= j,
    decreases i + j,
{
    if i > 0 && j > 0 {
        lemma_lcs_bounds(a, b, (i - 1) as nat, (j - 1) as nat);
        lemma_lcs_bounds(a, b, (i - 1) as nat, j);
        lemma_lcs_bounds(a, b, i, (j - 1) as nat);
    }
}

/// What the walk keeps of `a[..i]` and of `b[..j]` is one and the same sequence, and it is
/// as long as the longest common subsequence.
pub proof fn lemma_walk_common<A>(a: Seq<A>, b: Seq<A>, i: nat, j: nat)
    requires
        i <= a.len(),
        j <= b.len(),
    ensures
        walk_masks(a, b, i, j).0.len() == i,
        walk_masks(a, b, i, j).1.len() == j,
        select(a.take(i as int), walk_masks(a, b, i, j).0) == select(
            b.take(j as int),
            walk_masks(a, b, i, j).1,
        ),
        count_true(walk_masks(a, b, i, j).0) == lcs_len(a, b, i, j),
        count_true(walk_masks(a, b, i, j).1) == lcs_len(a, b, i, j),
    decreases i + j,
{
    let (ma, mb) = walk_masks(a, b, i, j);
    if i == 0 || j == 0 {
        lemma_select_none(a.take(i as int), ma);
        lemma_select_none(b.take(j as int), mb);
        lemma_count_none(ma);
        lemma_count_none(mb);
    } else if a[i - 1] == b[j - 1] {
        lemma_walk_common(a, b, (i - 1) as nat, (j - 1) as nat);
        assert(ma.drop_last() == walk_masks(a, b, (i - 1) as nat, (j - 1) as nat).0);
        assert(mb.drop_last() == walk_masks(a, b, (i - 1) as nat, (j - 1) as nat).1);
        assert(a.take(i as int).drop_last() == a.take(i - 1));
        assert(b.take(j as int).drop_last() == b.take(j - 1));
    } else if lcs_len(a, b, (i - 1) as nat, j) >= lcs_len(a, b, i, (j - 1) as nat) {
        lemma_walk_common(a, b, (i - 1) as nat, j);
        assert(ma.drop_last() == walk_masks(a, b, (i - 1) as nat, j).0);
        assert(a.take(i as int).drop_last() == a.take(i - 1));
    } else {
        lemma_walk_common(a, b, i, (j - 1) as nat);
        assert(mb.drop_last() == walk_masks(a, b, i, (j - 1) as nat).1);
        assert(b.take(j as int).drop_last() == b.take(j - 1));
    }
}

pub proof fn lemma_select_none<A>(a: Seq<A>, m: Seq<bool>)
    requires
        forall|k: int| 0 <= k < m.len() ==> !m[k],
    ensures
        select(a, m) == Seq::<A>::empty(),
    decreases m.len(),
{
    if m.len() > 0 && a.len() > 0 {
        lemma_select_none(a.drop_last(), m.drop_last());
    }
}

pub proof fn lemma_count_none(m: Seq<bool>)
    requires
        forall|k: int| 0 <= k < m.len() ==> !m[k],
    ensures
        count_true(m) == 0,
    decreases m.len(),
{
    if m.len() > 0 {
        lemma_count_none(m.drop_last());
    }
}


/// Dropping the last element of either sequence never lengthens the LCS, and shortens it by
/// at most one.
pub proof fn lemma_lcs_steps<A>(a: Seq<A>, b: Seq<A>, i: nat, j: nat)
    ensures
        i > 0 ==> lcs_len(a, b, (i - 1) as nat, j) <= lcs_len(a, b, i, j),
        j > 0 ==> lcs_len(a, b, i, (j - 1) as nat) <= lcs_len(a, b, i, j),
        i > 0 ==> lcs_len(a, b, i, j) <= lcs_len(a, b, (i - 1) as nat, j) + 1,
        j > 0 ==> lcs_len(a, b, i, j) <= lcs_len(a, b, i, (j - 1) as nat) + 1,
    decreases i + j,
{
    if i > 0 && j > 0 {
        lemma_lcs_steps(a, b, (i - 1) as nat, j);
        lemma_lcs_steps(a, b, i, (j - 1) as nat);
        lemma_lcs_steps(a, b, (i - 1) as nat, (j - 1) as nat);
    }
}

/// The number of selected elements is the number of `true` entries of the mask.
pub proof fn lemma_select_len<A>(a: Seq<A>, m: Seq<bool>)
    requires
        a.len() == m.len(),
    ensures
        select(a, m).len() == count_true(m),
    decreases m.len(),
{
    if m.len() > 0 {
        lemma_select_len(a.drop_last(), m.drop_last());
    }
}

/// Law: no common subsequence of `a[..i]` and `b[..j]` is longer than `lcs_len(a, b, i, j)`.
/// A common subsequence is given by two masks that select the same elements, in order.
pub proof fn lemma_lcs_is_longest<A>(
    a: Seq<A>,
    b: Seq<A>,
    i: nat,
    j: nat,
    ma: Seq<bool>,
    mb: Seq<bool>,
)
    requires
        i <= a.len(),
        j <= b.len(),
        ma.len() == i,
        mb.len() == j,
        select(a.take(i as int), ma) == select(b.take(j as int), mb),
    ensures
        count_true(ma) <= lcs_len(a, b, i, j),
    decreases i + j,
{
    lemma_select_len(a.take(i as int), ma);
    lemma_select_len(b.take(j as int), mb);
    lemma_lcs_steps(a, b, i, j);
    if i == 0 || j == 0 {
    } else {
        assert(a.take(i as int).drop_last() == a.take(i - 1));
        assert(b.take(j as int).drop_last() == b.take(j - 1));
        assert(a.take(i as int).last() == a[i - 1]);
        assert(b.take(j as int).last() == b[j - 1]);
        if !ma.last() {
            lemma_lcs_is_longest(a, b, (i - 1) as nat, j, ma.drop_last(), mb);
        } else if !mb.last() {
            lemma_lcs_is_longest(a, b, i, (j - 1) as nat, ma, mb.drop_last());
        } else {
            let sa = select(a.take(i - 1), ma.drop_last());
            let sb = select(b.take(j - 1), mb.drop_last());
            assert(sa.push(a[i - 1]) == sb.push(b[j - 1]));
            assert(sa == sa.push(a[i - 1]).drop_last());
            assert(sb == sb.push(b[j - 1]).drop_last());
            assert(a[i - 1] == sa.push(a[i - 1]).last());
            lemma_lcs_is_longest(a, b, (i - 1) as nat, (j - 1) as nat, ma.drop_last(), mb.drop_last());
        }
    }
}

/// Walking a sequence against itself keeps every element.
pub proof fn lemma_walk_identical<A>(a: Seq<A>, i: nat)
    ensures
        walk_masks(a, a, i, i).0 == Seq::new(i, |k: int| true),
        walk_masks(a, a, i, i).1 == Seq::new(i, |k: int| true),
    decreases i,
{
    if i > 0 {
        lemma_walk_identical(a, (i - 1) as nat);
        assert(Seq::new((i - 1) as nat, |k: int| true).push(true) == Seq::new(i, |k: int| true));
    }
}

/// When no element of `a[..i]` equals an element of `b[..j]`, the walk keeps nothing.
pub proof fn lemma_walk_disjoint<A>(a: Seq<A>, b: Seq<A>, i: nat, j: nat)
    requires
        i <= a.len(),
        j <= b.len(),
        forall|p: int, q: int| 0 <= p < i && 0 <= q < j ==> a[p] != b[q],
    ensures
        walk_masks(a, b, i, j).0 == Seq::new(i, |k: int| false),
        walk_masks(a, b, i, j).1 == Seq::new(j, |k: int| false),
    decreases i + j,
{
    if i > 0 && j > 0 {
        assert(a[i - 1] != b[j - 1]);
        if lcs_len(a, b, (i - 1) as nat, j) >= lcs_len(a, b, i, (j - 1) as nat) {
            lemma_walk_disjoint(a, b, (i - 1) as nat, j);
            assert(Seq::new((i - 1) as nat, |k: int| false).push(false) == Seq::new(i, |k: int| false));
        } else {
            lemma_walk_disjoint(a, b, i, (j - 1) as nat);
            assert(Seq::new((j - 1) as nat, |k: int| false).push(false) == Seq::new(j, |k: int| false));
        }
    }
}

/// Negating a mask turns its `true` count into the count of the rest.
pub proof fn lemma_count_negate(m: Seq<bool>)
    ensures
        count_true(negate(m)) == m.len() - count_true(m),
    decreases m.len(),
{
    if m.len() > 0 {
        lemma_count_negate(m.drop_last());
        assert(negate(m).drop_last() == negate(m.drop_last()));
    }
}

/// The longest common subsequence does not depend on the order of the two sequences.
pub proof fn lemma_lcs_symmetric<A>(a: Seq<A>, b: Seq<A>, i: nat, j: nat)
    ensures
        lcs_len(a, b, i, j) == lcs_len(b, a, j, i),
    decreases i + j,
{
    if i > 0 && j > 0 {
        lemma_lcs_symmetric(a, b, (i - 1) as nat, (j - 1) as nat);
        lemma_lcs_symmetric(a, b, (i - 1) as nat, j);
        lemma_lcs_symmetric(a, b, i, (j - 1) as nat);
    }
}

} // verus!
