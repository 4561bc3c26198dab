//! Character-level inline diff using LCS (Longest Common Subsequence).
//!
//! Given a pair of `-` / `+` lines, computes which character ranges
//! differ so they can be rendered with a distinct highlight.
use vstd::prelude::*;

use crate::lcs::{
    count_true, kept_mask_a, kept_mask_b, lcs_len, lemma_count_negate, lemma_lcs_bounds,
    lemma_lcs_symmetric, lemma_walk_common,
    lemma_walk_disjoint, lemma_walk_identical, negate, select, walk_masks,
};
use crate::pairing::{lemma_run_end, lemma_run_start, partner, run_end, run_start};
use crate::text::chars_of;

verus! {

/// A half-open range of character indices within a line's content
/// (after stripping the `+`/`-` prefix).
#[derive(Debug, Clone)]
pub struct InlineRange {
    pub start: usize,
    pub end: usize,
}

/// `ranges` are exactly the maximal runs of `true` in `d`, in increasing order.
pub open spec fn maximal_runs(d: Seq<bool>, ranges: Seq<InlineRange>) -> bool {
    &&& forall|k: int|
        0 <= k < ranges.len() ==> 0 <= (#[trigger] ranges[k]).start < ranges[k].end <= d.len()
    &&& forall|k: int, p: int|
        0 <= k < ranges.len() && ranges[k].start <= p < ranges[k].end ==> #[trigger] d[p]
            && #[trigger] ranges[k] == ranges[k]
    &&& forall|k: int|
        0 <= k < ranges.len() ==> (#[trigger] ranges[k]).start == 0 || !d[ranges[k].start - 1]
    &&& forall|k: int|
        0 <= k < ranges.len() ==> (#[trigger] ranges[k]).end == d.len() || !d[ranges[k].end as int]
    &&& forall|k: int|
        0 <= k < ranges.len() - 1 ==> (#[trigger] ranges[k]).end < ranges[k + 1].start
    &&& forall|p: int|
        0 <= p < d.len() && #[trigger] d[p] ==> exists|k: int|
            0 <= k < ranges.len() && #[trigger] ranges[k].start <= p < ranges[k].end
}

/// The number of positions that `ranges` span, range by range.
pub open spec fn ranges_total(ranges: Seq<InlineRange>) -> int
    decreases ranges.len(),
{
    if ranges.len() == 0 {
        0
    } else {
        ranges_total(ranges.drop_last()) + ranges.last().end - ranges.last().start
    }
}

/// `ranges` are the highlighted ranges of the old line when `old` is compared with `new`:
/// the maximal runs of characters of `old` that the longest common subsequence chosen by
/// the table walk leaves out.
#[verifier::opaque]
pub open spec fn deleted_runs(old: Seq<char>, new: Seq<char>, ranges: Seq<InlineRange>) -> bool {
    &&& maximal_runs(negate(kept_mask_a(old, new)), ranges)
    &&& ranges_total(ranges) == count_true(negate(kept_mask_a(old, new)))
}

/// `ranges` are the highlighted ranges of the new line when `old` is compared with `new`.
#[verifier::opaque]
pub open spec fn added_runs(old: Seq<char>, new: Seq<char>, ranges: Seq<InlineRange>) -> bool {
    &&& maximal_runs(negate(kept_mask_b(old, new)), ranges)
    &&& ranges_total(ranges) == count_true(negate(kept_mask_b(old, new)))
}

/// Compute inline highlight ranges for a pair of lines.
///
/// Returns `(deleted_ranges, added_ranges)` where each is a list of
/// non-overlapping, sorted `InlineRange` referring to character positions
/// within the line content (excluding the `+`/`-` prefix).
pub fn inline_diff(old: &str, new: &str) -> (r: (Vec<InlineRange>, Vec<InlineRange>))
    ensures
        deleted_runs(old@, new@, r.0@),
        added_runs(old@, new@, r.1@),
{
    reveal(deleted_runs);
    reveal(added_runs);
    let old_chars = chars_of(old);
    let new_chars = chars_of(new);

    let lcs = lcs_table(&old_chars, &new_chars);
    let (old_diff, new_diff) = diff_from_lcs(&old_chars, &new_chars, &lcs);

    let deleted_ranges = consolidate_ranges(&old_diff);
    let added_ranges = consolidate_ranges(&new_diff);

    (deleted_ranges, added_ranges)
}

/// Build the LCS DP table.
fn lcs_table(a: &Vec<char>, b: &Vec<char>) -> (dp: Vec<Vec<usize>>)
    ensures
        dp@.len() == a@.len() + 1,
        forall|i: int| 0 <= i <= a@.len() ==> (#[trigger] dp@[i])@.len() == b@.len() + 1,
        forall|i: int, j: int|
            0 <= i <= a@.len() && 0 <= j <= b@.len() ==> #[trigger] dp@[i]@[j] == lcs_len(
                a@,
                b@,
                i as nat,
                j as nat,
            ),
{
    let m = a.len();
    let n = b.len();
    let mut dp: Vec<Vec<usize>> = Vec::new();

    let mut first: Vec<usize> = Vec::new();
    first.push(0);
    let mut j: usize = 0;
    while j < n
        invariant
            j <= n == b@.len(),
            first@.len() == j + 1,
            forall|q: int| 0 <= q <= j ==> first@[q] == 0,
        decreases n - j,
    {
        first.push(0);
        j += 1;
    }
    assert forall|q: int| 0 <= q <= n implies first@[q] == lcs_len(a@, b@, 0, q as nat) by {}
    dp.push(first);

    let mut i: usize = 0;
    while i < m
        invariant
            i <= m == a@.len(),
            n == b@.len(),
            dp@.len() == i + 1,
            forall|p: int| 0 <= p <= i ==> (#[trigger] dp@[p])@.len() == n + 1,
            forall|p: int, q: int|
                0 <= p <= i && 0 <= q <= n ==> #[trigger] dp@[p]@[q] == lcs_len(
                    a@,
                    b@,
                    p as nat,
                    q as nat,
                ),
        decreases m - i,
    {
        i += 1;
        let mut row: Vec<usize> = Vec::new();
        row.push(0);
        let mut j: usize = 0;
        while j < n
            invariant
                1 <= i <= m == a@.len(),
                j <= n == b@.len(),
                dp@.len() == i,
                dp@[i - 1]@.len() == n + 1,
                forall|q: int| 0 <= q <= n ==> #[trigger] dp@[i - 1]@[q] == lcs_len(a@, b@, (i - 1) as nat, q as nat),
                row@.len() == j + 1,
                forall|q: int| 0 <= q <= j ==> #[trigger] row@[q] == lcs_len(a@, b@, i as nat, q as nat),
            decreases n - j,
        {
            j += 1;
            proof {
                lemma_lcs_bounds(a@, b@, (i - 1) as nat, (j - 1) as nat);
            }
            let v = if a[i - 1] == b[j - 1] {
                dp[i - 1][j - 1] + 1
            } else {
                let up = dp[i - 1][j];
                let left = row[j - 1];
                if up >= left {
                    up
                } else {
                    left
                }
            };
            row.push(v);
        }
        dp.push(row);
    }

    dp
}

/// Walk the LCS table backwards to determine which characters are different.
///
/// Returns two boolean vectors: `old_diff[i]` is true if `old[i]` is NOT
/// part of the LCS (i.e. it's a deleted character), and similarly for `new_diff`.
fn diff_from_lcs(old: &Vec<char>, new: &Vec<char>, dp: &Vec<Vec<usize>>) -> (r: (
    Vec<bool>,
    Vec<bool>,
))
    requires
        dp@.len() == old@.len() + 1,
        forall|i: int| 0 <= i <= old@.len() ==> (#[trigger] dp@[i])@.len() == new@.len() + 1,
        forall|i: int, j: int|
            0 <= i <= old@.len() && 0 <= j <= new@.len() ==> #[trigger] dp@[i]@[j] == lcs_len(
                old@,
                new@,
                i as nat,
                j as nat,
            ),
    ensures
        r.0@ == negate(kept_mask_a(old@, new@)),
        r.1@ == negate(kept_mask_b(old@, new@)),
{
    let mut old_diff = vec_of_true(old.len());
    let mut new_diff = vec_of_true(new.len());

    let mut i = old.len();
    let mut j = new.len();
    let ghost full = walk_masks(old@, new@, old@.len(), new@.len());
    let ghost mut ta: Seq<bool> = Seq::empty();
    let ghost mut tb: Seq<bool> = Seq::empty();

    while i > 0 && j > 0
        invariant
            i <= old@.len(),
            j <= new@.len(),
            dp@.len() == old@.len() + 1,
            forall|p: int| 0 <= p <= old@.len() ==> (#[trigger] dp@[p])@.len() == new@.len() + 1,
            forall|p: int, q: int|
                0 <= p <= old@.len() && 0 <= q <= new@.len() ==> #[trigger] dp@[p]@[q]
                    == lcs_len(old@, new@, p as nat, q as nat),
            full == walk_masks(old@, new@, old@.len(), new@.len()),
            full.0 == walk_masks(old@, new@, i as nat, j as nat).0 + ta,
            full.1 == walk_masks(old@, new@, i as nat, j as nat).1 + tb,
            old_diff@ == Seq::new(i as nat, |k: int| true) + negate(ta),
            new_diff@ == Seq::new(j as nat, |k: int| true) + negate(tb),
        decreases i + j,
    {
        let ghost (pa, pb) = walk_masks(old@, new@, (i - 1) as nat, (j - 1) as nat);
        if old[i - 1] == new[j - 1] {
            old_diff.set(i - 1, false);
            new_diff.set(j - 1, false);
            proof {
                let (wa, wb) = walk_masks(old@, new@, i as nat, j as nat);
                assert(wa == pa.push(true));
                assert(pa.push(true) + ta == pa + (seq![true] + ta));
                assert(pb.push(true) + tb == pb + (seq![true] + tb));
                ta = seq![true] + ta;
                tb = seq![true] + tb;
            }
            i -= 1;
            j -= 1;
            assert(old_diff@ == Seq::new(i as nat, |k: int| true) + negate(ta));
            assert(new_diff@ == Seq::new(j as nat, |k: int| true) + negate(tb));
        } else if dp[i - 1][j] >= dp[i][j - 1] {
            proof {
                let (qa, qb) = walk_masks(old@, new@, (i - 1) as nat, j as nat);
                assert(qa.push(false) + ta == qa + (seq![false] + ta));
                ta = seq![false] + ta;
            }
            i -= 1;
            assert(old_diff@ == Seq::new(i as nat, |k: int| true) + negate(ta));
        } else {
            proof {
                let (qa, qb) = walk_masks(old@, new@, i as nat, (j - 1) as nat);
                assert(qb.push(false) + tb == qb + (seq![false] + tb));
                tb = seq![false] + tb;
            }
            j -= 1;
            assert(new_diff@ == Seq::new(j as nat, |k: int| true) + negate(tb));
        }
    }
    assert(old_diff@ == negate(full.0));
    assert(new_diff@ == negate(full.1));

    (old_diff, new_diff)
}

/// A vector of `n` entries, all `true`.
fn vec_of_true(n: usize) -> (v: Vec<bool>)
    ensures
        v@ == Seq::new(n as nat, |k: int| true),
{
    let mut v: Vec<bool> = Vec::new();
    let mut k: usize = 0;
    while k < n
        invariant
            k <= n,
            v@ == Seq::new(k as nat, |q: int| true),
        decreases n - k,
    {
        v.push(true);
        k += 1;
    }
    v
}

/// Merge adjacent true entries in a diff mask into contiguous InlineRanges.
fn consolidate_ranges(diff: &Vec<bool>) -> (ranges: Vec<InlineRange>)
    ensures
        maximal_runs(diff@, ranges@),
        ranges_total(ranges@) == count_true(diff@),
{
    let mut ranges: Vec<InlineRange> = Vec::new();
    let mut i: usize = 0;

    while i < diff.len()
        invariant
            i <= diff@.len(),
            ranges_total(ranges@) == count_true(diff@.take(i as int)),
            i < diff@.len() && diff@[i as int] ==> (i == 0 || !diff@[i - 1]),
            ranges@.len() > 0 ==> ranges@.last().end <= i,
            ranges@.len() > 0 ==> ranges@.last().end == diff@.len() || !diff@[ranges@.last().end as int],
            forall|k: int|
                0 <= k < ranges@.len() ==> 0 <= (#[trigger] ranges@[k]).start < ranges@[k].end <= diff@.len(),
            forall|k: int, p: int|
                0 <= k < ranges@.len() && ranges@[k].start <= p < ranges@[k].end ==> #[trigger] diff@[p]
                    && #[trigger] ranges@[k] == ranges@[k],
            forall|k: int|
                0 <= k < ranges@.len() ==> (#[trigger] ranges@[k]).start == 0 || !diff@[ranges@[k].start - 1],
            forall|k: int|
                0 <= k < ranges@.len() ==> (#[trigger] ranges@[k]).end == diff@.len() || !diff@[ranges@[k].end as int],
            forall|k: int|
                0 <= k < ranges@.len() - 1 ==> (#[trigger] ranges@[k]).end < ranges@[k + 1].start,
            forall|p: int|
                0 <= p < i && #[trigger] diff@[p] ==> exists|k: int|
                    0 <= k < ranges@.len() && #[trigger] ranges@[k].start <= p < ranges@[k].end,
        decreases diff@.len() - i,
    {
        if diff[i] {
            let start = i;
            while i < diff.len() && diff[i]
                invariant
                    start < i <= diff@.len() || (start == i && i < diff@.len() && diff@[i as int]),
                    forall|p: int| start <= p < i ==> #[trigger] diff@[p],
                    ranges_total(ranges@) + (i - start) == count_true(diff@.take(i as int)),
                decreases diff@.len() - i,
            {
                assert(diff@.take(i + 1).drop_last() == diff@.take(i as int));
                i += 1;
            }
            let ghost old_ranges = ranges@;
            ranges.push(InlineRange { start, end: i });
            assert(ranges@.drop_last() == old_ranges);
            assert forall|p: int| 0 <= p < i && #[trigger] diff@[p] implies exists|k: int|
                0 <= k < ranges@.len() && #[trigger] ranges@[k].start <= p < ranges@[k].end by {
                if p >= start {
                    assert(ranges@[ranges@.len() - 1].start <= p < ranges@[ranges@.len() - 1].end);
                } else {
                    let k = choose|k: int|
                        0 <= k < old_ranges.len() && #[trigger] old_ranges[k].start <= p
                            < old_ranges[k].end;
                    assert(ranges@[k] == old_ranges[k]);
                }
            }
        } else {
            assert(diff@.take(i + 1).drop_last() == diff@.take(i as int));
            i += 1;
        }
    }
    assert(diff@.take(i as int) == diff@);

    ranges
}


/// Whether position `p` lies in one of `ranges`.
pub open spec fn covered(ranges: Seq<InlineRange>, p: int) -> bool {
    exists|k: int| 0 <= k < ranges.len() && #[trigger] ranges[k].start <= p < ranges[k].end
}

/// Which of the first `n` positions lie outside every range of `ranges`.
pub open spec fn uncovered_mask(ranges: Seq<InlineRange>, n: nat) -> Seq<bool> {
    Seq::new(n, |p: int| !covered(ranges, p))
}

/// The runs of a mask cover exactly its `true` positions.
pub proof fn lemma_runs_cover(d: Seq<bool>, ranges: Seq<InlineRange>)
    requires
        maximal_runs(d, ranges),
    ensures
        uncovered_mask(ranges, d.len()) == negate(d),
{
    assert forall|p: int| 0 <= p < d.len() implies uncovered_mask(ranges, d.len())[p] == negate(
        d,
    )[p] by {
        if covered(ranges, p) {
            let k = choose|k: int| 0 <= k < ranges.len() && #[trigger] ranges[k].start <= p < ranges[k].end;
            assert(d[p] && ranges[k] == ranges[k]);
        }
    }
}

/// Law: the characters that no range highlights, taken in order, are the same in the old
/// and in the new line; there are as many of them as in a longest common subsequence of the
/// two lines, and no common subsequence is longer.
pub proof fn lemma_unhighlighted_text_is_lcs(
    old: Seq<char>,
    new: Seq<char>,
    del: Seq<InlineRange>,
    add: Seq<InlineRange>,
)
    requires
        deleted_runs(old, new, del),
        added_runs(old, new, add),
    ensures
        select(old, uncovered_mask(del, old.len())) == select(new, uncovered_mask(add, new.len())),
        count_true(uncovered_mask(del, old.len())) == lcs_len(old, new, old.len(), new.len()),
        count_true(uncovered_mask(add, new.len())) == lcs_len(old, new, old.len(), new.len()),
{
    reveal(deleted_runs);
    reveal(added_runs);
    lemma_walk_common(old, new, old.len(), new.len());
    lemma_runs_cover(negate(kept_mask_a(old, new)), del);
    lemma_runs_cover(negate(kept_mask_b(old, new)), add);
    assert(negate(negate(kept_mask_a(old, new))) == kept_mask_a(old, new));
    assert(negate(negate(kept_mask_b(old, new))) == kept_mask_b(old, new));
    assert(old.take(old.len() as int) == old);
    assert(new.take(new.len() as int) == new);
}

/// Law: a line compared with itself gets no highlighted range.
pub proof fn lemma_identical_lines_unhighlighted(
    s: Seq<char>,
    del: Seq<InlineRange>,
    add: Seq<InlineRange>,
)
    requires
        deleted_runs(s, s, del),
        added_runs(s, s, add),
    ensures
        del.len() == 0,
        add.len() == 0,
{
    reveal(deleted_runs);
    reveal(added_runs);
    lemma_walk_identical(s, s.len());
    if del.len() > 0 {
        assert(negate(kept_mask_a(s, s))[del[0].start as int] && del[0] == del[0]);
    }
    if add.len() > 0 {
        assert(negate(kept_mask_b(s, s))[add[0].start as int] && add[0] == add[0]);
    }
}

/// Law: the highlighted ranges of the old line span as many characters as the old line
/// has outside a longest common subsequence, and so do the ranges of the same line when it
/// is the new line of the reversed comparison; the same holds of the new line.
pub proof fn lemma_highlight_totals(
    a: Seq<char>,
    b: Seq<char>,
    del_ab: Seq<InlineRange>,
    add_ab: Seq<InlineRange>,
    del_ba: Seq<InlineRange>,
    add_ba: Seq<InlineRange>,
)
    requires
        deleted_runs(a, b, del_ab),
        added_runs(a, b, add_ab),
        deleted_runs(b, a, del_ba),
        added_runs(b, a, add_ba),
    ensures
        ranges_total(del_ab) == a.len() - lcs_len(a, b, a.len(), b.len()),
        ranges_total(add_ba) == a.len() - lcs_len(a, b, a.len(), b.len()),
        ranges_total(add_ab) == b.len() - lcs_len(a, b, a.len(), b.len()),
        ranges_total(del_ba) == b.len() - lcs_len(a, b, a.len(), b.len()),
{
    reveal(deleted_runs);
    reveal(added_runs);
    lemma_walk_common(a, b, a.len(), b.len());
    lemma_walk_common(b, a, b.len(), a.len());
    lemma_lcs_symmetric(a, b, a.len(), b.len());
    lemma_count_negate(kept_mask_a(a, b));
    lemma_count_negate(kept_mask_b(a, b));
    lemma_count_negate(kept_mask_a(b, a));
    lemma_count_negate(kept_mask_b(b, a));
}

/// A mask that is `true` everywhere has the single run `0..len` when it is not empty.
proof fn lemma_runs_of_all_true(d: Seq<bool>, ranges: Seq<InlineRange>)
    requires
        maximal_runs(d, ranges),
        forall|p: int| 0 <= p < d.len() ==> d[p],
    ensures
        d.len() == 0 ==> ranges.len() == 0,
        d.len() > 0 ==> ranges.len() == 1 && ranges[0].start == 0 && ranges[0].end == d.len(),
{
    if ranges.len() > 0 {
        assert(0 <= ranges[0].start < ranges[0].end <= d.len());
    }
    if d.len() > 0 {
        assert(d[0]);
        let k = choose|k: int| 0 <= k < ranges.len() && #[trigger] ranges[k].start <= 0 < ranges[k].end;
        assert(ranges[0].start == 0);
        if ranges.len() > 1 {
            assert(ranges[1].start == 0 || !d[ranges[1].start - 1]);
            assert(ranges[0].end < ranges[1].start);
        }
        assert(ranges[0].end == d.len() || !d[ranges[0].end as int]);
    }
}

/// Law: when the two lines share no character, each non-empty line is highlighted as a
/// whole, in one range, and an empty line gets no range.
pub proof fn lemma_disjoint_lines_fully_highlighted(
    old: Seq<char>,
    new: Seq<char>,
    del: Seq<InlineRange>,
    add: Seq<InlineRange>,
)
    requires
        forall|p: int, q: int| 0 <= p < old.len() && 0 <= q < new.len() ==> old[p] != new[q],
        deleted_runs(old, new, del),
        added_runs(old, new, add),
    ensures
        old.len() == 0 ==> del.len() == 0,
        old.len() > 0 ==> del.len() == 1 && del[0].start == 0 && del[0].end == old.len(),
        new.len() == 0 ==> add.len() == 0,
        new.len() > 0 ==> add.len() == 1 && add[0].start == 0 && add[0].end == new.len(),
{
    reveal(deleted_runs);
    reveal(added_runs);
    lemma_walk_disjoint(old, new, old.len(), new.len());
    lemma_runs_of_all_true(negate(kept_mask_a(old, new)), del);
    lemma_runs_of_all_true(negate(kept_mask_b(old, new)), add);
}


/// A diff line as `annotate_inline_diffs` takes it: origin, content, inline ranges.
pub type AnnotatedLine = (char, String, Vec<InlineRange>);

/// Which lines are deleted (`'-'`) lines.
pub open spec fn deleted_flags(lines: Seq<AnnotatedLine>) -> Seq<bool> {
    lines.map_values(|l: AnnotatedLine| l.0 == '-')
}

/// Which lines are added (`'+'`) lines.
pub open spec fn added_flags(lines: Seq<AnnotatedLine>) -> Seq<bool> {
    lines.map_values(|l: AnnotatedLine| l.0 == '+')
}

/// Line `p` of `after` is line `p` of `before` with the inline ranges that
/// `annotate_inline_diffs` gives it: those of the comparison with its partner, when it has
/// one, and the ranges it had otherwise.
pub open spec fn annotated_line(before: Seq<AnnotatedLine>, after: Seq<AnnotatedLine>, p: int) -> bool {
    &&& after[p].0 == before[p].0
    &&& after[p].1 == before[p].1
    &&& match partner(deleted_flags(before), added_flags(before), p) {
        Some(q) => if before[p].0 == '-' {
            deleted_runs(before[p].1@, before[q].1@, after[p].2@)
        } else {
            added_runs(before[q].1@, before[p].1@, after[p].2@)
        },
        None => after[p].2 == before[p].2,
    }
}

/// Compares `lines[del_start + k]` with `lines[del_end + k]` for every `k` below the length
/// of the shorter of the runs `del_start..del_end` and `del_end..add_end`.
fn annotate_group(
    lines: &mut [AnnotatedLine],
    del_start: usize,
    del_end: usize,
    add_end: usize,
)
    requires
        del_start <= del_end <= add_end <= old(lines)@.len(),
    ensures
        final(lines)@.len() == old(lines)@.len(),
        forall|p: int|
            0 <= p < old(lines)@.len() && !(del_start <= p < del_start + pair_len(
                del_start,
                del_end,
                add_end,
            )) && !(del_end <= p < del_end + pair_len(del_start, del_end, add_end))
                ==> final(lines)@[p] == old(lines)@[p],
        forall|p: int|
            #![trigger final(lines)@[p]]
            del_start <= p < del_start + pair_len(del_start, del_end, add_end) ==> {
                &&& final(lines)@[p].0 == old(lines)@[p].0
                &&& final(lines)@[p].1 == old(lines)@[p].1
                &&& deleted_runs(old(lines)@[p].1@, old(lines)@[p - del_start + del_end].1@, final(lines)@[p].2@)
            },
        forall|p: int|
            #![trigger final(lines)@[p]]
            del_end <= p < del_end + pair_len(del_start, del_end, add_end) ==> {
                &&& final(lines)@[p].0 == old(lines)@[p].0
                &&& final(lines)@[p].1 == old(lines)@[p].1
                &&& added_runs(old(lines)@[p - del_end + del_start].1@, old(lines)@[p].1@, final(lines)@[p].2@)
            },
{
    let ghost before = lines@;
    let del_count = del_end - del_start;
    let add_count = add_end - del_end;
    let pair_count = if del_count < add_count {
        del_count
    } else {
        add_count
    };
    let mut k: usize = 0;
    while k < pair_count
        invariant
            lines@.len() == before.len(),
            del_start <= del_end <= add_end <= before.len(),
            pair_count == pair_len(del_start, del_end, add_end),
            k <= pair_count,
            forall|p: int|
                0 <= p < before.len() && !(del_start <= p < del_start + k) && !(del_end <= p
                    < del_end + k) ==> lines@[p] == before[p],
            forall|p: int|
                #![trigger lines@[p]]
                del_start <= p < del_start + k ==> {
                    &&& lines@[p].0 == before[p].0
                    &&& lines@[p].1 == before[p].1
                    &&& deleted_runs(before[p].1@, before[p - del_start + del_end].1@, lines@[p].2@)
                },
            forall|p: int|
                #![trigger lines@[p]]
                del_end <= p < del_end + k ==> {
                    &&& lines@[p].0 == before[p].0
                    &&& lines@[p].1 == before[p].1
                    &&& added_runs(before[p - del_end + del_start].1@, before[p].1@, lines@[p].2@)
                },
        decreases pair_count - k,
    {
        let di = del_start + k;
        let ai = del_end + k;
        assert(lines@[di as int] == before[di as int]);
        assert(lines@[ai as int] == before[ai as int]);
        let (del_ranges, add_ranges) = inline_diff(lines[di].1.as_str(), lines[ai].1.as_str());
        assert(deleted_runs(before[di as int].1@, before[ai as int].1@, del_ranges@));
        assert(added_runs(before[di as int].1@, before[ai as int].1@, add_ranges@));
        let ghost prev = lines@;
        lines[di].2 = del_ranges;
        assert(lines@ == prev.update(di as int, (prev[di as int].0, prev[di as int].1, del_ranges)));
        let ghost mid = lines@;
        lines[ai].2 = add_ranges;
        assert(lines@ == mid.update(ai as int, (mid[ai as int].0, mid[ai as int].1, add_ranges)));
        assert(lines@[di as int].2@ == del_ranges@);
        assert(lines@[ai as int].2@ == add_ranges@);
        assert forall|p: int| 0 <= p < before.len() && p != di && p != ai implies lines@[p] == prev[p] by {}
        assert forall|p: int| del_start <= p < del_start + k + 1 implies {
            &&& lines@[p].0 == before[p].0
            &&& lines@[p].1 == before[p].1
            &&& deleted_runs(before[p].1@, before[p - del_start + del_end].1@, lines@[p].2@)
        } by {
            if p < di {
                assert(lines@[p] == prev[p]);
            } else {
                assert(p == di);
                assert(p - del_start + del_end == ai);
                assert(lines@[p].0 == before[p].0);
                assert(lines@[p].1 == before[p].1);
                assert(deleted_runs(before[p].1@, before[ai as int].1@, lines@[p].2@));
            }
        }
        assert forall|p: int| del_end <= p < del_end + k + 1 implies {
            &&& lines@[p].0 == before[p].0
            &&& lines@[p].1 == before[p].1
            &&& added_runs(before[p - del_end + del_start].1@, before[p].1@, lines@[p].2@)
        } by {
            if p < ai {
                assert(lines@[p] == prev[p]);
            } else {
                assert(p == ai);
                assert(p - del_end + del_start == di);
                assert(lines@[p].0 == before[p].0);
                assert(lines@[p].1 == before[p].1);
                assert(added_runs(before[di as int].1@, before[p].1@, lines@[p].2@));
            }
        }
        k += 1;
    }
    assert(before == old(lines)@);
    assert forall|p: int| del_start <= p < del_start + pair_len(del_start, del_end, add_end) implies {
        &&& lines@[p].0 == before[p].0
        &&& lines@[p].1 == before[p].1
        &&& deleted_runs(before[p].1@, before[p - del_start + del_end].1@, lines@[p].2@)
    } by {
        assert(del_start <= p < del_start + k);
    }
    assert forall|p: int| del_end <= p < del_end + pair_len(del_start, del_end, add_end) implies {
        &&& lines@[p].0 == before[p].0
        &&& lines@[p].1 == before[p].1
        &&& added_runs(before[p - del_end + del_start].1@, before[p].1@, lines@[p].2@)
    } by {
        assert(del_end <= p < del_end + k);
    }
}

/// Number of pairs formed by the runs `del_start..del_end` and `del_end..add_end`.
pub open spec fn pair_len(del_start: usize, del_end: usize, add_end: usize) -> int {
    let d = del_end - del_start;
    let a = add_end - del_end;
    if d < a {
        d
    } else {
        a
    }
}

/// Pair consecutive `-` and `+` lines and annotate them with inline ranges.
///
/// `lines` is a mutable slice of `(origin, content, inline_ranges)`.
/// The `origin` field is `'+'`, `'-'`, or other. The `content` field
/// is the raw line content (without the `+`/`-` prefix). The `inline_ranges`
/// field will be populated for paired lines.
pub fn annotate_inline_diffs(lines: &mut [AnnotatedLine])
    ensures
        final(lines)@.len() == old(lines)@.len(),
        forall|p: int| 0 <= p < old(lines)@.len() ==> annotated_line(old(lines)@, final(lines)@, p),
{
    let ghost before = lines@;
    let ghost del = deleted_flags(before);
    let ghost add = added_flags(before);
    let n = lines.len();
    assert forall|p: int| 0 <= p < n implies #[trigger] del[p] == (before[p].0 == '-') by {}
    assert forall|p: int| 0 <= p < n implies #[trigger] add[p] == (before[p].0 == '+') by {}
    let mut i: usize = 0;

    while i < n
        invariant
            n == lines@.len() == before.len(),
            del == deleted_flags(before),
            add == added_flags(before),
            forall|p: int| 0 <= p < n ==> #[trigger] del[p] == (before[p].0 == '-'),
            forall|p: int| 0 <= p < n ==> #[trigger] add[p] == (before[p].0 == '+'),
            i <= n,
            forall|p: int| i <= p < n ==> lines@[p] == before[p],
            forall|p: int| 0 <= p < i ==> annotated_line(before, lines@, p),
            i < n && del[i as int] ==> (i == 0 || !del[i - 1]),
            i < n && add[i as int] ==> (run_start(add, i as int) == 0 || !del[run_start(add, i as int) - 1]),
        decreases n - i,
    {
        if lines[i].0 != '-' {
            proof {
                if add[i as int] {
                    if run_start(add, i as int) == i {
                        assert(!del[i as int]);
                    }
                }
                if i + 1 < n && add[i + 1] {
                    if add[i as int] {
                        assert(run_start(add, i + 1) == run_start(add, i as int));
                    } else {
                        assert(run_start(add, i + 1) == i + 1);
                    }
                }
            }
            i += 1;
            continue;
        }

        // Collect consecutive '-' lines
        let del_start = i;
        while i < n && lines[i].0 == '-'
            invariant
                n == lines@.len() == before.len(),
                del == deleted_flags(before),
                forall|p: int| 0 <= p < n ==> #[trigger] del[p] == (before[p].0 == '-'),
                del_start <= i <= n,
                del_start < n,
                forall|p: int| del_start <= p < n ==> lines@[p] == before[p],
                forall|p: int| del_start <= p < i ==> #[trigger] del[p],
            decreases n - i,
        {
            i += 1;
        }
        let del_end = i;

        // Collect consecutive '+' lines
        let add_start = i;
        while i < n && lines[i].0 == '+'
            invariant
                n == lines@.len() == before.len(),
                add == added_flags(before),
                del == deleted_flags(before),
                forall|p: int| 0 <= p < n ==> #[trigger] add[p] == (before[p].0 == '+'),
                forall|p: int| 0 <= p < n ==> #[trigger] del[p] == (before[p].0 == '-'),
                del_start < add_start <= i <= n,
                forall|p: int| del_start <= p < add_start ==> #[trigger] del[p],
                add_start == n || !del[add_start as int],
                forall|p: int| del_start <= p < n ==> lines@[p] == before[p],
                forall|p: int| add_start <= p < i ==> #[trigger] add[p],
            decreases n - i,
        {
            i += 1;
        }
        let add_end = i;

        proof {
            assert(del_start < del_end);
            assert(del[del_start as int]);
            assert forall|p: int| del_start <= p < del_end implies run_start(del, p) == del_start
                && run_end(del, p) == del_end by {
                lemma_run_start(del, del_start as int, p);
                lemma_run_end(del, p, del_end as int);
            }
            lemma_run_end(add, del_end as int, add_end as int);
            assert(del[del_end - 1]);
            assert(!add[del_end - 1]);
            if add_end > add_start {
                assert(add[add_end - 1]);
                assert(!del[add_end - 1]);
            }
            if add_end < n {
                assert(!add[add_end as int]);
            }
            assert forall|p: int| add_start <= p < add_end implies run_start(add, p) == add_start by {
                lemma_run_start(add, add_start as int, p);
            }
        }

        // Pair them up 1-to-1
        let ghost prior = lines@;
        annotate_group(lines, del_start, del_end, add_end);

        proof {
            let pc = pair_len(del_start, del_end, add_end);
            assert forall|p: int| 0 <= p < i implies annotated_line(before, lines@, p) by {
                if p < del_start {
                    assert(lines@[p] == prior[p]);
                    assert(annotated_line(before, prior, p));
                    assert(annotated_line(before, lines@, p));
                } else if p < del_end {
                    assert(del[p]);
                    assert(run_start(del, p) == del_start && run_end(del, p) == del_end);
                    assert(prior[p] == before[p]);
                    if p - del_start < pc {
                        assert(prior[p - del_start + del_end] == before[p - del_start + del_end]);
                        assert(partner(del, add, p) == Some(p - del_start + del_end));
                        assert(annotated_line(before, lines@, p));
                    } else {
                        assert(partner(del, add, p) == None::<int>);
                        assert(lines@[p] == prior[p]);
                    }
                } else {
                    assert(add[p]);
                    assert(!del[p]);
                    lemma_run_start(del, del_start as int, del_end - 1);
                    assert(run_start(add, p) == add_start);
                    assert(prior[p] == before[p]);
                    if p - del_end < pc {
                        assert(prior[p - del_end + del_start] == before[p - del_end + del_start]);
                        assert(partner(del, add, p) == Some(p - del_end + del_start));
                        assert(annotated_line(before, lines@, p));
                    } else {
                        assert(partner(del, add, p) == None::<int>);
                        assert(lines@[p] == prior[p]);
                    }
                }
            }
        }
    }
}

} // verus!
