use vstd::prelude::*;

use std::ops::Range;

use super::tokenizer::{
    is_token_at, lemma_token_spans_in_order, lemma_tokenization_unique, spans_in_order, spans_of,
    token_spans, tokenizes, tokens_in, Token,
};
use crate::lcs::{
    count_true, kept_mask_a, kept_mask_b, lcs_len, lemma_lcs_bounds, lemma_walk_common,
    lemma_walk_identical, negate, walk_masks,
};
use crate::text::{chars_of, spec_is_plain_whitespace, trim_trailing_newlines, trimmed_len};

verus! {

/// Similarity threshold: if two lines are less similar than this, skip inline highlighting.
/// The threshold is the fraction `SIMILARITY_NUMERATOR / SIMILARITY_DENOMINATOR`, compared
/// exactly in integers.
pub const SIMILARITY_NUMERATOR: usize = 3;

pub const SIMILARITY_DENOMINATOR: usize = 10;

/// Lines longer than this many characters are skipped to avoid O(m·n) LCS degradation.
pub const MAX_LINE_LENGTH: usize = 2000;

/// The texts of the tokens of `s` whose spans are `spans`.
pub open spec fn span_texts(s: Seq<char>, spans: Seq<(int, int)>) -> Seq<Seq<char>> {
    spans.map_values(|sp: (int, int)| s.subrange(sp.0, sp.1))
}

/// Which of the tokens of `s` whose spans are `spans` are whitespace runs.
pub open spec fn span_whitespace(s: Seq<char>, spans: Seq<(int, int)>) -> Seq<bool> {
    spans.map_values(|sp: (int, int)| spec_is_plain_whitespace(s[sp.0]))
}

/// Number of positions where `matched` is `true` and `ws` is `false`.
pub open spec fn count_matched_non_ws(matched: Seq<bool>, ws: Seq<bool>) -> nat
    decreases matched.len(),
{
    if matched.len() == 0 || ws.len() == 0 {
        0
    } else {
        count_matched_non_ws(matched.drop_last(), ws.drop_last()) + if matched.last()
            && !ws.last() {
            1nat
        } else {
            0nat
        }
    }
}

/// First position from `j` on where `matched` holds (or the length).
pub open spec fn unmatched_run_end(matched: Seq<bool>, j: int) -> int
    decreases matched.len() - j,
{
    if 0 <= j < matched.len() && !matched[j] {
        unmatched_run_end(matched, j + 1)
    } else {
        j
    }
}

/// Last position in `i..j` where `ws` is `false`; `i` when there is none after it.
pub open spec fn last_non_ws(ws: Seq<bool>, i: int, j: int) -> int
    decreases j - i,
{
    if j - 1 <= i {
        i
    } else if !ws[j - 1] {
        j - 1
    } else {
        last_non_ws(ws, i, j - 1)
    }
}

/// The highlighted ranges of a line from token `i` on: each maximal run of unmatched
/// tokens that holds a non-whitespace token gives one range, from the start of its first
/// non-whitespace token to the end of its last one.
pub open spec fn merged_spans(
    spans: Seq<(int, int)>,
    ws: Seq<bool>,
    matched: Seq<bool>,
    i: int,
) -> Seq<(int, int)>
    decreases matched.len() - i,
{
    if 0 <= i < spans.len() && i < matched.len() {
        if matched[i] || ws[i] {
            merged_spans(spans, ws, matched, i + 1)
        } else {
            let j = unmatched_run_end(matched, i + 1);
            let e = last_non_ws(ws, i, j);
            proof {
                lemma_unmatched_run_end(matched, i + 1);
            }
            seq![(spans[i].0, spans[e].1)] + merged_spans(spans, ws, matched, j)
        }
    } else {
        Seq::empty()
    }
}

pub proof fn lemma_unmatched_run_end(matched: Seq<bool>, j: int)
    ensures
        unmatched_run_end(matched, j) >= j,
        0 <= j <= matched.len() ==> unmatched_run_end(matched, j) <= matched.len(),
    decreases matched.len() - j,
{
    if 0 <= j < matched.len() && !matched[j] {
        lemma_unmatched_run_end(matched, j + 1);
    }
}

/// The pairs `(start, end)` of `ranges`.
pub open spec fn range_pairs(ranges: Seq<Range<usize>>) -> Seq<(int, int)> {
    ranges.map_values(|r: Range<usize>| (r.start as int, r.end as int))
}

/// What `emphasis` returns for the lines `old` and `new`, as `(start, end)` character pairs.
pub open spec fn emphasis_spans(old: Seq<char>, new: Seq<char>) -> (Seq<(int, int)>, Seq<(int, int)>) {
    let o = trim_trailing_newlines(old);
    let n = trim_trailing_newlines(new);
    let so = token_spans(o, 0);
    let sn = token_spans(n, 0);
    let to = span_texts(o, so);
    let tn = span_texts(n, sn);
    let ma = kept_mask_a(to, tn);
    let mb = kept_mask_b(to, tn);
    let wo = span_whitespace(o, so);
    let wn = span_whitespace(n, sn);
    let denom = count_true(negate(wo)) + count_true(negate(wn));
    let matched = count_matched_non_ws(ma, wo) + count_matched_non_ws(mb, wn);
    if o.len() > MAX_LINE_LENGTH || n.len() > MAX_LINE_LENGTH || so.len() == 0 || sn.len() == 0
        || denom == 0 || SIMILARITY_DENOMINATOR * matched < SIMILARITY_NUMERATOR * denom {
        (Seq::empty(), Seq::empty())
    } else {
        (merged_spans(so, wo, ma, 0), merged_spans(sn, wn, mb, 0))
    }
}


/// The texts of `toks`.
pub open spec fn texts_of(toks: Seq<Token>) -> Seq<Seq<char>> {
    toks.map_values(|t: Token| t.text@)
}

/// Which of `toks` are whitespace runs.
pub open spec fn whitespace_of(toks: Seq<Token>) -> Seq<bool> {
    toks.map_values(|t: Token| t.is_whitespace)
}

/// Compute inline highlight ranges for a pair of lines using token-level LCS.
///
/// Returns `(del_ranges, add_ranges)` — character-index ranges within each line
/// that should be emphasized as the changed portions.
pub fn emphasis(old: &str, new: &str) -> (r: (Vec<Range<usize>>, Vec<Range<usize>>))
    ensures
        (range_pairs(r.0@), range_pairs(r.1@)) == emphasis_spans(old@, new@),
{
    // Strip trailing newlines; the line content may come with its line terminator.
    let old_chars = chars_of(old);
    let new_chars = chars_of(new);
    let old_len = trimmed_len(&old_chars);
    let new_len = trimmed_len(&new_chars);
    let ghost o = trim_trailing_newlines(old@);
    let ghost n = trim_trailing_newlines(new@);

    // Length protection (character count)
    if old_len > MAX_LINE_LENGTH || new_len > MAX_LINE_LENGTH {
        return (Vec::new(), Vec::new());
    }
    let old_tokens = tokens_in(&old_chars, old_len);
    let new_tokens = tokens_in(&new_chars, new_len);
    proof {
        lemma_tokens_view(o, old_tokens@);
        lemma_tokens_view(n, new_tokens@);
    }

    if old_tokens.len() == 0 || new_tokens.len() == 0 {
        return (Vec::new(), Vec::new());
    }

    let dp = lcs_table(old_tokens.as_slice(), new_tokens.as_slice());
    let (old_matched, new_matched) = lcs_match_mask(
        old_tokens.as_slice(),
        new_tokens.as_slice(),
        &dp,
    );
    proof {
        lemma_walk_common(
            texts_of(old_tokens@),
            texts_of(new_tokens@),
            old_tokens@.len(),
            new_tokens@.len(),
        );
    }

    // Compute similarity: matched_non_ws / (old_non_ws + new_non_ws)
    let (old_non_ws, old_matched_non_ws) = non_whitespace_counts(old_tokens.as_slice(), &old_matched);
    let (new_non_ws, new_matched_non_ws) = non_whitespace_counts(new_tokens.as_slice(), &new_matched);
    let denom = old_non_ws + new_non_ws;

    if denom == 0 {
        return (Vec::new(), Vec::new());
    }

    let matched_non_ws = old_matched_non_ws + new_matched_non_ws;
    if SIMILARITY_DENOMINATOR * matched_non_ws < SIMILARITY_NUMERATOR * denom {
        return (Vec::new(), Vec::new());
    }

    let del_ranges = merged_ranges(old_tokens.as_slice(), &old_matched);
    let add_ranges = merged_ranges(new_tokens.as_slice(), &new_matched);

    (del_ranges, add_ranges)
}

/// The tokens of a line carry the spans, texts and whitespace flags of its tokenization.
proof fn lemma_tokens_view(s: Seq<char>, toks: Seq<Token>)
    requires
        tokenizes(s, toks),
    ensures
        spans_of(toks) == token_spans(s, 0),
        texts_of(toks) == span_texts(s, token_spans(s, 0)),
        whitespace_of(toks) == span_whitespace(s, token_spans(s, 0)),
        toks.len() <= s.len(),
        forall|k: int| 0 <= k < toks.len() ==> (#[trigger] toks[k]).start < toks[k].end <= s.len(),
{
    lemma_tokenization_unique(s, toks);
    let spans = token_spans(s, 0);
    assert(spans.len() == toks.len());
    assert forall|k: int| 0 <= k < toks.len() implies texts_of(toks)[k] == span_texts(s, spans)[k]
        && whitespace_of(toks)[k] == span_whitespace(s, spans)[k] by {
        assert(is_token_at(s, toks[k]));
        assert(spans[k] == spans_of(toks)[k]);
    }
    assert(texts_of(toks) == span_texts(s, spans));
    assert(whitespace_of(toks) == span_whitespace(s, spans));
    assert forall|k: int| 0 <= k < toks.len() implies (#[trigger] toks[k]).start < toks[k].end <= s.len() by {
        assert(is_token_at(s, toks[k]));
    }
    if toks.len() > s.len() {
        lemma_token_count(s, toks, toks.len() as int);
    }
}

/// The first `n` tokens of a line end at or after position `n`.
proof fn lemma_token_count(s: Seq<char>, toks: Seq<Token>, n: int)
    requires
        tokenizes(s, toks),
        0 < n <= toks.len(),
    ensures
        toks[n - 1].end >= n,
    decreases n,
{
    assert(is_token_at(s, toks[n - 1]));
    if n > 1 {
        lemma_token_count(s, toks, n - 1);
        assert(toks[n - 2].end == toks[n - 1].start);
    }
}

/// Number of non-whitespace tokens, and number of those that are matched.
fn non_whitespace_counts(tokens: &[Token], matched: &Vec<bool>) -> (r: (usize, usize))
    requires
        matched@.len() == tokens@.len(),
    ensures
        r.0 == count_true(negate(whitespace_of(tokens@))),
        r.1 == count_matched_non_ws(matched@, whitespace_of(tokens@)),
        r.1 <= r.0 <= tokens@.len(),
{
    let mut total: usize = 0;
    let mut matched_count: usize = 0;
    let mut k: usize = 0;
    while k < tokens.len()
        invariant
            k <= tokens@.len() == matched@.len(),
            total == count_true(negate(whitespace_of(tokens@.take(k as int)))),
            matched_count == count_matched_non_ws(
                matched@.take(k as int),
                whitespace_of(tokens@.take(k as int)),
            ),
            matched_count <= total <= k,
        decreases tokens@.len() - k,
    {
        proof {
            let w = whitespace_of(tokens@.take(k + 1));
            assert(negate(w).drop_last() == negate(whitespace_of(tokens@.take(k as int))));
            assert(w.drop_last() == whitespace_of(tokens@.take(k as int)));
            assert(matched@.take(k + 1).drop_last() == matched@.take(k as int));
        }
        if !tokens[k].is_whitespace {
            total += 1;
            if matched[k] {
                matched_count += 1;
            }
        }
        k += 1;
    }
    assert(tokens@.take(k as int) == tokens@);
    assert(matched@.take(k as int) == matched@);
    (total, matched_count)
}


/// Build the LCS DP table over token text.
fn lcs_table(a: &[Token], b: &[Token]) -> (dp: Vec<Vec<usize>>)
    ensures
        dp@.len() == a@.len() + 1,
        forall|i: int| 0 <= i <= a@.len() ==> (#[trigger] dp@[i])@.len() == b@.len() + 1,
        forall|i: int, j: int|
            0 <= i <= a@.len() && 0 <= j <= b@.len() ==> #[trigger] dp@[i]@[j] == lcs_len(
                texts_of(a@),
                texts_of(b@),
                i as nat,
                j as nat,
            ),
{
    let ghost ta = texts_of(a@);
    let ghost tb = texts_of(b@);
    let m = a.len();
    let n = b.len();
    let mut dp: Vec<Vec<usize>> = Vec::new();

    let mut first: Vec<usize> = Vec::new();
    first.push(0);
    let mut j: usize = 0;
    while j < n
        invariant
            j <= n == b@.len(),
            first@.len() == j + 1,
            forall|q: int| 0 <= q <= j ==> #[trigger] first@[q] == 0,
        decreases n - j,
    {
        first.push(0);
        j += 1;
    }
    assert forall|q: int| 0 <= q <= n implies #[trigger] first@[q] == lcs_len(ta, tb, 0, q as nat) by {}
    dp.push(first);

    let mut i: usize = 0;
    while i < m
        invariant
            i <= m == a@.len(),
            n == b@.len(),
            ta == texts_of(a@),
            tb == texts_of(b@),
            dp@.len() == i + 1,
            forall|p: int| 0 <= p <= i ==> (#[trigger] dp@[p])@.len() == n + 1,
            forall|p: int, q: int|
                0 <= p <= i && 0 <= q <= n ==> #[trigger] dp@[p]@[q] == lcs_len(ta, tb, p as nat, q as nat),
        decreases m - i,
    {
        i += 1;
        let mut row: Vec<usize> = Vec::new();
        row.push(0);
        let mut j: usize = 0;
        while j < n
            invariant
                1 <= i <= m == a@.len(),
                j <= n == b@.len(),
                ta == texts_of(a@),
                tb == texts_of(b@),
                dp@.len() == i,
                dp@[i - 1]@.len() == n + 1,
                forall|q: int| 0 <= q <= n ==> #[trigger] dp@[i - 1]@[q] == lcs_len(ta, tb, (i - 1) as nat, q as nat),
                row@.len() == j + 1,
                forall|q: int| 0 <= q <= j ==> #[trigger] row@[q] == lcs_len(ta, tb, i as nat, q as nat),
            decreases n - j,
        {
            j += 1;
            proof {
                lemma_lcs_bounds(ta, tb, (i - 1) as nat, (j - 1) as nat);
            }
            let v = if a[i - 1].text == b[j - 1].text {
                dp[i - 1][j - 1] + 1
            } else {
                let up = dp[i - 1][j];
                let left = row[j - 1];
                if up >= left {
                    up
                } else {
                    left
                }
            };
            row.push(v);
        }
        dp.push(row);
    }

    dp
}

/// Walk the LCS table backwards to determine which tokens are matched (in LCS).
fn lcs_match_mask(a: &[Token], b: &[Token], dp: &Vec<Vec<usize>>) -> (r: (Vec<bool>, Vec<bool>))
    requires
        dp@.len() == a@.len() + 1,
        forall|i: int| 0 <= i <= a@.len() ==> (#[trigger] dp@[i])@.len() == b@.len() + 1,
        forall|i: int, j: int|
            0 <= i <= a@.len() && 0 <= j <= b@.len() ==> #[trigger] dp@[i]@[j] == lcs_len(
                texts_of(a@),
                texts_of(b@),
                i as nat,
                j as nat,
            ),
    ensures
        r.0@ == kept_mask_a(texts_of(a@), texts_of(b@)),
        r.1@ == kept_mask_b(texts_of(a@), texts_of(b@)),
{
    let ghost ta = texts_of(a@);
    let ghost tb = texts_of(b@);
    let mut a_matched = vec_of_false(a.len());
    let mut b_matched = vec_of_false(b.len());

    let mut i = a.len();
    let mut j = b.len();
    let ghost full = walk_masks(ta, tb, ta.len(), tb.len());
    let ghost mut ka: Seq<bool> = Seq::empty();
    let ghost mut kb: Seq<bool> = Seq::empty();

    while i > 0 && j > 0
        invariant
            i <= a@.len(),
            j <= b@.len(),
            ta == texts_of(a@),
            tb == texts_of(b@),
            dp@.len() == a@.len() + 1,
            forall|p: int| 0 <= p <= a@.len() ==> (#[trigger] dp@[p])@.len() == b@.len() + 1,
            forall|p: int, q: int|
                0 <= p <= a@.len() && 0 <= q <= b@.len() ==> #[trigger] dp@[p]@[q] == lcs_len(
                    ta,
                    tb,
                    p as nat,
                    q as nat,
                ),
            full == walk_masks(ta, tb, ta.len(), tb.len()),
            full.0 == walk_masks(ta, tb, i as nat, j as nat).0 + ka,
            full.1 == walk_masks(ta, tb, i as nat, j as nat).1 + kb,
            a_matched@ == Seq::new(i as nat, |k: int| false) + ka,
            b_matched@ == Seq::new(j as nat, |k: int| false) + kb,
        decreases i + j,
    {
        proof {
            lemma_lcs_bounds(ta, tb, (i - 1) as nat, (j - 1) as nat);
        }
        if a[i - 1].text == b[j - 1].text && dp[i][j] == dp[i - 1][j - 1] + 1 {
            a_matched.set(i - 1, true);
            b_matched.set(j - 1, true);
            proof {
                let (pa, pb) = walk_masks(ta, tb, (i - 1) as nat, (j - 1) as nat);
                assert(pa.push(true) + ka == pa + (seq![true] + ka));
                assert(pb.push(true) + kb == pb + (seq![true] + kb));
                ka = seq![true] + ka;
                kb = seq![true] + kb;
            }
            i -= 1;
            j -= 1;
            assert(a_matched@ == Seq::new(i as nat, |k: int| false) + ka);
            assert(b_matched@ == Seq::new(j as nat, |k: int| false) + kb);
        } else if dp[i - 1][j] >= dp[i][j - 1] {
            proof {
                assert(ta[i - 1] != tb[j - 1]);
                let (qa, qb) = walk_masks(ta, tb, (i - 1) as nat, j as nat);
                assert(qa.push(false) + ka == qa + (seq![false] + ka));
                ka = seq![false] + ka;
            }
            i -= 1;
            assert(a_matched@ == Seq::new(i as nat, |k: int| false) + ka);
        } else {
            proof {
                assert(ta[i - 1] != tb[j - 1]);
                let (qa, qb) = walk_masks(ta, tb, i as nat, (j - 1) as nat);
                assert(qb.push(false) + kb == qb + (seq![false] + kb));
                kb = seq![false] + kb;
            }
            j -= 1;
            assert(b_matched@ == Seq::new(j as nat, |k: int| false) + kb);
        }
    }
    assert(a_matched@ == full.0);
    assert(b_matched@ == full.1);

    (a_matched, b_matched)
}

/// A vector of `n` entries, all `false`.
fn vec_of_false(n: usize) -> (v: Vec<bool>)
    ensures
        v@ == Seq::new(n as nat, |k: int| false),
{
    let mut v: Vec<bool> = Vec::new();
    let mut k: usize = 0;
    while k < n
        invariant
            k <= n,
            v@ == Seq::new(k as nat, |q: int| false),
        decreases n - k,
    {
        v.push(false);
        k += 1;
    }
    v
}

/// Merge unmatched non-whitespace tokens into contiguous Ranges.
/// Unmatched whitespace between unmatched non-whitespace tokens keeps ranges visually continuous.
fn merged_ranges(tokens: &[Token], matched: &Vec<bool>) -> (ranges: Vec<Range<usize>>)
    requires
        matched@.len() == tokens@.len(),
    ensures
        range_pairs(ranges@) == merged_spans(
            spans_of(tokens@),
            whitespace_of(tokens@),
            matched@,
            0,
        ),
{
    let ghost spans = spans_of(tokens@);
    let ghost ws = whitespace_of(tokens@);
    let ghost total = merged_spans(spans, ws, matched@, 0);
    let mut ranges: Vec<Range<usize>> = Vec::new();
    let mut i: usize = 0;

    while i < tokens.len()
        invariant
            i <= tokens@.len() == matched@.len(),
            spans == spans_of(tokens@),
            ws == whitespace_of(tokens@),
            total == merged_spans(spans, ws, matched@, 0),
            range_pairs(ranges@) + merged_spans(spans, ws, matched@, i as int) == total,
        decreases tokens@.len() - i,
    {
        // Skip matched tokens
        if matched[i] {
            i += 1;
            continue;
        }
        // Unmatched but pure whitespace: don't start a range here
        if tokens[i].is_whitespace {
            i += 1;
            continue;
        }

        let start = i;
        let mut end = i;
        let mut j = i + 1;
        while j < tokens.len()
            invariant
                start < j <= tokens@.len() == matched@.len(),
                ws == whitespace_of(tokens@),
                forall|k: int| start < k < j ==> !matched@[k],
                end == last_non_ws(ws, start as int, j as int),
            ensures
                start < j <= tokens@.len(),
                j == tokens@.len() || matched@[j as int],
                forall|k: int| start < k < j ==> !matched@[k],
                end == last_non_ws(ws, start as int, j as int),
            decreases tokens@.len() - j,
        {
            if matched[j] {
                break;
            }
            if !tokens[j].is_whitespace {
                end = j;
            }
            j += 1;
        }
        proof {
            lemma_unmatched_run_reaches(matched@, start + 1, j as int);
            lemma_last_non_ws_bounds(ws, start as int, j as int);
        }

        // [start..=end] contains at least one unmatched non-whitespace token
        let ghost old_ranges = ranges@;
        ranges.push(tokens[start].start..tokens[end].end);
        assert(range_pairs(ranges@) == range_pairs(old_ranges).push(
            (tokens@[start as int].start as int, tokens@[end as int].end as int),
        ));
        assert(merged_spans(spans, ws, matched@, start as int) == seq![(spans[start as int].0, spans[end as int].1)]
            + merged_spans(spans, ws, matched@, j as int));

        i = j;
    }

    ranges
}

pub proof fn lemma_unmatched_run_reaches(matched: Seq<bool>, j: int, e: int)
    requires
        0 <= j <= e <= matched.len(),
        forall|k: int| j <= k < e ==> !matched[k],
        e == matched.len() || matched[e],
    ensures
        unmatched_run_end(matched, j) == e,
    decreases e - j,
{
    if j < e {
        lemma_unmatched_run_reaches(matched, j + 1, e);
    }
}

pub proof fn lemma_last_non_ws_bounds(ws: Seq<bool>, i: int, j: int)
    requires
        i < j,
    ensures
        i <= last_non_ws(ws, i, j) < j,
    decreases j - i,
{
    if j - 1 > i && ws[j - 1] {
        lemma_last_non_ws_bounds(ws, i, j - 1);
    }
}

/// With every token matched from `i` on, nothing is highlighted from `i` on.
proof fn lemma_merged_spans_all_matched(
    spans: Seq<(int, int)>,
    ws: Seq<bool>,
    matched: Seq<bool>,
    i: int,
)
    requires
        0 <= i,
        forall|x: int| i <= x < matched.len() ==> #[trigger] matched[x],
    ensures
        merged_spans(spans, ws, matched, i) == Seq::<(int, int)>::empty(),
    decreases matched.len() - i,
{
    if 0 <= i < spans.len() && i < matched.len() {
        lemma_merged_spans_all_matched(spans, ws, matched, i + 1);
    }
}

/// Law: comparing a line with itself emphasizes nothing on either side.
pub proof fn lemma_identical_lines_unemphasized(s: Seq<char>)
    ensures
        emphasis_spans(s, s) == (Seq::<(int, int)>::empty(), Seq::<(int, int)>::empty()),
{
    let o = trim_trailing_newlines(s);
    let so = token_spans(o, 0);
    let to = span_texts(o, so);
    let wo = span_whitespace(o, so);
    lemma_walk_identical(to, to.len());
    let all = Seq::new(to.len(), |k: int| true);
    assert(kept_mask_a(to, to) == all);
    assert(kept_mask_b(to, to) == all);
    lemma_merged_spans_all_matched(so, wo, all, 0);
}

/// The highlighted ranges from token `i` on are in order, inside the spans, and start no
/// earlier than token `i`.
proof fn lemma_merged_spans_in_order(
    spans: Seq<(int, int)>,
    ws: Seq<bool>,
    matched: Seq<bool>,
    i: int,
    hi: int,
)
    requires
        0 <= i,
        matched.len() <= spans.len(),
        spans_in_order(spans, 0, hi),
    ensures
        spans_in_order(merged_spans(spans, ws, matched, i), 0, hi),
        forall|k: int|
            0 <= k < merged_spans(spans, ws, matched, i).len() && i < spans.len() ==> spans[i].0
                <= (#[trigger] merged_spans(spans, ws, matched, i)[k]).0,
    decreases matched.len() - i,
{
    let r = merged_spans(spans, ws, matched, i);
    if 0 <= i < spans.len() && i < matched.len() {
        if matched[i] || ws[i] {
            lemma_merged_spans_in_order(spans, ws, matched, i + 1, hi);
            assert forall|k: int| 0 <= k < r.len() implies spans[i].0 <= (#[trigger] r[k]).0 by {
                assert(i + 1 < spans.len());
                assert(spans[i].1 <= spans[i + 1].0);
            }
        } else {
            let j = unmatched_run_end(matched, i + 1);
            lemma_unmatched_run_end(matched, i + 1);
            let e = last_non_ws(ws, i, j);
            lemma_last_non_ws_bounds(ws, i, j);
            lemma_merged_spans_in_order(spans, ws, matched, j, hi);
            let rest = merged_spans(spans, ws, matched, j);
            assert(r == seq![(spans[i].0, spans[e].1)] + rest);
            if e > i {
                assert(spans[i].1 <= spans[e].0);
            }
            assert forall|k: int| 0 <= k < r.len() implies 0 <= (#[trigger] r[k]).0 < r[k].1
                <= hi by {
                if k > 0 {
                    assert(r[k] == rest[k - 1]);
                }
            }
            assert forall|a: int, b: int| 0 <= a < b < r.len() implies (#[trigger] r[a]).1 <= (
            #[trigger] r[b]).0 by {
                assert(r[b] == rest[b - 1]);
                if a > 0 {
                    assert(r[a] == rest[a - 1]);
                } else {
                    assert(j < spans.len());
                    assert(spans[e].1 <= spans[j].0);
                    assert(spans[j].0 <= rest[b - 1].0);
                }
            }
            assert forall|k: int| 0 <= k < r.len() implies spans[i].0 <= (#[trigger] r[k]).0 by {
                if k > 0 {
                    assert(r[k] == rest[k - 1]);
                    assert(j < spans.len());
                    assert(spans[i].1 <= spans[j].0);
                }
            }
        }
    }
}

/// Law: the emphasized ranges of each line lie inside the line (without its trailing
/// newlines), each non-empty, in increasing order and without overlap.
pub proof fn lemma_emphasis_in_order(old: Seq<char>, new: Seq<char>)
    ensures
        spans_in_order(emphasis_spans(old, new).0, 0, trim_trailing_newlines(old).len() as int),
        spans_in_order(emphasis_spans(old, new).1, 0, trim_trailing_newlines(new).len() as int),
{
    let o = trim_trailing_newlines(old);
    let n = trim_trailing_newlines(new);
    let so = token_spans(o, 0);
    let sn = token_spans(n, 0);
    let to = span_texts(o, so);
    let tn = span_texts(n, sn);
    lemma_token_spans_in_order(o, 0);
    lemma_token_spans_in_order(n, 0);
    lemma_walk_common(to, tn, to.len(), tn.len());
    lemma_merged_spans_in_order(so, span_whitespace(o, so), kept_mask_a(to, tn), 0, o.len() as int);
    lemma_merged_spans_in_order(sn, span_whitespace(n, sn), kept_mask_b(to, tn), 0, n.len() as int);
}

/// Matched tokens (by their spans) lie outside every range of `ranges`, and each unmatched
/// token that is not whitespace lies inside one of them.
pub open spec fn marks_exactly(
    spans: Seq<(int, int)>,
    ws: Seq<bool>,
    matched: Seq<bool>,
    ranges: Seq<(int, int)>,
) -> bool {
    forall|k: int|
        0 <= k < matched.len() ==> {
            &&& #[trigger] matched[k] ==> forall|r: int|
                0 <= r < ranges.len() ==> spans[k].1 <= (#[trigger] ranges[r]).0 || ranges[r].1
                    <= spans[k].0
            &&& !matched[k] && !ws[k] ==> exists|r: int|
                0 <= r < ranges.len() && (#[trigger] ranges[r]).0 <= spans[k].0 && spans[k].1
                    <= ranges[r].1
        }
}

/// The token spans, whitespace flags and matched flags of the old line and of the new line,
/// as `emphasis` works them out.
pub open spec fn emphasis_tokens(old: Seq<char>, new: Seq<char>) -> (
    Seq<(int, int)>,
    Seq<bool>,
    Seq<bool>,
    Seq<(int, int)>,
    Seq<bool>,
    Seq<bool>,
) {
    let o = trim_trailing_newlines(old);
    let n = trim_trailing_newlines(new);
    let so = token_spans(o, 0);
    let sn = token_spans(n, 0);
    let to = span_texts(o, so);
    let tn = span_texts(n, sn);
    (so, span_whitespace(o, so), kept_mask_a(to, tn), sn, span_whitespace(n, sn), kept_mask_b(to, tn))
}

/// Whether `emphasis` highlights the pair at all: neither line is too long, both have
/// tokens, some token is not whitespace, and the lines are similar enough.
pub open spec fn emphasis_applies(old: Seq<char>, new: Seq<char>) -> bool {
    let (so, wo, ma, sn, wn, mb) = emphasis_tokens(old, new);
    let denom = count_true(negate(wo)) + count_true(negate(wn));
    let matched = count_matched_non_ws(ma, wo) + count_matched_non_ws(mb, wn);
    !(trim_trailing_newlines(old).len() > MAX_LINE_LENGTH || trim_trailing_newlines(new).len()
        > MAX_LINE_LENGTH || so.len() == 0 || sn.len() == 0 || denom == 0
        || SIMILARITY_DENOMINATOR * matched < SIMILARITY_NUMERATOR * denom)
}

/// The last non-whitespace position of `i..j` is at or after every non-whitespace position
/// there.
proof fn lemma_last_non_ws_is_last(ws: Seq<bool>, i: int, j: int, k: int)
    requires
        i <= k < j,
        !ws[k],
    ensures
        k <= last_non_ws(ws, i, j),
    decreases j - i,
{
    if j - 1 > i && ws[j - 1] {
        lemma_last_non_ws_is_last(ws, i, j - 1, k);
    }
}

/// Every position of `j..unmatched_run_end(matched, j)` is unmatched.
proof fn lemma_unmatched_run(matched: Seq<bool>, j: int, k: int)
    requires
        0 <= j <= k < unmatched_run_end(matched, j),
    ensures
        !matched[k],
    decreases matched.len() - j,
{
    if 0 <= j < matched.len() && !matched[j] && k > j {
        lemma_unmatched_run(matched, j + 1, k);
    }
}

/// The ranges from token `i` on mark the tokens from `i` on exactly, and lie after the
/// tokens before `i`.
proof fn lemma_merged_spans_mark(
    spans: Seq<(int, int)>,
    ws: Seq<bool>,
    matched: Seq<bool>,
    i: int,
    hi: int,
)
    requires
        0 <= i,
        matched.len() <= spans.len(),
        ws.len() == matched.len(),
        spans_in_order(spans, 0, hi),
    ensures
        forall|k: int|
            i <= k < matched.len() ==> {
                &&& #[trigger] matched[k] ==> forall|r: int|
                    0 <= r < merged_spans(spans, ws, matched, i).len() ==> spans[k].1 <= (
                    #[trigger] merged_spans(spans, ws, matched, i)[r]).0 || merged_spans(
                        spans,
                        ws,
                        matched,
                        i,
                    )[r].1 <= spans[k].0
                &&& !matched[k] && !ws[k] ==> exists|r: int|
                    0 <= r < merged_spans(spans, ws, matched, i).len() && (
                    #[trigger] merged_spans(spans, ws, matched, i)[r]).0 <= spans[k].0
                        && spans[k].1 <= merged_spans(spans, ws, matched, i)[r].1
            },
        forall|k: int, r: int|
            0 <= k < i && k < spans.len() && 0 <= r < merged_spans(spans, ws, matched, i).len()
                ==> spans[k].1 <= (#[trigger] merged_spans(spans, ws, matched, i)[r]).0
                && #[trigger] spans[k] == spans[k],
    decreases matched.len() - i,
{
    let m = merged_spans(spans, ws, matched, i);
    lemma_merged_spans_in_order(spans, ws, matched, i, hi);
    if 0 <= i < spans.len() && i < matched.len() {
        if matched[i] || ws[i] {
            lemma_merged_spans_mark(spans, ws, matched, i + 1, hi);
            assert(m == merged_spans(spans, ws, matched, i + 1));
            assert forall|k: int, r: int|
                0 <= k < i && k < spans.len() && 0 <= r < m.len() implies spans[k].1 <= (
            #[trigger] m[r]).0 && #[trigger] spans[k] == spans[k] by {
                assert(spans[k].1 <= spans[i].0);
            }
            assert forall|k: int| i <= k < matched.len() implies {
                &&& #[trigger] matched[k] ==> forall|r: int|
                    0 <= r < m.len() ==> spans[k].1 <= (#[trigger] m[r]).0 || m[r].1 <= spans[k].0
                &&& !matched[k] && !ws[k] ==> exists|r: int|
                    0 <= r < m.len() && (#[trigger] m[r]).0 <= spans[k].0 && spans[k].1 <= m[r].1
            } by {
                if k == i && matched[k] {
                    assert forall|r: int| 0 <= r < m.len() implies spans[k].1 <= (
                    #[trigger] m[r]).0 || m[r].1 <= spans[k].0 by {
                        assert(spans[i] == spans[i]);
                        assert(merged_spans(spans, ws, matched, i + 1)[r] == m[r]);
                    }
                }
            }
        } else {
            let j = unmatched_run_end(matched, i + 1);
            lemma_unmatched_run_end(matched, i + 1);
            let e = last_non_ws(ws, i, j);
            lemma_last_non_ws_bounds(ws, i, j);
            lemma_merged_spans_mark(spans, ws, matched, j, hi);
            let rest = merged_spans(spans, ws, matched, j);
            assert(m == seq![(spans[i].0, spans[e].1)] + rest);
            assert forall|k: int, r: int|
                0 <= k < i && k < spans.len() && 0 <= r < m.len() implies spans[k].1 <= (
            #[trigger] m[r]).0 && #[trigger] spans[k] == spans[k] by {
                assert(spans[k].1 <= spans[i].0);
                if r > 0 {
                    assert(m[r] == rest[r - 1]);
                    assert(j < spans.len());
                    assert(spans[i].0 < spans[i].1);
                    assert(spans[i].1 <= spans[j].0);
                    assert(spans[j] == spans[j]);
                }
            }
            assert forall|k: int| i <= k < matched.len() implies {
                &&& #[trigger] matched[k] ==> forall|r: int|
                    0 <= r < m.len() ==> spans[k].1 <= (#[trigger] m[r]).0 || m[r].1 <= spans[k].0
                &&& !matched[k] && !ws[k] ==> exists|r: int|
                    0 <= r < m.len() && (#[trigger] m[r]).0 <= spans[k].0 && spans[k].1 <= m[r].1
            } by {
                if k < j {
                    if k > i {
                        lemma_unmatched_run(matched, i + 1, k);
                    }
                    if !ws[k] {
                        lemma_last_non_ws_is_last(ws, i, j, k);
                        if k > i {
                            assert(spans[i].1 <= spans[k].0);
                        }
                        if k < e {
                            assert(spans[k].1 <= spans[e].0);
                        }
                        assert(m[0] == (spans[i].0, spans[e].1));
                    }
                } else {
                    if matched[k] {
                        assert forall|r: int| 0 <= r < m.len() implies spans[k].1 <= (
                        #[trigger] m[r]).0 || m[r].1 <= spans[k].0 by {
                            if r == 0 {
                                if e < k {
                                    assert(spans[e].1 <= spans[k].0);
                                }
                            } else {
                                assert(m[r] == rest[r - 1]);
                            }
                        }
                    }
                    if !matched[k] && !ws[k] {
                        let r = choose|r: int|
                            0 <= r < rest.len() && (#[trigger] rest[r]).0 <= spans[k].0
                                && spans[k].1 <= rest[r].1;
                        assert(m[r + 1] == rest[r]);
                    }
                }
            }
        }
    }
}

/// Law: when `emphasis` highlights a pair, its ranges mark the changes of each line
/// exactly: no token of the longest common token subsequence lies in a range, and every
/// other token that is not whitespace lies in one. When it does not, it returns no range.
pub proof fn lemma_emphasis_marks_changes(old: Seq<char>, new: Seq<char>)
    ensures
        !emphasis_applies(old, new) ==> emphasis_spans(old, new) == (
            Seq::<(int, int)>::empty(),
            Seq::<(int, int)>::empty(),
        ),
        emphasis_applies(old, new) ==> marks_exactly(
            emphasis_tokens(old, new).0,
            emphasis_tokens(old, new).1,
            emphasis_tokens(old, new).2,
            emphasis_spans(old, new).0,
        ) && marks_exactly(
            emphasis_tokens(old, new).3,
            emphasis_tokens(old, new).4,
            emphasis_tokens(old, new).5,
            emphasis_spans(old, new).1,
        ),
{
    let o = trim_trailing_newlines(old);
    let n = trim_trailing_newlines(new);
    let (so, wo, ma, sn, wn, mb) = emphasis_tokens(old, new);
    let to = span_texts(o, so);
    let tn = span_texts(n, sn);
    lemma_token_spans_in_order(o, 0);
    lemma_token_spans_in_order(n, 0);
    lemma_walk_common(to, tn, to.len(), tn.len());
    lemma_merged_spans_mark(so, wo, ma, 0, o.len() as int);
    lemma_merged_spans_mark(sn, wn, mb, 0, n.len() as int);
}

/// Positions where `matched` holds and `ws` does not.
proof fn lemma_count_matched_non_ws(matched: Seq<bool>, ws: Seq<bool>)
    requires
        matched.len() == ws.len(),
    ensures
        count_matched_non_ws(matched, ws) == count_true(
            Seq::new(matched.len(), |k: int| matched[k] && !ws[k]),
        ),
    decreases matched.len(),
{
    if matched.len() > 0 {
        lemma_count_matched_non_ws(matched.drop_last(), ws.drop_last());
        let n = matched.len();
        assert(Seq::new(n, |k: int| matched[k] && !ws[k]).drop_last() =~= Seq::new(
            (n - 1) as nat,
            |k: int| matched.drop_last()[k] && !ws.drop_last()[k],
        ));
    }
}

/// A mask with no `true` entry counted.
proof fn lemma_count_zero(m: Seq<bool>)
    requires
        count_true(m) == 0,
    ensures
        forall|k: int| 0 <= k < m.len() ==> !m[k],
    decreases m.len(),
{
    if m.len() > 0 {
        lemma_count_zero(m.drop_last());
        assert forall|k: int| 0 <= k < m.len() implies !m[k] by {
            if k < m.len() - 1 {
                assert(m[k] == m.drop_last()[k]);
            }
        }
    }
}

/// Ranges from token `i` on come only from an unmatched token that is not whitespace.
proof fn lemma_merged_spans_witness(
    spans: Seq<(int, int)>,
    ws: Seq<bool>,
    matched: Seq<bool>,
    i: int,
)
    requires
        0 <= i,
        merged_spans(spans, ws, matched, i).len() > 0,
    ensures
        exists|k: int| i <= k < matched.len() && k < spans.len() && !matched[k] && !ws[k],
    decreases matched.len() - i,
{
    if 0 <= i < spans.len() && i < matched.len() {
        if matched[i] || ws[i] {
            lemma_merged_spans_witness(spans, ws, matched, i + 1);
        } else {
            assert(i <= i < matched.len() && i < spans.len() && !matched[i] && !ws[i]);
        }
    }
}

/// Law: for lines of at most 2000 characters (without trailing newlines) that both have
/// tokens, a line gets emphasis exactly when it has an unmatched token that is not
/// whitespace and the pair is similar enough: ten times the matched non-whitespace tokens
/// of both lines reach at least three times the non-whitespace tokens of both lines.
pub proof fn lemma_emphasis_threshold(old: Seq<char>, new: Seq<char>)
    requires
        0 < trim_trailing_newlines(old).len() <= 2000,
        0 < trim_trailing_newlines(new).len() <= 2000,
    ensures
        ({
            let o = trim_trailing_newlines(old);
            let n = trim_trailing_newlines(new);
            let so = token_spans(o, 0);
            let sn = token_spans(n, 0);
            let ma = kept_mask_a(span_texts(o, so), span_texts(n, sn));
            let mb = kept_mask_b(span_texts(o, so), span_texts(n, sn));
            let wo = span_whitespace(o, so);
            let wn = span_whitespace(n, sn);
            let matched = count_true(Seq::new(ma.len(), |k: int| ma[k] && !wo[k])) + count_true(
                Seq::new(mb.len(), |k: int| mb[k] && !wn[k]),
            );
            let total = count_true(negate(wo)) + count_true(negate(wn));
            &&& (emphasis_spans(old, new).0.len() > 0 <==> (exists|k: int|
                0 <= k < ma.len() && !ma[k] && !wo[k]) && 10 * matched >= 3 * total)
            &&& (emphasis_spans(old, new).1.len() > 0 <==> (exists|k: int|
                0 <= k < mb.len() && !mb[k] && !wn[k]) && 10 * matched >= 3 * total)
        }),
{
    let o = trim_trailing_newlines(old);
    let n = trim_trailing_newlines(new);
    let so = token_spans(o, 0);
    let sn = token_spans(n, 0);
    let to = span_texts(o, so);
    let tn = span_texts(n, sn);
    let ma = kept_mask_a(to, tn);
    let mb = kept_mask_b(to, tn);
    let wo = span_whitespace(o, so);
    let wn = span_whitespace(n, sn);
    lemma_token_spans_in_order(o, 0);
    lemma_token_spans_in_order(n, 0);
    lemma_walk_common(to, tn, to.len(), tn.len());
    assert(so.len() > 0);
    assert(sn.len() > 0);
    lemma_count_matched_non_ws(ma, wo);
    lemma_count_matched_non_ws(mb, wn);
    lemma_merged_spans_mark(so, wo, ma, 0, o.len() as int);
    lemma_merged_spans_mark(sn, wn, mb, 0, n.len() as int);
    let d = merged_spans(so, wo, ma, 0);
    let a = merged_spans(sn, wn, mb, 0);
    if d.len() > 0 {
        lemma_merged_spans_witness(so, wo, ma, 0);
    }
    if a.len() > 0 {
        lemma_merged_spans_witness(sn, wn, mb, 0);
    }
    if exists|k: int| 0 <= k < ma.len() && !ma[k] && !wo[k] {
        let k = choose|k: int| 0 <= k < ma.len() && !ma[k] && !wo[k];
        assert(!ma[k] && !wo[k]);
        let r = choose|r: int|
            0 <= r < d.len() && (#[trigger] d[r]).0 <= so[k].0 && so[k].1 <= d[r].1;
        assert(d.len() > 0);
        assert(negate(wo)[k]);
        if count_true(negate(wo)) == 0 {
            lemma_count_zero(negate(wo));
        }
    }
    if exists|k: int| 0 <= k < mb.len() && !mb[k] && !wn[k] {
        let k = choose|k: int| 0 <= k < mb.len() && !mb[k] && !wn[k];
        assert(!mb[k] && !wn[k]);
        let r = choose|r: int|
            0 <= r < a.len() && (#[trigger] a[r]).0 <= sn[k].0 && sn[k].1 <= a[r].1;
        assert(a.len() > 0);
        assert(negate(wn)[k]);
        if count_true(negate(wn)) == 0 {
            lemma_count_zero(negate(wn));
        }
    }
}

} // verus!
