use vstd::prelude::*;

use std::ops::Range;

use crate::config::style::DiffStyle;
use crate::command::diff::emphasizer::{
    count_matched_non_ws, emphasis_spans, last_non_ws, lemma_emphasis_in_order,
    lemma_identical_lines_unemphasized, lemma_last_non_ws_bounds,
    lemma_unmatched_run_end, lemma_unmatched_run_reaches, merged_spans,
    range_pairs, span_texts, span_whitespace, unmatched_run_end, MAX_LINE_LENGTH,
    SIMILARITY_DENOMINATOR, SIMILARITY_NUMERATOR,
};
use crate::command::diff::tokenizer::{
    identifier_run_end, lemma_identifier_run_reaches, lemma_token_end, spans_in_order,
    is_token_at, lemma_tokenization_unique, spans_of, tokenizes,
    lemma_whitespace_run_reaches,
    token_end, token_spans, whitespace_run_end,
};
use crate::lcs::{
    count_true, kept_mask_a, kept_mask_b, lcs_len, lemma_lcs_bounds, lemma_walk_common, negate,
    walk_masks,
};
use crate::inline_diff::pair_len;
use crate::pairing::{
    lemma_partner_in_range, lemma_partner_mutual, lemma_run_end, lemma_run_start, partner, run_end, run_start,
};
use crate::text::{
    byte_offset, chars_equal, chars_of, len_utf8, lemma_byte_offset_bounds,
    lemma_byte_offset_monotone, lemma_byte_offset_step, spec_is_identifier_char,
    spec_is_plain_whitespace, trim_trailing_newlines, trimmed_len, from_utf8_lossy, trim_newlines,
    utf8_lossy, is_boundary, lemma_byte_offset_strict, lemma_trim_idempotent,
};

verus! {

/// The character pairs `pairs` of `s` as byte offsets into its UTF-8 encoding.
pub open spec fn byte_spans(s: Seq<char>, pairs: Seq<(int, int)>) -> Seq<(int, int)> {
    pairs.map_values(|p: (int, int)| (byte_offset(s, p.0), byte_offset(s, p.1)))
}

/// What `inline_diff_ranges` returns for the lines `old` and `new`: the token-level
/// emphasis of the two lines, as byte ranges of the lines without their trailing newlines.
#[verifier::opaque]
pub open spec fn inline_diff_byte_spans(old: Seq<char>, new: Seq<char>) -> (
    Seq<(int, int)>,
    Seq<(int, int)>,
) {
    (
        byte_spans(trim_trailing_newlines(old), emphasis_spans(old, new).0),
        byte_spans(trim_trailing_newlines(new), emphasis_spans(old, new).1),
    )
}

#[derive(Clone, Copy, PartialEq, Eq, Structural, Debug)]
pub enum LineKind {
    /// A file line (`'F'`) that starts with `diff --git`.
    FileHeader,
    /// A hunk header (`'H'`).
    Hunk,
    /// An added line (`'+'`).
    Added,
    /// A deleted line (`'-'`).
    Deleted,
    /// A context line (`' '`).
    Context,
    /// Any other line, such as the other file lines (`index`, `---`, `+++`).
    Other,
    /// The blank line put between two files.
    Separator,
}

/// The text that goes before a line of kind `kind`.
pub open spec fn prefix_text(kind: LineKind) -> Seq<char> {
    match kind {
        LineKind::Added => seq!['+'],
        LineKind::Deleted => seq!['-'],
        LineKind::Context => seq![' '],
        _ => Seq::empty(),
    }
}

/// The foreground colour of a line of kind `kind` in `s`.
pub open spec fn line_fg(kind: LineKind, s: DiffStyle) -> (u8, u8, u8) {
    match kind {
        LineKind::Added => s.added_fg,
        LineKind::Deleted => s.deleted_fg,
        LineKind::Hunk => s.hunk_fg,
        LineKind::FileHeader => s.file_fg,
        _ => s.default_fg,
    }
}

impl LineKind {
    pub fn prefix(self) -> (r: &'static str)
        ensures
            r@ == prefix_text(self),
    {
        match self {
            Self::Added => {
                proof {
                    reveal_strlit("+");
                }
                "+"
            },
            Self::Deleted => {
                proof {
                    reveal_strlit("-");
                }
                "-"
            },
            Self::Context => {
                proof {
                    reveal_strlit(" ");
                }
                " "
            },
            _ => {
                proof {
                    reveal_strlit("");
                }
                ""
            },
        }
    }

    pub fn color(self, s: &DiffStyle) -> (c: (u8, u8, u8))
        ensures
            c == line_fg(self, *s),
    {
        match self {
            Self::Added => s.added_fg,
            Self::Deleted => s.deleted_fg,
            Self::Hunk => s.hunk_fg,
            Self::FileHeader => s.file_fg,
            _ => s.default_fg,
        }
    }
}

/// A line of a patch as git hands it over: its origin character and its raw content.
pub struct PatchLine {
    pub origin: char,
    pub content: Vec<u8>,
}

pub struct DiffLine {
    pub kind: LineKind,
    pub content: String,
    pub inline_ranges: Vec<Range<usize>>,
}

/// The lines of a diff under a title, drawn as one block of the image.
pub struct DiffSection {
    pub title: String,
    pub lines: Vec<DiffLine>,
}

/// The bytes of `diff --git`.
pub open spec fn diff_git_header() -> Seq<u8> {
    seq![100u8, 105u8, 102u8, 102u8, 32u8, 45u8, 45u8, 103u8, 105u8, 116u8]
}

/// The kind of a patch line with origin `origin` and content `content`.
pub open spec fn origin_kind(origin: char, content: Seq<u8>) -> LineKind {
    if origin == '+' {
        LineKind::Added
    } else if origin == '-' {
        LineKind::Deleted
    } else if origin == ' ' {
        LineKind::Context
    } else if origin == 'H' {
        LineKind::Hunk
    } else if origin == 'F' && content.len() >= 10 && content.take(10) == diff_git_header() {
        LineKind::FileHeader
    } else {
        LineKind::Other
    }
}

fn classify_origin(origin: char, content: &[u8]) -> (k: LineKind)
    ensures
        k == origin_kind(origin, content@),
{
    match origin {
        '+' => LineKind::Added,
        '-' => LineKind::Deleted,
        ' ' => LineKind::Context,
        'H' => LineKind::Hunk,
        'F' => {
            if starts_with_diff_git(content) {
                LineKind::FileHeader
            } else {
                LineKind::Other
            }
        },
        _ => LineKind::Other,
    }
}

/// Whether `content` starts with `diff --git`.
fn starts_with_diff_git(content: &[u8]) -> (r: bool)
    ensures
        r == (content@.len() >= 10 && content@.take(10) == diff_git_header()),
{
    let header: [u8; 10] = [100, 105, 102, 102, 32, 45, 45, 103, 105, 116];
    assert(header@ == diff_git_header());
    if content.len() < 10 {
        return false;
    }
    let mut k: usize = 0;
    while k < 10
        invariant
            k <= 10 <= content@.len(),
            header@ == diff_git_header(),
            content@.take(k as int) == header@.take(k as int),
        decreases 10 - k,
    {
        if content[k] != header[k] {
            assert(content@.take(10)[k as int] != diff_git_header()[k as int]);
            return false;
        }
        assert(content@.take(k + 1) == content@.take(k as int).push(content@[k as int]));
        assert(header@.take(k + 1) == header@.take(k as int).push(header@[k as int]));
        k += 1;
    }
    assert(header@.take(10) == header@);
    true
}

/// A token of a line, located by byte offsets (not character counts) into the line's
/// UTF-8 encoding.
pub struct Token {
    pub start: usize,
    pub end: usize,
    pub text: Vec<char>,
    pub is_whitespace: bool,
}

/// `toks` are the tokens of `s`, with byte offsets.
pub open spec fn tokens_of(s: Seq<char>, toks: Seq<Token>) -> bool {
    let sp = token_spans(s, 0);
    &&& toks.len() == sp.len()
    &&& forall|k: int|
        0 <= k < toks.len() ==> {
            &&& (#[trigger] toks[k]).start == byte_offset(s, sp[k].0)
            &&& toks[k].end == byte_offset(s, sp[k].1)
            &&& toks[k].text@ == s.subrange(sp[k].0, sp[k].1)
            &&& toks[k].is_whitespace == spec_is_plain_whitespace(s[sp[k].0])
        }
}

/// The spans of `token_spans(s, i)` lie in `i..s.len()`, each non-empty, one after the other.
proof fn lemma_token_spans_shape(s: Seq<char>, i: int)
    requires
        0 <= i <= s.len(),
    ensures
        forall|k: int|
            0 <= k < token_spans(s, i).len() ==> i <= (#[trigger] token_spans(s, i)[k]).0
                < token_spans(s, i)[k].1 <= s.len(),
        token_spans(s, i).len() <= s.len() - i,
    decreases s.len() - i,
{
    if i < s.len() {
        lemma_token_end(s, i);
        let e = token_end(s, i);
        lemma_token_spans_shape(s, e);
        let rest = token_spans(s, e);
        assert(token_spans(s, i) == seq![(i, e)] + rest);
        assert forall|k: int| 0 <= k < token_spans(s, i).len() implies i <= (
        #[trigger] token_spans(s, i)[k]).0 < token_spans(s, i)[k].1 <= s.len() by {
            if k > 0 {
                assert(token_spans(s, i)[k] == rest[k - 1]);
            }
        }
    }
}

fn tokenize_chars(chars: &Vec<char>, len: usize) -> (out: Vec<Token>)
    requires
        len <= chars@.len(),
        byte_offset(chars@.take(len as int), len as int) <= usize::MAX,
    ensures
        tokens_of(chars@.take(len as int), out@),
{
    let ghost s = chars@.take(len as int);
    let mut out: Vec<Token> = Vec::new();
    let mut i: usize = 0;
    let mut byte_pos: usize = 0;
    let ghost mut done: Seq<(int, int)> = Seq::empty();
    proof {
        assert(s.take(0) == Seq::<char>::empty());
        lemma_token_spans_shape(s, 0);
    }

    while i < len
        invariant
            i <= len <= chars@.len(),
            byte_offset(s, len as int) <= usize::MAX,
            s == chars@.take(len as int),
            byte_pos == byte_offset(s, i as int),
            token_spans(s, 0) == done + token_spans(s, i as int),
            out@.len() == done.len(),
            forall|k: int|
                0 <= k < out@.len() ==> {
                    &&& (#[trigger] out@[k]).start == byte_offset(s, done[k].0)
                    &&& out@[k].end == byte_offset(s, done[k].1)
                    &&& out@[k].text@ == s.subrange(done[k].0, done[k].1)
                    &&& out@[k].is_whitespace == spec_is_plain_whitespace(s[done[k].0])
                },
            forall|k: int| 0 <= k < done.len() ==> 0 <= (#[trigger] done[k]).0 < done[k].1 <= i,
        decreases len - i,
    {
        let start = i;
        let c = chars[i];
        proof {
            lemma_token_end(s, i as int);
            lemma_byte_offset_monotone(s, i + 1, len as int);
        }
        let ghost e = token_end(s, i as int);
        let (end_char, end_byte, is_ws) = if is_identifier_char(c) {
            let (ec, eb) = consume_run(chars, len, i, byte_pos, true);
            (ec, eb, false)
        } else if is_plain_whitespace(c) {
            let (ec, eb) = consume_run(chars, len, i, byte_pos, false);
            (ec, eb, true)
        } else {
            // Punctuation: a single character is a token.
            proof {
                lemma_byte_offset_step(s, i as int);
            }
            (i + 1, byte_pos + len_utf8(c), false)
        };
        assert(end_char == e);
        let text = chars_slice(chars, start, end_char);
        let ghost old_out = out@;
        out.push(Token { start: byte_pos, end: end_byte, text, is_whitespace: is_ws });
        proof {
            assert(token_spans(s, i as int) == seq![(i as int, e)] + token_spans(s, e));
            done = done.push((i as int, e));
            assert(token_spans(s, 0) == done + token_spans(s, e));
            assert(s.subrange(start as int, e) == chars@.subrange(start as int, e));
            assert forall|k: int| 0 <= k < out@.len() implies {
                &&& (#[trigger] out@[k]).start == byte_offset(s, done[k].0)
                &&& out@[k].end == byte_offset(s, done[k].1)
                &&& out@[k].text@ == s.subrange(done[k].0, done[k].1)
                &&& out@[k].is_whitespace == spec_is_plain_whitespace(s[done[k].0])
            } by {
                if k < old_out.len() {
                    assert(out@[k] == old_out[k]);
                }
            }
        }
        i = end_char;
        byte_pos = end_byte;
    }
    proof {
        assert(token_spans(s, i as int) == Seq::<(int, int)>::empty());
        assert(done + Seq::<(int, int)>::empty() == done);
    }

    out
}

/// Tokenize a line into identifiers, whitespace runs and single other characters,
/// located by byte offsets. The line's UTF-8 encoding must be addressable by `usize`.
pub fn tokenize(s: &str) -> (out: Vec<Token>)
    requires
        byte_offset(s@, s@.len() as int) <= usize::MAX,
    ensures
        tokens_of(s@, out@),
{
    let chars = chars_of(s);
    assert(chars@.take(chars@.len() as int) == s@);
    tokenize_chars(&chars, chars.len())
}

/// The characters `chars[start..end]`.
fn chars_slice(chars: &Vec<char>, start: usize, end: usize) -> (v: Vec<char>)
    requires
        start <= end <= chars@.len(),
    ensures
        v@ == chars@.subrange(start as int, end as int),
{
    let mut v: Vec<char> = Vec::new();
    let mut k = start;
    while k < end
        invariant
            start <= k <= end <= chars@.len(),
            v@ == chars@.subrange(start as int, k as int),
        decreases end - k,
    {
        v.push(chars[k]);
        k += 1;
    }
    v
}

/// Consumes the run of identifier characters (`identifier`) or of spaces and tabs (otherwise)
/// that starts at character `pos`, whose byte offset is `byte_pos`. Returns the character
/// index and the byte offset where the run ends.
fn consume_run(chars: &Vec<char>, len: usize, pos: usize, byte_pos: usize, identifier: bool) -> (r: (
    usize,
    usize,
))
    requires
        pos < len <= chars@.len(),
        byte_offset(chars@.take(len as int), len as int) <= usize::MAX,
        byte_pos == byte_offset(chars@.take(len as int), pos as int),
        identifier ==> spec_is_identifier_char(chars@[pos as int]),
        !identifier ==> spec_is_plain_whitespace(chars@[pos as int]),
    ensures
        identifier ==> r.0 == identifier_run_end(chars@.take(len as int), pos + 1),
        !identifier ==> r.0 == whitespace_run_end(chars@.take(len as int), pos + 1),
        pos < r.0 <= len,
        r.1 == byte_offset(chars@.take(len as int), r.0 as int),
{
    let ghost s = chars@.take(len as int);
    let mut i = pos;
    let mut end = byte_pos;
    while i < len && in_run(chars[i], identifier)
        invariant
            pos <= i <= len <= chars@.len(),
            byte_offset(s, len as int) <= usize::MAX,
            s == chars@.take(len as int),
            end == byte_offset(s, i as int),
            forall|k: int|
                pos <= k < i ==> (if identifier {
                    spec_is_identifier_char(#[trigger] s[k])
                } else {
                    spec_is_plain_whitespace(s[k])
                }),
            identifier ==> spec_is_identifier_char(chars@[pos as int]),
            !identifier ==> spec_is_plain_whitespace(chars@[pos as int]),
        decreases len - i,
    {
        proof {
            lemma_byte_offset_step(s, i as int);
            lemma_byte_offset_monotone(s, i + 1, len as int);
        }
        end = end + len_utf8(chars[i]);
        i += 1;
    }
    proof {
        if i == pos {
            assert(s[pos as int] == chars@[pos as int]);
        }
        if identifier {
            lemma_identifier_run_reaches(s, pos + 1, i as int);
        } else {
            lemma_whitespace_run_reaches(s, pos + 1, i as int);
        }
    }
    (i, end)
}

/// Whether `c` continues a run of identifier characters (`identifier`) or of spaces and
/// tabs (otherwise).
fn in_run(c: char, identifier: bool) -> (r: bool)
    ensures
        r == if identifier {
            spec_is_identifier_char(c)
        } else {
            spec_is_plain_whitespace(c)
        },
{
    if identifier {
        is_identifier_char(c)
    } else {
        is_plain_whitespace(c)
    }
}

fn is_identifier_char(c: char) -> (r: bool)
    ensures
        r == spec_is_identifier_char(c),
{
    ('a' <= c && c <= 'z') || ('A' <= c && c <= 'Z') || ('0' <= c && c <= '9') || c == '_'
}

fn is_plain_whitespace(c: char) -> (r: bool)
    ensures
        r == spec_is_plain_whitespace(c),
{
    c == ' ' || c == '\t'
}


/// The texts of `toks`.
spec fn token_texts(toks: Seq<Token>) -> Seq<Seq<char>> {
    toks.map_values(|t: Token| t.text@)
}

/// Which of `toks` are whitespace runs.
spec fn token_whitespace(toks: Seq<Token>) -> Seq<bool> {
    toks.map_values(|t: Token| t.is_whitespace)
}

/// The byte spans of `toks`.
spec fn token_byte_spans(toks: Seq<Token>) -> Seq<(int, int)> {
    toks.map_values(|t: Token| (t.start as int, t.end as int))
}

/// Position of entry `(i, j)` in a table stored row by row with rows of length `stride`.
pub open spec fn flat_index(stride: int, i: int, j: int) -> int {
    i * stride + j
}

proof fn lemma_flat_order(stride: int, p: int, q: int, i: int, j: int)
    by (nonlinear_arith)
    requires
        0 <= q < stride,
        0 <= j,
        0 <= p,
        p < i || (p == i && q < j),
    ensures
        flat_index(stride, p, q) < flat_index(stride, i, j),
{
    if p < i {
        assert(p * stride + q < p * stride + stride);
        assert(p * stride + stride == (p + 1) * stride);
        assert((p + 1) * stride <= i * stride);
    }
}

proof fn lemma_flat_bound(stride: int, i: int, j: int)
    by (nonlinear_arith)
    requires
        0 <= i <= 2000,
        0 <= j < stride <= 2001,
    ensures
        0 <= flat_index(stride, i, j) < 2001 * 2001,
{
}

/// Entry `(i, j)` of the flat table `dp` holds the LCS length of `ta[..i]` and `tb[..j]`.
pub open spec fn table_holds(
    dp: Seq<usize>,
    stride: int,
    ta: Seq<Seq<char>>,
    tb: Seq<Seq<char>>,
    i: int,
    j: int,
) -> bool {
    &&& 0 <= flat_index(stride, i, j) < dp.len()
    &&& dp[flat_index(stride, i, j)] == lcs_len(ta, tb, i as nat, j as nat)
}

// The DP table is stored flat, row by row: entry (i, j) is at i * stride + j.
fn lcs_table(a: &[Token], b: &[Token]) -> (r: (Vec<usize>, usize))
    requires
        a@.len() <= MAX_LINE_LENGTH,
        b@.len() <= MAX_LINE_LENGTH,
    ensures
        r.1 == b@.len() + 1,
        forall|i: int, j: int|
            0 <= i <= a@.len() && 0 <= j <= b@.len() ==> #[trigger] table_holds(
                r.0@,
                r.1 as int,
                token_texts(a@),
                token_texts(b@),
                i,
                j,
            ),
{
    let ghost ta = token_texts(a@);
    let ghost tb = token_texts(b@);
    let m = a.len();
    let n = b.len();
    let stride = n + 1;
    let mut dp: Vec<usize> = Vec::new();

    let mut j: usize = 0;
    while j < stride
        invariant
            stride == n + 1,
            n == b@.len() <= MAX_LINE_LENGTH,
            j <= stride,
            dp@.len() == j,
            forall|q: int| 0 <= q < j ==> #[trigger] dp@[q] == 0,
        decreases stride - j,
    {
        dp.push(0);
        j += 1;
    }
    assert forall|q: int| 0 <= q <= n implies #[trigger] table_holds(dp@, stride as int, ta, tb, 0, q) by {
        assert(flat_index(stride as int, 0, q) == q);
    }

    let mut i: usize = 0;
    while i < m
        invariant
            i <= m == a@.len() <= MAX_LINE_LENGTH,
            stride == n + 1,
            n == b@.len() <= MAX_LINE_LENGTH,
            ta == token_texts(a@),
            tb == token_texts(b@),
            dp@.len() == flat_index(stride as int, i as int + 1, 0),
            forall|p: int, q: int|
                0 <= p <= i && 0 <= q <= n ==> #[trigger] table_holds(dp@, stride as int, ta, tb, p, q),
        decreases m - i,
    {
        i += 1;
        proof {
            lemma_flat_bound(stride as int, i as int, 0);
        }
        let ghost before_row = dp@;
        dp.push(0);
        proof {
            assert forall|p: int, q: int|
                ((0 <= p < i && 0 <= q <= n) || (p == i && 0 <= q <= 0)) implies #[trigger] table_holds(
                dp@,
                stride as int,
                ta,
                tb,
                p,
                q,
            ) by {
                if p < i {
                    assert(table_holds(before_row, stride as int, ta, tb, p, q));
                } else {
                    assert(flat_index(stride as int, p, q) == before_row.len());
                }
            }
        }
        let mut j: usize = 0;
        while j < n
            invariant
                1 <= i <= m == a@.len() <= MAX_LINE_LENGTH,
                stride == n + 1,
                n == b@.len() <= MAX_LINE_LENGTH,
                j <= n,
                ta == token_texts(a@),
                tb == token_texts(b@),
                dp@.len() == flat_index(stride as int, i as int, j as int) + 1,
                forall|p: int, q: int|
                    ((0 <= p < i && 0 <= q <= n) || (p == i && 0 <= q <= j)) ==> #[trigger] table_holds(
                        dp@,
                        stride as int,
                        ta,
                        tb,
                        p,
                        q,
                    ),
            decreases n - j,
        {
            j += 1;
            proof {
                lemma_lcs_bounds(ta, tb, (i - 1) as nat, (j - 1) as nat);
                lemma_flat_bound(stride as int, i as int, j as int);
                lemma_flat_bound(stride as int, (i - 1) as int, j as int);
                lemma_flat_bound(stride as int, (i - 1) as int, (j - 1) as int);
                lemma_flat_bound(stride as int, i as int, (j - 1) as int);
                let ii = i as int;
                let jj = j as int;
                assert(table_holds(dp@, stride as int, ta, tb, ii - 1, jj - 1));
                assert(table_holds(dp@, stride as int, ta, tb, ii - 1, jj));
                assert(table_holds(dp@, stride as int, ta, tb, ii, jj - 1));
            }
            let v = if chars_equal(&a[i - 1].text, &b[j - 1].text) {
                dp[(i - 1) * stride + (j - 1)] + 1
            } else {
                let up = dp[(i - 1) * stride + j];
                let left = dp[i * stride + (j - 1)];
                if up >= left {
                    up
                } else {
                    left
                }
            };
            let ghost before = dp@;
            dp.push(v);
            proof {
                assert forall|p: int, q: int|
                    ((0 <= p < i && 0 <= q <= n) || (p == i && 0 <= q <= j)) implies #[trigger] table_holds(
                    dp@,
                    stride as int,
                    ta,
                    tb,
                    p,
                    q,
                ) by {
                    if p == i && q == j {
                    } else {
                        assert(table_holds(before, stride as int, ta, tb, p, q));
                        lemma_flat_order(stride as int, p, q, i as int, j as int);
                    }
                }
            }
        }
        proof {
            assert(flat_index(stride as int, i as int, n as int) + 1 == flat_index(stride as int, i as int + 1, 0)) by (nonlinear_arith)
                requires stride == n + 1;
        }
    }

    (dp, stride)
}

fn lcs_match_mask(a: &[Token], b: &[Token], dp: &Vec<usize>, stride: usize) -> (r: (
    Vec<bool>,
    Vec<bool>,
))
    requires
        a@.len() <= MAX_LINE_LENGTH,
        b@.len() <= MAX_LINE_LENGTH,
        stride == b@.len() + 1,
        forall|i: int, j: int|
            0 <= i <= a@.len() && 0 <= j <= b@.len() ==> #[trigger] table_holds(
                dp@,
                stride as int,
                token_texts(a@),
                token_texts(b@),
                i,
                j,
            ),
    ensures
        r.0@ == kept_mask_a(token_texts(a@), token_texts(b@)),
        r.1@ == kept_mask_b(token_texts(a@), token_texts(b@)),
{
    let ghost ta = token_texts(a@);
    let ghost tb = token_texts(b@);
    let mut a_matched = falses(a.len());
    let mut b_matched = falses(b.len());

    let mut i = a.len();
    let mut j = b.len();
    let ghost full = walk_masks(ta, tb, ta.len(), tb.len());
    let ghost mut ka: Seq<bool> = Seq::empty();
    let ghost mut kb: Seq<bool> = Seq::empty();

    while i > 0 && j > 0
        invariant
            i <= a@.len() <= MAX_LINE_LENGTH,
            j <= b@.len() <= MAX_LINE_LENGTH,
            stride == b@.len() + 1,
            ta == token_texts(a@),
            tb == token_texts(b@),
            forall|p: int, q: int|
                0 <= p <= a@.len() && 0 <= q <= b@.len() ==> #[trigger] table_holds(
                    dp@,
                    stride as int,
                    ta,
                    tb,
                    p,
                    q,
                ),
            full == walk_masks(ta, tb, ta.len(), tb.len()),
            full.0 == walk_masks(ta, tb, i as nat, j as nat).0 + ka,
            full.1 == walk_masks(ta, tb, i as nat, j as nat).1 + kb,
            a_matched@ == Seq::new(i as nat, |k: int| false) + ka,
            b_matched@ == Seq::new(j as nat, |k: int| false) + kb,
        decreases i + j,
    {
        proof {
            lemma_lcs_bounds(ta, tb, (i - 1) as nat, (j - 1) as nat);
            lemma_flat_bound(stride as int, i as int, j as int);
            lemma_flat_bound(stride as int, (i - 1) as int, j as int);
            lemma_flat_bound(stride as int, (i - 1) as int, (j - 1) as int);
            lemma_flat_bound(stride as int, i as int, (j - 1) as int);
            let ii = i as int;
            let jj = j as int;
            assert(table_holds(dp@, stride as int, ta, tb, ii, jj));
            assert(table_holds(dp@, stride as int, ta, tb, ii - 1, jj - 1));
            assert(table_holds(dp@, stride as int, ta, tb, ii - 1, jj));
            assert(table_holds(dp@, stride as int, ta, tb, ii, jj - 1));
        }
        if chars_equal(&a[i - 1].text, &b[j - 1].text) && dp[i * stride + j] == dp[(i - 1) * stride
            + (j - 1)] + 1 {
            a_matched.set(i - 1, true);
            b_matched.set(j - 1, true);
            proof {
                let (pa, pb) = walk_masks(ta, tb, (i - 1) as nat, (j - 1) as nat);
                assert(pa.push(true) + ka == pa + (seq![true] + ka));
                assert(pb.push(true) + kb == pb + (seq![true] + kb));
                ka = seq![true] + ka;
                kb = seq![true] + kb;
            }
            i -= 1;
            j -= 1;
            assert(a_matched@ == Seq::new(i as nat, |k: int| false) + ka);
            assert(b_matched@ == Seq::new(j as nat, |k: int| false) + kb);
        } else if dp[(i - 1) * stride + j] >= dp[i * stride + (j - 1)] {
            proof {
                assert(ta[i - 1] != tb[j - 1]);
                let (qa, qb) = walk_masks(ta, tb, (i - 1) as nat, j as nat);
                assert(qa.push(false) + ka == qa + (seq![false] + ka));
                ka = seq![false] + ka;
            }
            i -= 1;
            assert(a_matched@ == Seq::new(i as nat, |k: int| false) + ka);
        } else {
            proof {
                assert(ta[i - 1] != tb[j - 1]);
                let (qa, qb) = walk_masks(ta, tb, i as nat, (j - 1) as nat);
                assert(qb.push(false) + kb == qb + (seq![false] + kb));
                kb = seq![false] + kb;
            }
            j -= 1;
            assert(b_matched@ == Seq::new(j as nat, |k: int| false) + kb);
        }
    }
    assert(a_matched@ == full.0);
    assert(b_matched@ == full.1);

    (a_matched, b_matched)
}

/// A vector of `n` entries, all `false`.
fn falses(n: usize) -> (v: Vec<bool>)
    ensures
        v@ == Seq::new(n as nat, |k: int| false),
{
    let mut v: Vec<bool> = Vec::new();
    let mut k: usize = 0;
    while k < n
        invariant
            k <= n,
            v@ == Seq::new(k as nat, |q: int| false),
        decreases n - k,
    {
        v.push(false);
        k += 1;
    }
    v
}

fn count_non_ws(tokens: &[Token], matched: &Vec<bool>) -> (r: (usize, usize))
    requires
        matched@.len() == tokens@.len(),
    ensures
        r.0 == count_true(negate(token_whitespace(tokens@))),
        r.1 == count_matched_non_ws(matched@, token_whitespace(tokens@)),
        r.1 <= r.0 <= tokens@.len(),
{
    let mut total: usize = 0;
    let mut matched_count: usize = 0;
    let mut k: usize = 0;
    while k < tokens.len()
        invariant
            k <= tokens@.len() == matched@.len(),
            total == count_true(negate(token_whitespace(tokens@.take(k as int)))),
            matched_count == count_matched_non_ws(
                matched@.take(k as int),
                token_whitespace(tokens@.take(k as int)),
            ),
            matched_count <= total <= k,
        decreases tokens@.len() - k,
    {
        proof {
            let w = token_whitespace(tokens@.take(k + 1));
            assert(negate(w).drop_last() == negate(token_whitespace(tokens@.take(k as int))));
            assert(w.drop_last() == token_whitespace(tokens@.take(k as int)));
            assert(matched@.take(k + 1).drop_last() == matched@.take(k as int));
        }
        if !tokens[k].is_whitespace {
            total += 1;
            if matched[k] {
                matched_count += 1;
            }
        }
        k += 1;
    }
    assert(tokens@.take(k as int) == tokens@);
    assert(matched@.take(k as int) == matched@);
    (total, matched_count)
}

// Adjacent unmatched tokens merge into one range; unmatched whitespace does not start a
// range of its own, but is taken into a range already open, so the highlight stays whole.
fn merged_ranges(tokens: &[Token], matched: &Vec<bool>) -> (ranges: Vec<Range<usize>>)
    requires
        matched@.len() == tokens@.len(),
    ensures
        range_pairs(ranges@) == merged_spans(
            token_byte_spans(tokens@),
            token_whitespace(tokens@),
            matched@,
            0,
        ),
{
    let ghost spans = token_byte_spans(tokens@);
    let ghost ws = token_whitespace(tokens@);
    let ghost total = merged_spans(spans, ws, matched@, 0);
    let mut ranges: Vec<Range<usize>> = Vec::new();
    let mut i: usize = 0;

    while i < tokens.len()
        invariant
            i <= tokens@.len() == matched@.len(),
            spans == token_byte_spans(tokens@),
            ws == token_whitespace(tokens@),
            total == merged_spans(spans, ws, matched@, 0),
            range_pairs(ranges@) + merged_spans(spans, ws, matched@, i as int) == total,
        decreases tokens@.len() - i,
    {
        if matched[i] {
            i += 1;
            continue;
        }
        if tokens[i].is_whitespace {
            i += 1;
            continue;
        }

        let start = i;
        let mut end = i;
        let mut j = i + 1;
        while j < tokens.len()
            invariant
                start < j <= tokens@.len() == matched@.len(),
                ws == token_whitespace(tokens@),
                forall|k: int| start < k < j ==> !matched@[k],
                end == last_non_ws(ws, start as int, j as int),
            ensures
                start < j <= tokens@.len(),
                j == tokens@.len() || matched@[j as int],
                forall|k: int| start < k < j ==> !matched@[k],
                end == last_non_ws(ws, start as int, j as int),
            decreases tokens@.len() - j,
        {
            if matched[j] {
                break;
            }
            if !tokens[j].is_whitespace {
                end = j;
            }
            j += 1;
        }
        proof {
            lemma_unmatched_run_reaches(matched@, start + 1, j as int);
            lemma_last_non_ws_bounds(ws, start as int, j as int);
        }

        let ghost old_ranges = ranges@;
        ranges.push(tokens[start].start..tokens[end].end);
        assert(range_pairs(ranges@) == range_pairs(old_ranges).push(
            (tokens@[start as int].start as int, tokens@[end as int].end as int),
        ));
        assert(merged_spans(spans, ws, matched@, start as int) == seq![(spans[start as int].0, spans[end as int].1)]
            + merged_spans(spans, ws, matched@, j as int));

        i = j;
    }

    ranges
}

/// Merging the byte spans of tokens gives the byte spans of merging their character spans.
proof fn lemma_merged_bytes(s: Seq<char>, sp: Seq<(int, int)>, ws: Seq<bool>, m: Seq<bool>, i: int)
    requires
        sp.len() == ws.len() == m.len(),
        0 <= i,
    ensures
        merged_spans(byte_spans(s, sp), ws, m, i) == byte_spans(s, merged_spans(sp, ws, m, i)),
    decreases m.len() - i,
{
    if i < sp.len() {
        if m[i] || ws[i] {
            lemma_merged_bytes(s, sp, ws, m, i + 1);
        } else {
            lemma_unmatched_run_end(m, i + 1);
            let j = unmatched_run_end(m, i + 1);
            lemma_last_non_ws_bounds(ws, i, j);
            lemma_merged_bytes(s, sp, ws, m, j);
            let e = last_non_ws(ws, i, j);
            let rest = merged_spans(sp, ws, m, j);
            assert(byte_spans(s, seq![(sp[i].0, sp[e].1)] + rest) == seq![(byte_offset(s, sp[i].0), byte_offset(s, sp[e].1))] + byte_spans(s, rest));
        }
    } else {
        assert(byte_spans(s, Seq::<(int, int)>::empty()) == Seq::<(int, int)>::empty());
    }
}

/// The tokens of a line carry the texts, whitespace flags and byte spans of its
/// tokenization.
proof fn lemma_token_views(s: Seq<char>, toks: Seq<Token>)
    requires
        tokens_of(s, toks),
    ensures
        token_texts(toks) == span_texts(s, token_spans(s, 0)),
        token_whitespace(toks) == span_whitespace(s, token_spans(s, 0)),
        token_byte_spans(toks) == byte_spans(s, token_spans(s, 0)),
        toks.len() <= s.len(),
{
    let sp = token_spans(s, 0);
    lemma_token_spans_shape(s, 0);
    assert forall|k: int| 0 <= k < toks.len() implies token_texts(toks)[k] == span_texts(s, sp)[k]
        && token_whitespace(toks)[k] == span_whitespace(s, sp)[k] && token_byte_spans(toks)[k]
        == byte_spans(s, sp)[k] by {
        assert(toks[k].start == byte_offset(s, sp[k].0));
    }
    assert(token_texts(toks) == span_texts(s, sp));
    assert(token_whitespace(toks) == span_whitespace(s, sp));
    assert(token_byte_spans(toks) == byte_spans(s, sp));
}

// Above this similarity two lines are highlighted inline; below it they differ too much
// for a highlight to help. Lines longer than MAX_LINE_LENGTH characters skip the LCS.
pub fn inline_diff_ranges(old: &str, new: &str) -> (r: (Vec<Range<usize>>, Vec<Range<usize>>))
    ensures
        (range_pairs(r.0@), range_pairs(r.1@)) == inline_diff_byte_spans(old@, new@),
{
    reveal(inline_diff_byte_spans);
    let old_chars = chars_of(old);
    let new_chars = chars_of(new);
    let old_len = trimmed_len(&old_chars);
    let new_len = trimmed_len(&new_chars);
    let ghost o = trim_trailing_newlines(old@);
    let ghost n = trim_trailing_newlines(new@);
    proof {
        assert(byte_spans(o, Seq::<(int, int)>::empty()) == Seq::<(int, int)>::empty());
        assert(byte_spans(n, Seq::<(int, int)>::empty()) == Seq::<(int, int)>::empty());
        assert(range_pairs(Seq::<Range<usize>>::empty()) == Seq::<(int, int)>::empty());
    }

    if old_len > MAX_LINE_LENGTH || new_len > MAX_LINE_LENGTH {
        return (Vec::new(), Vec::new());
    }

    proof {
        lemma_byte_offset_bounds(o, o.len() as int);
        lemma_byte_offset_bounds(n, n.len() as int);
    }
    let old_tokens = tokenize_chars(&old_chars, old_len);
    let new_tokens = tokenize_chars(&new_chars, new_len);
    proof {
        lemma_token_views(o, old_tokens@);
        lemma_token_views(n, new_tokens@);
    }

    if old_tokens.len() == 0 || new_tokens.len() == 0 {
        return (Vec::new(), Vec::new());
    }

    let (dp, stride) = lcs_table(old_tokens.as_slice(), new_tokens.as_slice());
    let (old_matched, new_matched) = lcs_match_mask(
        old_tokens.as_slice(),
        new_tokens.as_slice(),
        &dp,
        stride,
    );
    proof {
        lemma_walk_common(
            token_texts(old_tokens@),
            token_texts(new_tokens@),
            old_tokens@.len(),
            new_tokens@.len(),
        );
    }

    let (old_non_ws, old_matched_ws) = count_non_ws(old_tokens.as_slice(), &old_matched);
    let (new_non_ws, new_matched_ws) = count_non_ws(new_tokens.as_slice(), &new_matched);
    let denom = old_non_ws + new_non_ws;

    if denom == 0 {
        return (Vec::new(), Vec::new());
    }

    if SIMILARITY_DENOMINATOR * (old_matched_ws + new_matched_ws) < SIMILARITY_NUMERATOR * denom {
        return (Vec::new(), Vec::new());
    }

    let del_ranges = merged_ranges(old_tokens.as_slice(), &old_matched);
    let add_ranges = merged_ranges(new_tokens.as_slice(), &new_matched);
    proof {
        lemma_merged_bytes(o, token_spans(o, 0), token_whitespace(old_tokens@), old_matched@, 0);
        lemma_merged_bytes(n, token_spans(n, 0), token_whitespace(new_tokens@), new_matched@, 0);
    }

    (del_ranges, add_ranges)
}

/// Which lines are deleted lines.
pub open spec fn deleted_kinds(lines: Seq<DiffLine>) -> Seq<bool> {
    lines.map_values(|l: DiffLine| l.kind == LineKind::Deleted)
}

/// Which lines are added lines.
pub open spec fn added_kinds(lines: Seq<DiffLine>) -> Seq<bool> {
    lines.map_values(|l: DiffLine| l.kind == LineKind::Added)
}

/// The inline ranges that line `p` of `lines` gets from the comparison with its partner.
pub open spec fn paired_ranges(lines: Seq<DiffLine>, p: int, q: int) -> Seq<(int, int)> {
    if lines[p].kind == LineKind::Deleted {
        inline_diff_byte_spans(lines[p].content@, lines[q].content@).0
    } else {
        inline_diff_byte_spans(lines[q].content@, lines[p].content@).1
    }
}

/// Line `p` of `after` is line `p` of `before` with the inline ranges that
/// `annotate_inline_diffs` gives it.
pub open spec fn annotated_diff_line(before: Seq<DiffLine>, after: Seq<DiffLine>, p: int) -> bool {
    &&& after[p].kind == before[p].kind
    &&& after[p].content == before[p].content
    &&& match partner(deleted_kinds(before), added_kinds(before), p) {
        Some(q) => range_pairs(after[p].inline_ranges@) == paired_ranges(before, p, q),
        None => after[p].inline_ranges == before[p].inline_ranges,
    }
}

fn annotate_group(lines: &mut [DiffLine], del_start: usize, del_end: usize, add_end: usize)
    requires
        del_start <= del_end <= add_end <= old(lines)@.len(),
    ensures
        final(lines)@.len() == old(lines)@.len(),
        forall|p: int|
            0 <= p < old(lines)@.len() && !(del_start <= p < del_start + pair_len(
                del_start,
                del_end,
                add_end,
            )) && !(del_end <= p < del_end + pair_len(del_start, del_end, add_end))
                ==> final(lines)@[p] == old(lines)@[p],
        forall|p: int|
            #![trigger final(lines)@[p]]
            del_start <= p < del_start + pair_len(del_start, del_end, add_end) ==> {
                &&& final(lines)@[p].kind == old(lines)@[p].kind
                &&& final(lines)@[p].content == old(lines)@[p].content
                &&& range_pairs(final(lines)@[p].inline_ranges@) == inline_diff_byte_spans(
                    old(lines)@[p].content@,
                    old(lines)@[p - del_start + del_end].content@,
                ).0
            },
        forall|p: int|
            #![trigger final(lines)@[p]]
            del_end <= p < del_end + pair_len(del_start, del_end, add_end) ==> {
                &&& final(lines)@[p].kind == old(lines)@[p].kind
                &&& final(lines)@[p].content == old(lines)@[p].content
                &&& range_pairs(final(lines)@[p].inline_ranges@) == inline_diff_byte_spans(
                    old(lines)@[p - del_end + del_start].content@,
                    old(lines)@[p].content@,
                ).1
            },
{
    let ghost before = lines@;
    let del_count = del_end - del_start;
    let add_count = add_end - del_end;
    let pair_count = if del_count < add_count {
        del_count
    } else {
        add_count
    };
    let mut k: usize = 0;
    while k < pair_count
        invariant
            lines@.len() == before.len(),
            del_start <= del_end <= add_end <= before.len(),
            pair_count == pair_len(del_start, del_end, add_end),
            k <= pair_count,
            forall|p: int|
                0 <= p < before.len() && !(del_start <= p < del_start + k) && !(del_end <= p
                    < del_end + k) ==> lines@[p] == before[p],
            forall|p: int|
                #![trigger lines@[p]]
                del_start <= p < del_start + k ==> {
                    &&& lines@[p].kind == before[p].kind
                    &&& lines@[p].content == before[p].content
                    &&& range_pairs(lines@[p].inline_ranges@) == inline_diff_byte_spans(
                        before[p].content@,
                        before[p - del_start + del_end].content@,
                    ).0
                },
            forall|p: int|
                #![trigger lines@[p]]
                del_end <= p < del_end + k ==> {
                    &&& lines@[p].kind == before[p].kind
                    &&& lines@[p].content == before[p].content
                    &&& range_pairs(lines@[p].inline_ranges@) == inline_diff_byte_spans(
                        before[p - del_end + del_start].content@,
                        before[p].content@,
                    ).1
                },
        decreases pair_count - k,
    {
        let di = del_start + k;
        let ai = del_end + k;
        assert(lines@[di as int] == before[di as int]);
        assert(lines@[ai as int] == before[ai as int]);
        let (del_ranges, add_ranges) = inline_diff_ranges(
            lines[di].content.as_str(),
            lines[ai].content.as_str(),
        );
        let ghost prev = lines@;
        lines[di].inline_ranges = del_ranges;
        let ghost mid = lines@;
        lines[ai].inline_ranges = add_ranges;
        assert(lines@[di as int].kind == prev[di as int].kind);
        assert(lines@[di as int].content == prev[di as int].content);
        assert(lines@[di as int].inline_ranges@ == del_ranges@);
        assert(lines@[ai as int].kind == prev[ai as int].kind);
        assert(lines@[ai as int].content == prev[ai as int].content);
        assert(lines@[ai as int].inline_ranges@ == add_ranges@);
        assert forall|p: int| 0 <= p < before.len() && p != di && p != ai implies lines@[p] == prev[p] by {}
        assert forall|p: int| del_start <= p < del_start + k + 1 implies {
            &&& lines@[p].kind == before[p].kind
            &&& lines@[p].content == before[p].content
            &&& range_pairs(lines@[p].inline_ranges@) == inline_diff_byte_spans(
                before[p].content@,
                before[p - del_start + del_end].content@,
            ).0
        } by {
            if p < di {
                assert(lines@[p] == prev[p]);
            } else {
                assert(p - del_start + del_end == ai);
            }
        }
        assert forall|p: int| del_end <= p < del_end + k + 1 implies {
            &&& lines@[p].kind == before[p].kind
            &&& lines@[p].content == before[p].content
            &&& range_pairs(lines@[p].inline_ranges@) == inline_diff_byte_spans(
                before[p - del_end + del_start].content@,
                before[p].content@,
            ).1
        } by {
            if p < ai {
                assert(lines@[p] == prev[p]);
            } else {
                assert(p - del_end + del_start == di);
            }
        }
        k += 1;
    }
    assert(before == old(lines)@);
    assert forall|p: int| del_start <= p < del_start + pair_len(del_start, del_end, add_end) implies {
        &&& lines@[p].kind == before[p].kind
        &&& lines@[p].content == before[p].content
        &&& range_pairs(lines@[p].inline_ranges@) == inline_diff_byte_spans(
            before[p].content@,
            before[p - del_start + del_end].content@,
        ).0
    } by {
        assert(del_start <= p < del_start + k);
    }
    assert forall|p: int| del_end <= p < del_end + pair_len(del_start, del_end, add_end) implies {
        &&& lines@[p].kind == before[p].kind
        &&& lines@[p].content == before[p].content
        &&& range_pairs(lines@[p].inline_ranges@) == inline_diff_byte_spans(
            before[p - del_end + del_start].content@,
            before[p].content@,
        ).1
    } by {
        assert(del_end <= p < del_end + k);
    }
}

// A run of consecutive `-` lines is paired index by index with the run of `+` lines that
// follows it; when their lengths differ, the extra lines get no highlight.
#[verifier::rlimit(40)]
fn annotate_inline_diffs(lines: &mut [DiffLine])
    ensures
        final(lines)@.len() == old(lines)@.len(),
        forall|p: int|
            0 <= p < old(lines)@.len() ==> annotated_diff_line(old(lines)@, final(lines)@, p),
{
    let ghost before = lines@;
    let ghost del = deleted_kinds(before);
    let ghost add = added_kinds(before);
    let n = lines.len();
    assert forall|p: int| 0 <= p < n implies #[trigger] del[p] == (before[p].kind == LineKind::Deleted) by {}
    assert forall|p: int| 0 <= p < n implies #[trigger] add[p] == (before[p].kind == LineKind::Added) by {}
    let mut i: usize = 0;

    while i < n
        invariant
            n == lines@.len() == before.len(),
            del == deleted_kinds(before),
            add == added_kinds(before),
            forall|p: int| 0 <= p < n ==> #[trigger] del[p] == (before[p].kind == LineKind::Deleted),
            forall|p: int| 0 <= p < n ==> #[trigger] add[p] == (before[p].kind == LineKind::Added),
            i <= n,
            forall|p: int| i <= p < n ==> lines@[p] == before[p],
            forall|p: int| 0 <= p < i ==> annotated_diff_line(before, lines@, p),
            i < n && del[i as int] ==> (i == 0 || !del[i - 1]),
            i < n && add[i as int] ==> (run_start(add, i as int) == 0 || !del[run_start(add, i as int) - 1]),
        decreases n - i,
    {
        if lines[i].kind != LineKind::Deleted {
            proof {
                if add[i as int] {
                    if run_start(add, i as int) == i {
                        assert(!del[i as int]);
                    }
                }
                if i + 1 < n && add[i + 1] {
                    if add[i as int] {
                        assert(run_start(add, i + 1) == run_start(add, i as int));
                    } else {
                        assert(run_start(add, i + 1) == i + 1);
                    }
                }
            }
            i += 1;
            continue;
        }

        let del_start = i;
        while i < n && lines[i].kind == LineKind::Deleted
            invariant
                n == lines@.len() == before.len(),
                del == deleted_kinds(before),
                forall|p: int| 0 <= p < n ==> #[trigger] del[p] == (before[p].kind == LineKind::Deleted),
                del_start <= i <= n,
                del_start < n,
                forall|p: int| del_start <= p < n ==> lines@[p] == before[p],
                forall|p: int| del_start <= p < i ==> #[trigger] del[p],
            decreases n - i,
        {
            i += 1;
        }
        let del_end = i;

        let add_start = i;
        while i < n && lines[i].kind == LineKind::Added
            invariant
                n == lines@.len() == before.len(),
                add == added_kinds(before),
                del == deleted_kinds(before),
                forall|p: int| 0 <= p < n ==> #[trigger] add[p] == (before[p].kind == LineKind::Added),
                forall|p: int| 0 <= p < n ==> #[trigger] del[p] == (before[p].kind == LineKind::Deleted),
                del_start < add_start <= i <= n,
                forall|p: int| del_start <= p < add_start ==> #[trigger] del[p],
                add_start == n || !del[add_start as int],
                forall|p: int| del_start <= p < n ==> lines@[p] == before[p],
                forall|p: int| add_start <= p < i ==> #[trigger] add[p],
            decreases n - i,
        {
            i += 1;
        }
        let add_end = i;

        proof {
            assert(del_start < del_end);
            assert(del[del_start as int]);
            assert forall|p: int| del_start <= p < del_end implies run_start(del, p) == del_start
                && run_end(del, p) == del_end by {
                lemma_run_start(del, del_start as int, p);
                lemma_run_end(del, p, del_end as int);
            }
            lemma_run_end(add, del_end as int, add_end as int);
            assert(del[del_end - 1]);
            assert(!add[del_end - 1]);
            if add_end > add_start {
                assert(add[add_end - 1]);
                assert(!del[add_end - 1]);
            }
            if add_end < n {
                assert(!add[add_end as int]);
            }
            assert forall|p: int| add_start <= p < add_end implies run_start(add, p) == add_start by {
                lemma_run_start(add, add_start as int, p);
            }
        }

        let ghost prior = lines@;
        annotate_group(lines, del_start, del_end, add_end);

        proof {
            let pc = pair_len(del_start, del_end, add_end);
            assert forall|p: int| 0 <= p < i implies annotated_diff_line(before, lines@, p) by {
                if p < del_start {
                    assert(lines@[p] == prior[p]);
                    assert(annotated_diff_line(before, prior, p));
                    assert(annotated_diff_line(before, lines@, p));
                } else if p < del_end {
                    assert(del[p]);
                    assert(run_start(del, p) == del_start && run_end(del, p) == del_end);
                    assert(prior[p] == before[p]);
                    if p - del_start < pc {
                        assert(prior[p - del_start + del_end] == before[p - del_start + del_end]);
                        assert(partner(del, add, p) == Some(p - del_start + del_end));
                        assert(annotated_diff_line(before, lines@, p));
                    } else {
                        assert(partner(del, add, p) == None::<int>);
                        assert(lines@[p] == prior[p]);
                    }
                } else {
                    assert(add[p]);
                    assert(!del[p]);
                    lemma_run_start(del, del_start as int, del_end - 1);
                    assert(run_start(add, p) == add_start);
                    assert(prior[p] == before[p]);
                    if p - del_end < pc {
                        assert(prior[p - del_end + del_start] == before[p - del_end + del_start]);
                        assert(partner(del, add, p) == Some(p - del_end + del_start));
                        assert(annotated_diff_line(before, lines@, p));
                    } else {
                        assert(partner(del, add, p) == None::<int>);
                        assert(lines@[p] == prior[p]);
                    }
                }
            }
        }
    }
}

/// The lines that `DiffLine::from_patch` makes of the first `n` patch lines, as kind and
/// content: each patch line gives one line, whose content is its text without trailing
/// newlines, and a separator goes before every file header but the first line.
pub open spec fn collected_lines(patch: Seq<PatchLine>, n: int) -> Seq<(LineKind, Seq<char>)>
    decreases n,
{
    if n <= 0 {
        Seq::empty()
    } else {
        let prev = collected_lines(patch, n - 1);
        let kind = origin_kind(patch[n - 1].origin, patch[n - 1].content@);
        let line = (kind, trim_trailing_newlines(utf8_lossy(patch[n - 1].content@)));
        if kind == LineKind::FileHeader && prev.len() > 0 {
            prev.push((LineKind::Separator, Seq::empty())).push(line)
        } else {
            prev.push(line)
        }
    }
}

/// Which collected lines are deleted lines.
pub open spec fn collected_deleted(c: Seq<(LineKind, Seq<char>)>) -> Seq<bool> {
    c.map_values(|l: (LineKind, Seq<char>)| l.0 == LineKind::Deleted)
}

/// Which collected lines are added lines.
pub open spec fn collected_added(c: Seq<(LineKind, Seq<char>)>) -> Seq<bool> {
    c.map_values(|l: (LineKind, Seq<char>)| l.0 == LineKind::Added)
}

/// The inline ranges of collected line `p` when it is compared with line `q`.
pub open spec fn collected_ranges(c: Seq<(LineKind, Seq<char>)>, p: int, q: int) -> Seq<(int, int)> {
    if c[p].0 == LineKind::Deleted {
        inline_diff_byte_spans(c[p].1, c[q].1).0
    } else {
        inline_diff_byte_spans(c[q].1, c[p].1).1
    }
}

/// The kind of line `p` of `c`.
pub open spec fn kind_at(c: Seq<(LineKind, Seq<char>)>, p: int) -> LineKind {
    c[p].0
}

/// Separators in `c` stand exactly between files: every separator comes after some line
/// and right before a file header, and every file header but the first line comes right
/// after a separator.
pub open spec fn separators_between_files(c: Seq<(LineKind, Seq<char>)>) -> bool {
    &&& forall|p: int|
        0 <= p < c.len() && #[trigger] kind_at(c, p) == LineKind::Separator ==> 0 < p && p + 1
            < c.len() && c[p + 1].0 == LineKind::FileHeader
    &&& forall|p: int|
        0 < p < c.len() && #[trigger] kind_at(c, p) == LineKind::FileHeader ==> c[p - 1].0
            == LineKind::Separator
}

/// Appending a line that is no separator, after a separator when it is a file header that
/// does not come first, keeps separators between files.
proof fn lemma_separators_step(prev: Seq<(LineKind, Seq<char>)>, line: (LineKind, Seq<char>))
    requires
        separators_between_files(prev),
        line.0 != LineKind::Separator,
    ensures
        line.0 == LineKind::FileHeader && prev.len() > 0 ==> separators_between_files(
            prev.push((LineKind::Separator, Seq::empty())).push(line),
        ),
        !(line.0 == LineKind::FileHeader && prev.len() > 0) ==> separators_between_files(
            prev.push(line),
        ),
{
    let c = if line.0 == LineKind::FileHeader && prev.len() > 0 {
        prev.push((LineKind::Separator, Seq::empty())).push(line)
    } else {
        prev.push(line)
    };
    assert forall|p: int|
        0 <= p < c.len() && #[trigger] kind_at(c, p) == LineKind::Separator implies 0 < p && p + 1
            < c.len() && c[p + 1].0 == LineKind::FileHeader by {
        if p < prev.len() {
            assert(kind_at(prev, p) == kind_at(c, p));
            if p + 1 < prev.len() {
                assert(prev[p + 1] == c[p + 1]);
            }
        }
    }
    assert forall|p: int|
        0 < p < c.len() && #[trigger] kind_at(c, p) == LineKind::FileHeader implies c[p - 1].0
            == LineKind::Separator by {
        if p < prev.len() {
            assert(kind_at(prev, p) == kind_at(c, p));
            assert(prev[p - 1] == c[p - 1]);
        }
    }
}

/// Law: in the lines made of a patch, separators stand exactly between files.
pub proof fn lemma_separators_between_files(patch: Seq<PatchLine>, n: int)
    requires
        0 <= n <= patch.len(),
    ensures
        separators_between_files(collected_lines(patch, n)),
    decreases n,
{
    if n > 0 {
        lemma_separators_between_files(patch, n - 1);
        let prev = collected_lines(patch, n - 1);
        let kind = origin_kind(patch[n - 1].origin, patch[n - 1].content@);
        let line = (kind, trim_trailing_newlines(utf8_lossy(patch[n - 1].content@)));
        lemma_separators_step(prev, line);
    }
}

/// Law: in the lines made of a patch, a `-` line and the `+` line it is compared with are
/// each other's partner, so each pair is compared once and both its lines get their ranges
/// from that comparison.
pub proof fn lemma_pairs_mutual(c: Seq<(LineKind, Seq<char>)>, p: int)
    requires
        0 <= p < c.len(),
    ensures
        partner(collected_deleted(c), collected_added(c), p) matches Some(q) ==> {
            &&& partner(collected_deleted(c), collected_added(c), q) == Some(p)
            &&& c[p].0 == LineKind::Deleted ==> c[q].0 == LineKind::Added
            &&& c[p].0 == LineKind::Added ==> c[q].0 == LineKind::Deleted
        },
{
    lemma_partner_mutual(collected_deleted(c), collected_added(c), p);
    lemma_partner_in_range(collected_deleted(c), collected_added(c), p);
}

/// The byte ranges `r` of `s` each start and end between characters of `s`, are
/// non-empty, and follow one another without overlap.
pub open spec fn byte_ranges_in_order(s: Seq<char>, r: Seq<(int, int)>) -> bool {
    &&& forall|k: int|
        0 <= k < r.len() ==> is_boundary(s, (#[trigger] r[k]).0) && is_boundary(s, r[k].1)
            && r[k].0 < r[k].1
    &&& forall|j: int, k: int| 0 <= j < k < r.len() ==> (#[trigger] r[j]).1 <= (#[trigger] r[k]).0
}

/// Character spans in order become byte ranges in order.
proof fn lemma_byte_spans_in_order(s: Seq<char>, pairs: Seq<(int, int)>)
    requires
        spans_in_order(pairs, 0, s.len() as int),
    ensures
        byte_ranges_in_order(s, byte_spans(s, pairs)),
{
    let r = byte_spans(s, pairs);
    assert forall|k: int| 0 <= k < r.len() implies is_boundary(s, (#[trigger] r[k]).0)
        && is_boundary(s, r[k].1) && r[k].0 < r[k].1 by {
        let (x, y) = pairs[k];
        assert(byte_offset(s, x) == r[k].0);
        assert(byte_offset(s, y) == r[k].1);
        lemma_byte_offset_strict(s, x, y);
    }
    assert forall|j: int, k: int| 0 <= j < k < r.len() implies (#[trigger] r[j]).1 <= (
    #[trigger] r[k]).0 by {
        assert(pairs[j].1 <= pairs[k].0);
        assert(0 <= pairs[j].1);
        assert(pairs[k].0 <= s.len());
        lemma_byte_offset_monotone(s, pairs[j].1, pairs[k].0);
    }
}

/// Law: the inline ranges of the lines made of a patch fall between characters of their
/// line, are non-empty and follow one another, so each can be cut out of the line.
pub proof fn lemma_patch_ranges_in_order(patch: Seq<PatchLine>, p: int)
    requires
        0 <= p < collected_lines(patch, patch.len() as int).len(),
    ensures
        ({
            let c = collected_lines(patch, patch.len() as int);
            partner(collected_deleted(c), collected_added(c), p) matches Some(q) ==> byte_ranges_in_order(
                c[p].1,
                collected_ranges(c, p, q),
            )
        }),
{
    let c = collected_lines(patch, patch.len() as int);
    lemma_collected_contents_trimmed(patch, patch.len() as int);
    lemma_partner_in_range(collected_deleted(c), collected_added(c), p);
    if let Some(q) = partner(collected_deleted(c), collected_added(c), p) {
        reveal(inline_diff_byte_spans);
        if c[p].0 == LineKind::Deleted {
            lemma_emphasis_in_order(c[p].1, c[q].1);
            lemma_byte_spans_in_order(c[p].1, emphasis_spans(c[p].1, c[q].1).0);
        } else {
            lemma_emphasis_in_order(c[q].1, c[p].1);
            lemma_byte_spans_in_order(c[p].1, emphasis_spans(c[q].1, c[p].1).1);
        }
    }
}

/// The contents of the lines made of a patch carry no trailing newline.
proof fn lemma_collected_contents_trimmed(patch: Seq<PatchLine>, n: int)
    requires
        0 <= n <= patch.len(),
    ensures
        forall|p: int|
            0 <= p < collected_lines(patch, n).len() ==> trim_trailing_newlines(
                #[trigger] collected_lines(patch, n)[p].1,
            ) == collected_lines(patch, n)[p].1,
    decreases n,
{
    if n > 0 {
        lemma_collected_contents_trimmed(patch, n - 1);
        let prev = collected_lines(patch, n - 1);
        let c = collected_lines(patch, n);
        let lossy = utf8_lossy(patch[n - 1].content@);
        lemma_trim_idempotent(lossy);
        assert(trim_trailing_newlines(Seq::<char>::empty()) == Seq::<char>::empty());
        assert forall|p: int| 0 <= p < c.len() implies trim_trailing_newlines(
            #[trigger] c[p].1,
        ) == c[p].1 by {
            if p < prev.len() {
                assert(c[p] == prev[p]);
            }
        }
    }
}

/// Law: the byte tokenizer cuts a line where the character tokenizer does. Token for
/// token, the texts and the whitespace flags agree, and the byte offsets are those of the
/// character offsets, so each falls between two characters.
pub proof fn lemma_tokenize_matches_tokens(
    s: Seq<char>,
    bytes: Seq<Token>,
    chars: Seq<crate::command::diff::tokenizer::Token>,
)
    requires
        tokens_of(s, bytes),
        tokenizes(s, chars),
    ensures
        bytes.len() == chars.len(),
        forall|k: int|
            0 <= k < bytes.len() ==> {
                &&& (#[trigger] bytes[k]).text@ == chars[k].text@
                &&& bytes[k].is_whitespace == chars[k].is_whitespace
                &&& bytes[k].start == byte_offset(s, chars[k].start as int)
                &&& bytes[k].end == byte_offset(s, chars[k].end as int)
            },
{
    lemma_tokenization_unique(s, chars);
    let sp = token_spans(s, 0);
    assert(spans_of(chars).len() == chars.len());
    assert forall|k: int| 0 <= k < bytes.len() implies {
        &&& (#[trigger] bytes[k]).text@ == chars[k].text@
        &&& bytes[k].is_whitespace == chars[k].is_whitespace
        &&& bytes[k].start == byte_offset(s, chars[k].start as int)
        &&& bytes[k].end == byte_offset(s, chars[k].end as int)
    } by {
        assert(spans_of(chars)[k] == sp[k]);
        assert(is_token_at(s, chars[k]));
    }
}

/// In a line of ASCII characters, byte offsets are character offsets.
pub proof fn lemma_ascii_byte_offset(s: Seq<char>, k: int)
    requires
        0 <= k <= s.len(),
        forall|p: int| 0 <= p < s.len() ==> (#[trigger] s[p] as u32) < 0x80,
    ensures
        byte_offset(s, k) == k,
    decreases k,
{
    if k == 0 {
        assert(s.take(0) == Seq::<char>::empty());
    } else {
        lemma_ascii_byte_offset(s, k - 1);
        lemma_byte_offset_step(s, k - 1);
        assert((s[k - 1] as u32) < 0x80);
    }
}

/// Law: the inline ranges of a pair of diff lines are the emphasis of the pair, each
/// character offset turned into the byte offset of that character in the line without
/// its trailing newlines; for ASCII lines the two are equal.
pub proof fn lemma_inline_ranges_are_emphasis(old: Seq<char>, new: Seq<char>)
    ensures
        inline_diff_byte_spans(old, new) == (
            byte_spans(trim_trailing_newlines(old), emphasis_spans(old, new).0),
            byte_spans(trim_trailing_newlines(new), emphasis_spans(old, new).1),
        ),
        (forall|p: int| 0 <= p < old.len() ==> (#[trigger] old[p] as u32) < 0x80) && (forall|
            p: int,
        |
            0 <= p < new.len() ==> (#[trigger] new[p] as u32) < 0x80) ==> inline_diff_byte_spans(
            old,
            new,
        ) == emphasis_spans(old, new),
{
    reveal(inline_diff_byte_spans);
    let o = trim_trailing_newlines(old);
    let n = trim_trailing_newlines(new);
    if (forall|p: int| 0 <= p < old.len() ==> (#[trigger] old[p] as u32) < 0x80) && (forall|
        p: int,
    |
        0 <= p < new.len() ==> (#[trigger] new[p] as u32) < 0x80) {
        lemma_trim_is_prefix(old);
        lemma_trim_is_prefix(new);
        assert forall|p: int| 0 <= p < o.len() implies (#[trigger] o[p] as u32) < 0x80 by {
            assert(o[p] == old[p]);
        }
        assert forall|p: int| 0 <= p < n.len() implies (#[trigger] n[p] as u32) < 0x80 by {
            assert(n[p] == new[p]);
        }
        lemma_emphasis_in_order(old, new);
        let (d, a) = emphasis_spans(old, new);
        assert forall|k: int| 0 <= k < d.len() implies byte_spans(o, d)[k] == d[k] by {
            lemma_ascii_byte_offset(o, d[k].0);
            lemma_ascii_byte_offset(o, d[k].1);
        }
        assert forall|k: int| 0 <= k < a.len() implies byte_spans(n, a)[k] == a[k] by {
            lemma_ascii_byte_offset(n, a[k].0);
            lemma_ascii_byte_offset(n, a[k].1);
        }
        assert(byte_spans(o, d) == d);
        assert(byte_spans(n, a) == a);
    }
}

/// Trimming trailing newlines keeps a prefix of the line.
proof fn lemma_trim_is_prefix(s: Seq<char>)
    ensures
        trim_trailing_newlines(s).len() <= s.len(),
        trim_trailing_newlines(s) == s.take(trim_trailing_newlines(s).len() as int),
    decreases s.len(),
{
    if s.len() > 0 && s.last() == '\n' {
        lemma_trim_is_prefix(s.drop_last());
        let t = trim_trailing_newlines(s.drop_last());
        assert(s.drop_last().take(t.len() as int) == s.take(t.len() as int));
    } else {
        assert(s.take(s.len() as int) == s);
    }
}

/// Law: a line compared with itself gets no inline ranges on either side.
pub proof fn lemma_identical_pair_unhighlighted(s: Seq<char>)
    ensures
        inline_diff_byte_spans(s, s) == (Seq::<(int, int)>::empty(), Seq::<(int, int)>::empty()),
{
    reveal(inline_diff_byte_spans);
    lemma_identical_lines_unemphasized(s);
}

/// Law: a patch line's kind follows git's origin character: `+` added, `-` deleted, space
/// context, `H` hunk header; a file line (`F`) is a file header when its bytes begin with
/// `diff --git`, and any other line is Other. No patch line is a separator.
pub proof fn lemma_origin_kinds(origin: char, content: Seq<u8>)
    ensures
        origin == '+' ==> origin_kind(origin, content) == LineKind::Added,
        origin == '-' ==> origin_kind(origin, content) == LineKind::Deleted,
        origin == ' ' ==> origin_kind(origin, content) == LineKind::Context,
        origin == 'H' ==> origin_kind(origin, content) == LineKind::Hunk,
        origin == 'F' && content.len() >= 10 && content.take(10) =~= seq![
            100u8,
            105u8,
            102u8,
            102u8,
            32u8,
            45u8,
            45u8,
            103u8,
            105u8,
            116u8,
        ] ==> origin_kind(origin, content) == LineKind::FileHeader,
        origin == 'F' && !(content.len() >= 10 && content.take(10) =~= seq![
            100u8,
            105u8,
            102u8,
            102u8,
            32u8,
            45u8,
            45u8,
            103u8,
            105u8,
            116u8,
        ]) ==> origin_kind(origin, content) == LineKind::Other,
        origin != '+' && origin != '-' && origin != ' ' && origin != 'H' && origin != 'F'
            ==> origin_kind(origin, content) == LineKind::Other,
        origin_kind(origin, content) != LineKind::Separator,
{
}

/// Law: added, deleted and context lines are drawn after `+`, `-` and a space, the others
/// after nothing; each kind is drawn in the style's colour named for it (file headers in
/// the file colour, everything else in the default colour).
pub proof fn lemma_line_kind_presentation(style: DiffStyle)
    ensures
        prefix_text(LineKind::Added) =~= seq!['+'],
        prefix_text(LineKind::Deleted) =~= seq!['-'],
        prefix_text(LineKind::Context) =~= seq![' '],
        prefix_text(LineKind::FileHeader) =~= Seq::<char>::empty(),
        prefix_text(LineKind::Hunk) =~= Seq::<char>::empty(),
        prefix_text(LineKind::Other) =~= Seq::<char>::empty(),
        prefix_text(LineKind::Separator) =~= Seq::<char>::empty(),
        line_fg(LineKind::Added, style) == style.added_fg,
        line_fg(LineKind::Deleted, style) == style.deleted_fg,
        line_fg(LineKind::Hunk, style) == style.hunk_fg,
        line_fg(LineKind::FileHeader, style) == style.file_fg,
        line_fg(LineKind::Context, style) == style.default_fg,
        line_fg(LineKind::Other, style) == style.default_fg,
        line_fg(LineKind::Separator, style) == style.default_fg,
{
}

impl DiffLine {
    /// The diff lines of a patch, given line by line as git prints it: kinds, contents
    /// without trailing newlines, a separator before each file but the first, and the
    /// inline ranges of each `-` line paired with a `+` line and of that `+` line.
    pub fn from_patch(patch: &[PatchLine]) -> (lines: Vec<DiffLine>)
        ensures
            lines@.len() == collected_lines(patch@, patch@.len() as int).len(),
            forall|p: int|
                #![trigger lines@[p]]
                0 <= p < lines@.len() ==> {
                    let c = collected_lines(patch@, patch@.len() as int);
                    &&& lines@[p].kind == c[p].0
                    &&& lines@[p].content@ == c[p].1
                    &&& match partner(collected_deleted(c), collected_added(c), p) {
                        Some(q) => range_pairs(lines@[p].inline_ranges@) == collected_ranges(c, p, q),
                        None => lines@[p].inline_ranges@.len() == 0,
                    }
                },
    {
        let ghost c = collected_lines(patch@, patch@.len() as int);
        let mut lines: Vec<DiffLine> = Vec::new();
        let mut k: usize = 0;
        while k < patch.len()
            invariant
                k <= patch@.len(),
                lines@.len() == collected_lines(patch@, k as int).len(),
                forall|p: int|
                    #![trigger lines@[p]]
                    0 <= p < lines@.len() ==> {
                        &&& lines@[p].kind == collected_lines(patch@, k as int)[p].0
                        &&& lines@[p].content@ == collected_lines(patch@, k as int)[p].1
                        &&& lines@[p].inline_ranges@.len() == 0
                    },
            decreases patch@.len() - k,
        {
            let kind = classify_origin(patch[k].origin, patch[k].content.as_slice());
            let text = from_utf8_lossy(patch[k].content.as_slice());
            let content = trim_newlines(text.as_str());
            let ghost prev = lines@;

            // A separator goes between files.
            if kind == LineKind::FileHeader && lines.len() > 0 {
                lines.push(DiffLine { kind: LineKind::Separator, content: String::new(), inline_ranges: Vec::new() });
            }
            lines.push(DiffLine { kind, content, inline_ranges: Vec::new() });
            proof {
                let cur = collected_lines(patch@, k + 1);
                assert forall|p: int| 0 <= p < lines@.len() implies {
                    &&& (#[trigger] lines@[p]).kind == cur[p].0
                    &&& lines@[p].content@ == cur[p].1
                    &&& lines@[p].inline_ranges@.len() == 0
                } by {
                    if p < prev.len() {
                        assert(lines@[p] == prev[p]);
                    }
                }
            }
            k += 1;
        }
        let ghost before = lines@;
        annotate_inline_diffs(lines.as_mut_slice());
        proof {
            assert(deleted_kinds(before) == collected_deleted(c));
            assert(added_kinds(before) == collected_added(c));
            assert forall|p: int| 0 <= p < lines@.len() implies {
                &&& (#[trigger] lines@[p]).kind == c[p].0
                &&& lines@[p].content@ == c[p].1
                &&& match partner(collected_deleted(c), collected_added(c), p) {
                    Some(q) => range_pairs(lines@[p].inline_ranges@) == collected_ranges(c, p, q),
                    None => lines@[p].inline_ranges@.len() == 0,
                }
            } by {
                assert(annotated_diff_line(before, lines@, p));
                lemma_partner_in_range(collected_deleted(c), collected_added(c), p);
                match partner(collected_deleted(c), collected_added(c), p) {
                    Some(q) => {
                        assert(paired_ranges(before, p, q) == collected_ranges(c, p, q));
                    },
                    None => {},
                }
            }
        }
        lines
    }
}

} // verus!
