use vstd::prelude::*;

use crate::text::{
    chars_of, spec_is_identifier_char, spec_is_plain_whitespace, string_from_range,
};

verus! {

/// A token produced by line tokenization: identifier run, whitespace run, or single punctuation.
pub struct Token {
    /// Character offset range within the tokenized line.
    pub start: usize,
    pub end: usize,
    pub text: String,
    pub is_whitespace: bool,
}

/// `t` is the token that the tokenizer cuts from `s` at `t.start`: the maximal run of
/// identifier characters, the maximal run of spaces and tabs, or else the one
/// character found there.
pub open spec fn is_token_at(s: Seq<char>, t: Token) -> bool {
    &&& 0 <= t.start < t.end <= s.len()
    &&& t.text@ == s.subrange(t.start as int, t.end as int)
    &&& if spec_is_identifier_char(s[t.start as int]) {
        &&& !t.is_whitespace
        &&& forall|k: int| t.start <= k < t.end ==> spec_is_identifier_char(#[trigger] s[k])
        &&& (t.end == s.len() || !spec_is_identifier_char(s[t.end as int]))
    } else if spec_is_plain_whitespace(s[t.start as int]) {
        &&& t.is_whitespace
        &&& forall|k: int| t.start <= k < t.end ==> spec_is_plain_whitespace(#[trigger] s[k])
        &&& (t.end == s.len() || !spec_is_plain_whitespace(s[t.end as int]))
    } else {
        &&& !t.is_whitespace
        &&& t.end == t.start + 1
    }
}

/// `toks` cuts `s` into consecutive tokens, from its first character to its last.
pub open spec fn tokenizes(s: Seq<char>, toks: Seq<Token>) -> bool {
    &&& (toks.len() == 0 <==> s.len() == 0)
    &&& toks.len() > 0 ==> toks[0].start == 0 && toks.last().end == s.len()
    &&& forall|k: int| 0 <= k < toks.len() - 1 ==> (#[trigger] toks[k]).end == toks[k + 1].start
    &&& forall|k: int| 0 <= k < toks.len() ==> is_token_at(s, #[trigger] toks[k])
}

/// The texts of `toks`, joined in order.
pub open spec fn joined_text(toks: Seq<Token>) -> Seq<char>
    decreases toks.len(),
{
    if toks.len() == 0 {
        Seq::empty()
    } else {
        joined_text(toks.drop_last()) + toks.last().text@
    }
}

/// Tokenize a line of code into identifiers, whitespace runs, and individual punctuation chars.
pub fn tokens(s: &str) -> (result: Vec<Token>)
    ensures
        tokenizes(s@, result@),
{
    let chars = chars_of(s);
    assert(chars@.take(chars@.len() as int) == s@);
    tokens_in(&chars, chars.len())
}

/// The tokens of `chars[..len]`.
pub fn tokens_in(chars: &Vec<char>, len: usize) -> (result: Vec<Token>)
    requires
        len <= chars@.len(),
    ensures
        tokenizes(chars@.take(len as int), result@),
{
    let ghost s = chars@.take(len as int);
    let mut result: Vec<Token> = Vec::new();
    let mut i: usize = 0;

    while i < len
        invariant
            i <= len <= chars@.len(),
            s == chars@.take(len as int),
            (result@.len() == 0 <==> i == 0),
            result@.len() > 0 ==> result@[0].start == 0 && result@.last().end == i,
            forall|k: int|
                0 <= k < result@.len() - 1 ==> (#[trigger] result@[k]).end == result@[k + 1].start,
            forall|k: int| 0 <= k < result@.len() ==> is_token_at(s, #[trigger] result@[k]),
        decreases len - i,
    {
        let c = chars[i];
        let ghost old_result = result@;
        if is_identifier_char(c) {
            let start = i;
            while i < len && is_identifier_char(chars[i])
                invariant
                    start < len <= chars@.len(),
                    start <= i <= len,
                    forall|k: int| start <= k < i ==> spec_is_identifier_char(#[trigger] chars@[k]),
                    spec_is_identifier_char(chars@[start as int]),
                decreases len - i,
            {
                i += 1;
            }
            let text = string_from_range(chars, start, i);
            assert(text@ == s.subrange(start as int, i as int));
            result.push(Token { start, end: i, text, is_whitespace: false });
        } else if is_plain_whitespace(c) {
            let start = i;
            while i < len && is_plain_whitespace(chars[i])
                invariant
                    start < len <= chars@.len(),
                    start <= i <= len,
                    forall|k: int| start <= k < i ==> spec_is_plain_whitespace(#[trigger] chars@[k]),
                    spec_is_plain_whitespace(chars@[start as int]),
                decreases len - i,
            {
                i += 1;
            }
            let text = string_from_range(chars, start, i);
            assert(text@ == s.subrange(start as int, i as int));
            result.push(Token { start, end: i, text, is_whitespace: true });
        } else {
            // Each punctuation character is its own token.
            let text = string_from_range(chars, i, i + 1);
            assert(text@ == s.subrange(i as int, i + 1));
            result.push(Token { start: i, end: i + 1, text, is_whitespace: false });
            i += 1;
        }
        assert forall|k: int| 0 <= k < result@.len() implies is_token_at(s, #[trigger] result@[k]) by {
            if k < old_result.len() {
                assert(result@[k] == old_result[k]);
            }
        }
    }

    result
}

pub fn is_identifier_char(c: char) -> (r: bool)
    ensures
        r == spec_is_identifier_char(c),
{
    ('a' <= c && c <= 'z') || ('A' <= c && c <= 'Z') || ('0' <= c && c <= '9') || c == '_'
}

pub fn is_plain_whitespace(c: char) -> (r: bool)
    ensures
        r == spec_is_plain_whitespace(c),
{
    c == ' ' || c == '\t'
}

/// Law: the tokens of a line, joined in order, give the line back.
pub proof fn lemma_tokens_rejoin(s: Seq<char>, toks: Seq<Token>)
    requires
        tokenizes(s, toks),
    ensures
        joined_text(toks) == s,
{
    lemma_joined_prefix(s, toks, toks.len() as int);
    assert(toks.take(toks.len() as int) == toks);
    if toks.len() > 0 {
        assert(s.subrange(0, s.len() as int) == s);
    }
}

proof fn lemma_joined_prefix(s: Seq<char>, toks: Seq<Token>, n: int)
    requires
        tokenizes(s, toks),
        0 <= n <= toks.len(),
    ensures
        n == 0 ==> joined_text(toks.take(n)) == Seq::<char>::empty(),
        n > 0 ==> joined_text(toks.take(n)) == s.subrange(0, toks[n - 1].end as int),
    decreases n,
{
    if n > 0 {
        lemma_joined_prefix(s, toks, n - 1);
        assert(toks.take(n).drop_last() == toks.take(n - 1));
        assert(is_token_at(s, toks[n - 1]));
        if n > 1 {
            assert(toks[n - 2].end == toks[n - 1].start);
        }
        assert(s.subrange(0, toks[n - 1].end as int) == s.subrange(0, toks[n - 1].start as int)
            + s.subrange(toks[n - 1].start as int, toks[n - 1].end as int));
    }
}


/// End of the run of identifier characters of `s` that goes on from `j`.
pub open spec fn identifier_run_end(s: Seq<char>, j: int) -> int
    decreases s.len() - j,
{
    if 0 <= j < s.len() && spec_is_identifier_char(s[j]) {
        identifier_run_end(s, j + 1)
    } else {
        j
    }
}

/// End of the run of spaces and tabs of `s` that goes on from `j`.
pub open spec fn whitespace_run_end(s: Seq<char>, j: int) -> int
    decreases s.len() - j,
{
    if 0 <= j < s.len() && spec_is_plain_whitespace(s[j]) {
        whitespace_run_end(s, j + 1)
    } else {
        j
    }
}

/// End of the token that starts at position `i` of `s`.
pub open spec fn token_end(s: Seq<char>, i: int) -> int {
    if spec_is_identifier_char(s[i]) {
        identifier_run_end(s, i + 1)
    } else if spec_is_plain_whitespace(s[i]) {
        whitespace_run_end(s, i + 1)
    } else {
        i + 1
    }
}

pub proof fn lemma_identifier_run_end(s: Seq<char>, j: int)
    ensures
        identifier_run_end(s, j) >= j,
        0 <= j ==> identifier_run_end(s, j) <= s.len() || identifier_run_end(s, j) == j,
    decreases s.len() - j,
{
    if 0 <= j < s.len() && spec_is_identifier_char(s[j]) {
        lemma_identifier_run_end(s, j + 1);
    }
}

pub proof fn lemma_whitespace_run_end(s: Seq<char>, j: int)
    ensures
        whitespace_run_end(s, j) >= j,
        0 <= j ==> whitespace_run_end(s, j) <= s.len() || whitespace_run_end(s, j) == j,
    decreases s.len() - j,
{
    if 0 <= j < s.len() && spec_is_plain_whitespace(s[j]) {
        lemma_whitespace_run_end(s, j + 1);
    }
}

pub proof fn lemma_token_end(s: Seq<char>, i: int)
    requires
        0 <= i < s.len(),
    ensures
        i < token_end(s, i) <= s.len(),
{
    lemma_identifier_run_end(s, i + 1);
    lemma_whitespace_run_end(s, i + 1);
}

/// The `(start, end)` character spans of the tokens of `s` from position `i` on.
pub open spec fn token_spans(s: Seq<char>, i: int) -> Seq<(int, int)>
    decreases s.len() - i,
{
    if 0 <= i < s.len() {
        proof {
            lemma_token_end(s, i);
        }
        seq![(i, token_end(s, i))] + token_spans(s, token_end(s, i))
    } else {
        Seq::empty()
    }
}

/// The spans of `toks`.
pub open spec fn spans_of(toks: Seq<Token>) -> Seq<(int, int)> {
    toks.map_values(|t: Token| (t.start as int, t.end as int))
}

proof fn lemma_token_at_end(s: Seq<char>, t: Token)
    requires
        is_token_at(s, t),
    ensures
        token_end(s, t.start as int) == t.end,
{
    if spec_is_identifier_char(s[t.start as int]) {
        lemma_identifier_run_reaches(s, t.start + 1, t.end as int);
    } else if spec_is_plain_whitespace(s[t.start as int]) {
        lemma_whitespace_run_reaches(s, t.start + 1, t.end as int);
    }
}

pub proof fn lemma_identifier_run_reaches(s: Seq<char>, j: int, e: int)
    requires
        0 <= j <= e <= s.len(),
        forall|k: int| j <= k < e ==> spec_is_identifier_char(#[trigger] s[k]),
        e == s.len() || !spec_is_identifier_char(s[e]),
    ensures
        identifier_run_end(s, j) == e,
    decreases e - j,
{
    if j < e {
        lemma_identifier_run_reaches(s, j + 1, e);
    }
}

pub proof fn lemma_whitespace_run_reaches(s: Seq<char>, j: int, e: int)
    requires
        0 <= j <= e <= s.len(),
        forall|k: int| j <= k < e ==> spec_is_plain_whitespace(#[trigger] s[k]),
        e == s.len() || !spec_is_plain_whitespace(s[e]),
    ensures
        whitespace_run_end(s, j) == e,
    decreases e - j,
{
    if j < e {
        lemma_whitespace_run_reaches(s, j + 1, e);
    }
}

/// Law: a line has one tokenization only; its spans are `token_spans(s, 0)`.
pub proof fn lemma_tokenization_unique(s: Seq<char>, toks: Seq<Token>)
    requires
        tokenizes(s, toks),
    ensures
        spans_of(toks) == token_spans(s, 0),
{
    if toks.len() == 0 {
        assert(spans_of(toks) == Seq::<(int, int)>::empty());
    } else {
        lemma_spans_suffix(s, toks, 0);
        assert(spans_of(toks).skip(0) == spans_of(toks));
    }
}

proof fn lemma_spans_suffix(s: Seq<char>, toks: Seq<Token>, k: int)
    requires
        tokenizes(s, toks),
        0 <= k < toks.len(),
    ensures
        spans_of(toks).skip(k) == token_spans(s, toks[k].start as int),
    decreases toks.len() - k,
{
    let t = toks[k];
    assert(is_token_at(s, t));
    lemma_token_at_end(s, t);
    if k + 1 < toks.len() {
        lemma_spans_suffix(s, toks, k + 1);
        assert(toks[k].end == toks[k + 1].start);
    } else {
        assert(t.end == s.len());
        assert(token_spans(s, t.end as int) == Seq::<(int, int)>::empty());
    }
    assert(spans_of(toks).skip(k) == seq![(t.start as int, t.end as int)] + spans_of(toks).skip(k + 1));
}

/// `spans` lie in `lo..hi`, each non-empty, one after the other.
pub open spec fn spans_in_order(spans: Seq<(int, int)>, lo: int, hi: int) -> bool {
    &&& forall|k: int| 0 <= k < spans.len() ==> lo <= (#[trigger] spans[k]).0 < spans[k].1 <= hi
    &&& forall|j: int, k: int|
        0 <= j < k < spans.len() ==> (#[trigger] spans[j]).1 <= (#[trigger] spans[k]).0
}

/// The token spans of `s` from `i` on are in order and cover no more than `s[i..]`.
pub proof fn lemma_token_spans_in_order(s: Seq<char>, i: int)
    requires
        0 <= i <= s.len(),
    ensures
        spans_in_order(token_spans(s, i), i, s.len() as int),
        token_spans(s, i).len() <= s.len() - i,
    decreases s.len() - i,
{
    if i < s.len() {
        lemma_token_end(s, i);
        let e = token_end(s, i);
        lemma_token_spans_in_order(s, e);
        let rest = token_spans(s, e);
        let sp = token_spans(s, i);
        assert(sp == seq![(i, e)] + rest);
        assert forall|k: int| 0 <= k < sp.len() implies i <= (#[trigger] sp[k]).0 < sp[k].1
            <= s.len() by {
            if k > 0 {
                assert(sp[k] == rest[k - 1]);
            }
        }
        assert forall|j: int, k: int| 0 <= j < k < sp.len() implies (#[trigger] sp[j]).1 <= (
        #[trigger] sp[k]).0 by {
            assert(sp[k] == rest[k - 1]);
            if j > 0 {
                assert(sp[j] == rest[j - 1]);
            }
        }
    }
}

/// `spans` moved `n` positions to the right.
pub open spec fn shifted(spans: Seq<(int, int)>, n: int) -> Seq<(int, int)> {
    spans.map_values(|p: (int, int)| (p.0 + n, p.1 + n))
}

/// No token runs across the place where `s` ends and `t` begins: both are non-empty, and
/// they do not end and begin both with identifier characters, nor both with spaces or tabs.
pub open spec fn separate_at_join(s: Seq<char>, t: Seq<char>) -> bool {
    &&& s.len() > 0
    &&& t.len() > 0
    &&& !(spec_is_identifier_char(s.last()) && spec_is_identifier_char(t[0]))
    &&& !(spec_is_plain_whitespace(s.last()) && spec_is_plain_whitespace(t[0]))
}

proof fn lemma_runs_in_tail(s: Seq<char>, t: Seq<char>, j: int)
    requires
        0 <= j <= t.len(),
    ensures
        identifier_run_end(s + t, s.len() + j) == s.len() + identifier_run_end(t, j),
        whitespace_run_end(s + t, s.len() + j) == s.len() + whitespace_run_end(t, j),
    decreases t.len() - j,
{
    if j < t.len() {
        assert((s + t)[s.len() + j] == t[j]);
        lemma_runs_in_tail(s, t, j + 1);
    }
}

proof fn lemma_identifier_run_in_head(s: Seq<char>, t: Seq<char>, j: int)
    requires
        separate_at_join(s, t),
        1 <= j <= s.len(),
        spec_is_identifier_char(s[j - 1]),
    ensures
        identifier_run_end(s + t, j) == identifier_run_end(s, j),
    decreases s.len() - j,
{
    if j < s.len() {
        assert((s + t)[j] == s[j]);
        if spec_is_identifier_char(s[j]) {
            lemma_identifier_run_in_head(s, t, j + 1);
        }
    } else {
        assert((s + t)[j] == t[0]);
    }
}

proof fn lemma_whitespace_run_in_head(s: Seq<char>, t: Seq<char>, j: int)
    requires
        separate_at_join(s, t),
        1 <= j <= s.len(),
        spec_is_plain_whitespace(s[j - 1]),
    ensures
        whitespace_run_end(s + t, j) == whitespace_run_end(s, j),
    decreases s.len() - j,
{
    if j < s.len() {
        assert((s + t)[j] == s[j]);
        if spec_is_plain_whitespace(s[j]) {
            lemma_whitespace_run_in_head(s, t, j + 1);
        }
    } else {
        assert((s + t)[j] == t[0]);
    }
}

/// The token spans of `s + t` from position `s.len() + k` on are those of `t` from `k` on,
/// moved by `s.len()`.
proof fn lemma_spans_in_tail(s: Seq<char>, t: Seq<char>, k: int)
    requires
        0 <= k <= t.len(),
    ensures
        token_spans(s + t, s.len() + k) == shifted(token_spans(t, k), s.len() as int),
    decreases t.len() - k,
{
    let st = s + t;
    let n = s.len() as int;
    if k < t.len() {
        lemma_token_end(t, k);
        let e = token_end(t, k);
        assert(st[n + k] == t[k]);
        lemma_runs_in_tail(s, t, k + 1);
        assert(token_end(st, n + k) == n + e);
        lemma_spans_in_tail(s, t, e);
        assert(token_spans(t, k) == seq![(k, e)] + token_spans(t, e));
        assert(shifted(token_spans(t, k), n) == seq![(n + k, n + e)] + shifted(token_spans(t, e), n));
    } else {
        assert(shifted(token_spans(t, k), n) == Seq::<(int, int)>::empty());
    }
}

/// The token spans of `s + t` from position `i` of `s` on are those of `s` from `i` on,
/// then those of `t` moved by `s.len()`.
proof fn lemma_spans_in_head(s: Seq<char>, t: Seq<char>, i: int)
    requires
        separate_at_join(s, t),
        0 <= i <= s.len(),
    ensures
        token_spans(s + t, i) == token_spans(s, i) + shifted(token_spans(t, 0), s.len() as int),
    decreases s.len() - i,
{
    let st = s + t;
    if i < s.len() {
        lemma_token_end(s, i);
        let e = token_end(s, i);
        assert(st[i] == s[i]);
        if spec_is_identifier_char(s[i]) {
            lemma_identifier_run_in_head(s, t, i + 1);
        } else if spec_is_plain_whitespace(s[i]) {
            lemma_whitespace_run_in_head(s, t, i + 1);
        }
        assert(token_end(st, i) == e);
        lemma_spans_in_head(s, t, e);
        assert(token_spans(s, i) == seq![(i, e)] + token_spans(s, e));
    } else {
        lemma_spans_in_tail(s, t, 0);
    }
}

/// Whether the token `t` of `s` is a whitespace run: the tokenizer decides by its first
/// character.
proof fn lemma_token_whitespace(s: Seq<char>, t: Token)
    requires
        is_token_at(s, t),
    ensures
        t.is_whitespace == spec_is_plain_whitespace(s[t.start as int]),
{
}

/// Token `k` of `s + t`, when its span is the span of token `k` of `s`, is that token.
proof fn lemma_concat_head_token(s: Seq<char>, t: Seq<char>, j: Token, h: Token)
    requires
        is_token_at(s + t, j),
        is_token_at(s, h),
        j.start == h.start,
        j.end == h.end,
    ensures
        j.text@ == h.text@,
        j.is_whitespace == h.is_whitespace,
{
    let st = s + t;
    lemma_token_whitespace(st, j);
    lemma_token_whitespace(s, h);
    assert(st[h.start as int] == s[h.start as int]);
    assert(st.subrange(h.start as int, h.end as int) == s.subrange(h.start as int, h.end as int));
}

/// A token of `s + t` whose span is that of a token of `t` moved by `s.len()` is that token.
proof fn lemma_concat_tail_token(s: Seq<char>, t: Seq<char>, j: Token, u: Token)
    requires
        is_token_at(s + t, j),
        is_token_at(t, u),
        j.start == u.start + s.len(),
        j.end == u.end + s.len(),
    ensures
        j.text@ == u.text@,
        j.is_whitespace == u.is_whitespace,
{
    let st = s + t;
    let n = s.len() as int;
    lemma_token_whitespace(st, j);
    lemma_token_whitespace(t, u);
    assert(st[n + u.start] == t[u.start as int]);
    assert(st.subrange(n + u.start, n + u.end) == t.subrange(u.start as int, u.end as int));
}

/// Law: when no token runs across the join, the tokens of `s + t` are the tokens of `s`
/// followed by the tokens of `t` with their offsets moved by the length of `s`.
pub proof fn lemma_tokens_concat(
    s: Seq<char>,
    t: Seq<char>,
    joined: Seq<Token>,
    head: Seq<Token>,
    tail: Seq<Token>,
)
    requires
        separate_at_join(s, t),
        tokenizes(s + t, joined),
        tokenizes(s, head),
        tokenizes(t, tail),
    ensures
        joined.len() == head.len() + tail.len(),
        forall|k: int|
            0 <= k < head.len() ==> {
                &&& (#[trigger] joined[k]).start == head[k].start
                &&& joined[k].end == head[k].end
                &&& joined[k].text@ == head[k].text@
                &&& joined[k].is_whitespace == head[k].is_whitespace
            },
        forall|k: int|
            0 <= k < tail.len() ==> {
                &&& (#[trigger] joined[head.len() + k]).start == tail[k].start + s.len()
                &&& joined[head.len() + k].end == tail[k].end + s.len()
                &&& joined[head.len() + k].text@ == tail[k].text@
                &&& joined[head.len() + k].is_whitespace == tail[k].is_whitespace
            },
{
    let n = s.len() as int;
    lemma_tokenization_unique(s + t, joined);
    lemma_tokenization_unique(s, head);
    lemma_tokenization_unique(t, tail);
    lemma_spans_in_head(s, t, 0);
    let sj = spans_of(joined);
    let sh = spans_of(head);
    let stl = spans_of(tail);
    assert(sj == sh + shifted(stl, n));
    assert(sj.len() == joined.len());
    assert forall|k: int| 0 <= k < head.len() implies {
        &&& (#[trigger] joined[k]).start == head[k].start
        &&& joined[k].end == head[k].end
        &&& joined[k].text@ == head[k].text@
        &&& joined[k].is_whitespace == head[k].is_whitespace
    } by {
        assert(sj[k] == sh[k]);
        lemma_concat_head_token(s, t, joined[k], head[k]);
    }
    assert forall|k: int| 0 <= k < tail.len() implies {
        &&& (#[trigger] joined[head.len() + k]).start == tail[k].start + s.len()
        &&& joined[head.len() + k].end == tail[k].end + s.len()
        &&& joined[head.len() + k].text@ == tail[k].text@
        &&& joined[head.len() + k].is_whitespace == tail[k].is_whitespace
    } by {
        let q = head.len() + k;
        assert(sj[q] == shifted(stl, n)[k]);
        lemma_concat_tail_token(s, t, joined[q], tail[k]);
    }
}

} // verus!
