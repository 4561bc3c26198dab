use vstd::prelude::*;
use vstd::utf8::{decode_utf8, encode_scalar, encode_utf8, valid_utf8};

verus! {

/// Whether `c` may appear in an identifier: an ASCII letter, digit or underscore.
pub open spec fn spec_is_identifier_char(c: char) -> bool {
    ('a' <= c && c <= 'z') || ('A' <= c && c <= 'Z') || ('0' <= c && c <= '9') || c == '_'
}

/// Whether `c` is a space or a horizontal tab.
pub open spec fn spec_is_plain_whitespace(c: char) -> bool {
    c == ' ' || c == '\t'
}

/// `s` with every trailing `'\n'` removed.
pub open spec fn trim_trailing_newlines(s: Seq<char>) -> Seq<char>
    decreases s.len(),
{
    if s.len() > 0 && s.last() == '\n' {
        trim_trailing_newlines(s.drop_last())
    } else {
        s
    }
}

/// Law: identifier characters are exactly the ASCII letters and digits and `_` (code
/// points 48-57, 65-90, 97-122 and 95), and plain whitespace is exactly the space (32) and
/// the horizontal tab (9); every other character, such as `.` or a non-ASCII letter, is
/// neither.
pub proof fn lemma_character_classes(c: char)
    ensures
        spec_is_identifier_char(c) <==> (48 <= (c as u32) <= 57 || 65 <= (c as u32) <= 90 || 97
            <= (c as u32) <= 122 || (c as u32) == 95),
        spec_is_plain_whitespace(c) <==> ((c as u32) == 32 || (c as u32) == 9),
{
}

/// Law: trimming removes exactly the trailing newlines: it keeps a prefix of `s` that does
/// not end with a newline, and every character after that prefix is a newline.
pub proof fn lemma_trim_removes_trailing_newlines(s: Seq<char>)
    ensures
        trim_trailing_newlines(s).len() <= s.len(),
        trim_trailing_newlines(s) == s.take(trim_trailing_newlines(s).len() as int),
        trim_trailing_newlines(s).len() == 0 || trim_trailing_newlines(s).last() != '\n',
        forall|k: int| trim_trailing_newlines(s).len() <= k < s.len() ==> s[k] == '\n',
    decreases s.len(),
{
    if s.len() > 0 && s.last() == '\n' {
        let p = s.drop_last();
        lemma_trim_removes_trailing_newlines(p);
        let t = trim_trailing_newlines(p);
        assert(p.take(t.len() as int) == s.take(t.len() as int));
        assert forall|k: int| t.len() <= k < s.len() implies s[k] == '\n' by {
            if k < p.len() {
                assert(s[k] == p[k]);
            }
        }
    } else {
        assert(s.take(s.len() as int) == s);
    }
}

/// The characters of `s`, in order.
pub fn chars_of(s: &str) -> (v: Vec<char>)
    ensures
        v@ == s@,
{
    let mut v: Vec<char> = Vec::new();
    for c in it: s.chars()
        invariant
            v@ == it.seq().take(it.index() as int),
    {
        v.push(c);
    }
    v
}

/// Appends `c` to `s` (`String::push`).
#[verifier::external_body]
pub(crate) fn string_push(s: &mut String, c: char)
    ensures
        final(s)@ == old(s)@.push(c),
{
    s.push(c);
}

/// The string made of `chars[start..end]`.
pub fn string_from_range(chars: &Vec<char>, start: usize, end: usize) -> (r: String)
    requires
        start <= end <= chars.len(),
    ensures
        r@ == chars@.subrange(start as int, end as int),
{
    let mut r = String::new();
    let mut k = start;
    while k < end
        invariant
            start <= k <= end <= chars.len(),
            r@ == chars@.subrange(start as int, k as int),
        decreases end - k,
    {
        string_push(&mut r, chars[k]);
        k += 1;
    }
    r
}

/// Number of characters left of `s` after its trailing `'\n'`s are removed.
pub fn trimmed_len(chars: &Vec<char>) -> (n: usize)
    ensures
        n <= chars.len(),
        trim_trailing_newlines(chars@) == chars@.take(n as int),
{
    let mut n = chars.len();
    assert(chars@.take(n as int) == chars@);
    while n > 0 && chars[n - 1] == '\n'
        invariant
            n <= chars.len(),
            trim_trailing_newlines(chars@) == trim_trailing_newlines(chars@.take(n as int)),
        decreases n,
    {
        assert(chars@.take(n as int).drop_last() == chars@.take(n - 1));
        n -= 1;
    }
    n
}


/// Number of bytes of the UTF-8 encoding of `s[..k]`.
pub open spec fn byte_offset(s: Seq<char>, k: int) -> int {
    encode_utf8(s.take(k)).len() as int
}

/// Encoding one more character appends its encoding.
pub proof fn lemma_encode_push(a: Seq<char>, c: char)
    ensures
        encode_utf8(a.push(c)) == encode_utf8(a) + encode_scalar(c as u32),
    decreases a.len(),
{
    if a.len() == 0 {
        assert(a.push(c).drop_first() == Seq::<char>::empty());
        assert(encode_utf8(Seq::<char>::empty()) == Seq::<u8>::empty());
    } else {
        lemma_encode_push(a.drop_first(), c);
        assert(a.push(c).drop_first() == a.drop_first().push(c));
    }
}

/// The byte offset of `s[..k + 1]` adds the width of `s[k]` to that of `s[..k]`.
pub proof fn lemma_byte_offset_step(s: Seq<char>, k: int)
    requires
        0 <= k < s.len(),
    ensures
        byte_offset(s, k + 1) == byte_offset(s, k) + encode_scalar(s[k] as u32).len(),
{
    assert(s.take(k + 1) == s.take(k).push(s[k]));
    lemma_encode_push(s.take(k), s[k]);
}

/// Byte offsets grow by at least one and at most four per character.
pub proof fn lemma_byte_offset_bounds(s: Seq<char>, k: int)
    requires
        0 <= k <= s.len(),
    ensures
        k <= byte_offset(s, k) <= 4 * k,
    decreases k,
{
    if k == 0 {
        assert(s.take(0) == Seq::<char>::empty());
    } else {
        lemma_byte_offset_bounds(s, k - 1);
        lemma_byte_offset_step(s, k - 1);
    }
}

/// Byte offsets do not decrease.
pub proof fn lemma_byte_offset_monotone(s: Seq<char>, j: int, k: int)
    requires
        0 <= j <= k <= s.len(),
    ensures
        byte_offset(s, j) <= byte_offset(s, k),
    decreases k - j,
{
    if j < k {
        lemma_byte_offset_monotone(s, j, k - 1);
        lemma_byte_offset_step(s, k - 1);
    }
}

/// A byte offset of `s` that falls between two characters: the offset of `s[..k]` for
/// some `k`.
pub open spec fn is_boundary(s: Seq<char>, b: int) -> bool {
    exists|k: int| 0 <= k <= s.len() && byte_offset(s, k) == b
}

/// Byte offsets grow strictly with the number of characters.
pub proof fn lemma_byte_offset_strict(s: Seq<char>, j: int, k: int)
    requires
        0 <= j < k <= s.len(),
    ensures
        byte_offset(s, j) < byte_offset(s, k),
{
    lemma_byte_offset_step(s, j);
    lemma_byte_offset_monotone(s, j + 1, k);
}

/// Trimming trailing newlines twice trims no more than once.
pub proof fn lemma_trim_idempotent(s: Seq<char>)
    ensures
        trim_trailing_newlines(trim_trailing_newlines(s)) == trim_trailing_newlines(s),
    decreases s.len(),
{
    if s.len() > 0 && s.last() == '\n' {
        lemma_trim_idempotent(s.drop_last());
    }
}

/// Number of bytes of the UTF-8 encoding of `c` (`char::len_utf8`).
pub fn len_utf8(c: char) -> (n: usize)
    ensures
        n == encode_scalar(c as u32).len(),
        1 <= n <= 4,
{
    let v = c as u32;
    if v < 0x80 {
        1
    } else if v < 0x800 {
        2
    } else if v < 0x10000 {
        3
    } else {
        4
    }
}

/// Whether `a` and `b` hold the same characters.
pub fn chars_equal(a: &Vec<char>, b: &Vec<char>) -> (r: bool)
    ensures
        r == (a@ == b@),
{
    if a.len() != b.len() {
        return false;
    }
    let mut k: usize = 0;
    while k < a.len()
        invariant
            k <= a@.len() == b@.len(),
            a@.take(k as int) == b@.take(k as int),
        decreases a@.len() - k,
    {
        if a[k] != b[k] {
            return false;
        }
        assert(a@.take(k + 1) == a@.take(k as int).push(a@[k as int]));
        assert(b@.take(k + 1) == b@.take(k as int).push(b@[k as int]));
        k += 1;
    }
    assert(a@.take(k as int) == a@);
    assert(b@.take(k as int) == b@);
    true
}

/// What `String::from_utf8_lossy` makes of `bytes`.
pub uninterp spec fn utf8_lossy(bytes: Seq<u8>) -> Seq<char>;

/// Decodes `bytes` as UTF-8 with `String::from_utf8_lossy`, which puts U+FFFD in place of
/// each invalid sequence. The result is named `utf8_lossy(bytes)`; of it the contract
/// states only what the documentation of `from_utf8_lossy` plainly says: valid UTF-8 is
/// decoded as it is. How invalid sequences are replaced is left unsaid.
#[verifier::external_body]
pub(crate) fn from_utf8_lossy(bytes: &[u8]) -> (s: String)
    ensures
        s@ == utf8_lossy(bytes@),
        valid_utf8(bytes@) ==> s@ == decode_utf8(bytes@),
{
    String::from_utf8_lossy(bytes).into_owned()
}

/// `s` without its trailing `'\n'`s, as a new string.
pub fn trim_newlines(s: &str) -> (r: String)
    ensures
        r@ == trim_trailing_newlines(s@),
{
    let chars = chars_of(s);
    let n = trimmed_len(&chars);
    string_from_range(&chars, 0, n)
}

} // verus!
