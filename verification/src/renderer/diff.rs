use vstd::prelude::*;

use crate::config::style::{rgba, Rgba8};
use crate::text::{chars_of, string_from_range, string_push, trim_trailing_newlines, trimmed_len};

verus! {

pub struct DiffLine {
    pub origin: char,
    pub content: String,
}

/// The text shown for a line with origin `origin` and content `content`: the content
/// without its trailing newlines, after the origin when that is `+`, `-` or a space.
pub open spec fn formatted_line(origin: char, content: Seq<char>) -> Seq<char> {
    let c = trim_trailing_newlines(content);
    if origin == '+' || origin == '-' || origin == ' ' {
        seq![origin] + c
    } else {
        c
    }
}

/// The characters of `diff --git`.
pub open spec fn diff_git_text() -> Seq<char> {
    seq!['d', 'i', 'f', 'f', ' ', '-', '-', 'g', 'i', 't']
}

/// The colour of a line with origin `origin` shown as `text`.
pub open spec fn origin_color(origin: char, text: Seq<char>) -> (u8, u8, u8) {
    if origin == '+' {
        (63, 185, 80)
    } else if origin == '-' {
        (248, 81, 73)
    } else if origin == 'H' {
        (187, 128, 230)
    } else if origin == 'F' && text.len() >= 10 && text.take(10) == diff_git_text() {
        (88, 166, 255)
    } else {
        (201, 209, 217)
    }
}

/// The fill of the row of a line with origin `origin`: green under an added line, red
/// under a deleted one, none under the others.
pub open spec fn origin_background(origin: char) -> Option<Rgba8> {
    if origin == '+' {
        Some(rgba(46, 160, 67, 30))
    } else if origin == '-' {
        Some(rgba(248, 81, 73, 30))
    } else {
        None
    }
}

pub fn line_background(line: &DiffLine) -> (c: Option<Rgba8>)
    ensures
        c == origin_background(line.origin),
{
    match line.origin {
        '+' => Some(Rgba8 { r: 46, g: 160, b: 67, a: 30 }),
        '-' => Some(Rgba8 { r: 248, g: 81, b: 73, a: 30 }),
        _ => None,
    }
}

pub fn format_line(line: &DiffLine) -> (r: String)
    ensures
        r@ == formatted_line(line.origin, line.content@),
{
    let chars = chars_of(line.content.as_str());
    let n = trimmed_len(&chars);
    if line.origin == '+' || line.origin == '-' || line.origin == ' ' {
        let mut r = String::new();
        string_push(&mut r, line.origin);
        let mut k: usize = 0;
        while k < n
            invariant
                n <= chars@.len(),
                k <= n,
                r@ == seq![line.origin] + chars@.take(k as int),
            decreases n - k,
        {
            string_push(&mut r, chars[k]);
            assert(chars@.take(k + 1) == chars@.take(k as int).push(chars@[k as int]));
            k += 1;
        }
        r
    } else {
        string_from_range(&chars, 0, n)
    }
}

pub fn line_color(line: &DiffLine, text: &str) -> (c: (u8, u8, u8))
    ensures
        c == origin_color(line.origin, text@),
{
    match line.origin {
        '+' => (63, 185, 80),
        '-' => (248, 81, 73),
        'H' => (187, 128, 230),
        'F' => {
            if starts_with_diff_git(text) {
                (88, 166, 255)
            } else {
                (201, 209, 217)
            }
        },
        _ => (201, 209, 217),
    }
}

/// Whether `text` starts with `diff --git`.
fn starts_with_diff_git(text: &str) -> (r: bool)
    ensures
        r == (text@.len() >= 10 && text@.take(10) == diff_git_text()),
{
    let chars = chars_of(text);
    let header: [char; 10] = ['d', 'i', 'f', 'f', ' ', '-', '-', 'g', 'i', 't'];
    assert(header@ == diff_git_text());
    if chars.len() < 10 {
        return false;
    }
    let mut k: usize = 0;
    while k < 10
        invariant
            k <= 10 <= chars@.len(),
            chars@ == text@,
            header@ == diff_git_text(),
            chars@.take(k as int) == header@.take(k as int),
        decreases 10 - k,
    {
        if chars[k] != header[k] {
            assert(chars@.take(10)[k as int] != diff_git_text()[k as int]);
            return false;
        }
        assert(chars@.take(k + 1) == chars@.take(k as int).push(chars@[k as int]));
        assert(header@.take(k + 1) == header@.take(k as int).push(header@[k as int]));
        k += 1;
    }
    assert(header@.take(10) == header@);
    true
}

/// Law: an added, deleted or context line is shown as its origin character followed by its
/// content without trailing newlines; any other line as that content alone.
pub proof fn lemma_formatted_line(origin: char, content: Seq<char>)
    ensures
        origin == '+' || origin == '-' || origin == ' ' ==> formatted_line(origin, content)
            =~= seq![origin] + trim_trailing_newlines(content),
        !(origin == '+' || origin == '-' || origin == ' ') ==> formatted_line(origin, content)
            =~= trim_trailing_newlines(content),
{
}

/// Law: added lines are green on a green fill, deleted lines red on a red fill, hunk
/// headers purple, `diff --git` file lines blue; every other line is grey without fill.
pub proof fn lemma_origin_colors(origin: char, text: Seq<char>)
    ensures
        origin == '+' ==> origin_color(origin, text) == (63u8, 185u8, 80u8) && origin_background(
            origin,
        ) == Some(rgba(46, 160, 67, 30)),
        origin == '-' ==> origin_color(origin, text) == (248u8, 81u8, 73u8) && origin_background(
            origin,
        ) == Some(rgba(248, 81, 73, 30)),
        origin == 'H' ==> origin_color(origin, text) == (187u8, 128u8, 230u8),
        origin == 'F' && text.len() >= 10 && text.take(10) =~= seq![
            'd',
            'i',
            'f',
            'f',
            ' ',
            '-',
            '-',
            'g',
            'i',
            't',
        ] ==> origin_color(origin, text) == (88u8, 166u8, 255u8),
        origin == 'F' && !(text.len() >= 10 && text.take(10) =~= seq![
            'd',
            'i',
            'f',
            'f',
            ' ',
            '-',
            '-',
            'g',
            'i',
            't',
        ]) ==> origin_color(origin, text) == (201u8, 209u8, 217u8),
        origin != '+' && origin != '-' && origin != 'H' && origin != 'F' ==> origin_color(
            origin,
            text,
        ) == (201u8, 209u8, 217u8),
        origin != '+' && origin != '-' ==> origin_background(origin) == None::<Rgba8>,
{
}

} // verus!
