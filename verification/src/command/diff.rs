pub mod emphasizer;
pub mod tokenizer;

use vstd::prelude::*;

use crate::config::style::{DiffStyle, Rgba8};
use crate::model::diff::{prefix_text, DiffLine, DiffSection, LineKind};
use crate::text::{
    byte_offset, chars_of, len_utf8, lemma_byte_offset_monotone, lemma_byte_offset_step,
    is_boundary, lemma_byte_offset_strict, string_push,
};

verus! {

/// Number of rows that `sections` take in the image: each section gives its title, a blank
/// row and its lines, and one blank row separates consecutive sections.
pub open spec fn diff_row_count(sections: Seq<DiffSection>) -> nat
    decreases sections.len(),
{
    if sections.len() == 0 {
        0
    } else {
        diff_row_count(sections.drop_last()) + (if sections.len() > 1 {
            1nat
        } else {
            0nat
        }) + 2 + sections.last().lines@.len()
    }
}

/// One row of a diff image, from top to bottom.
#[derive(Clone, Copy, PartialEq, Eq, Structural, Debug)]
pub enum DiffRow {
    /// The blank row between two sections.
    Gap,
    /// The title of a section (by index).
    Title(usize),
    /// The blank row under a title.
    Blank,
    /// A line of a section (section index, line index).
    Line(usize, usize),
}

/// The rows of section `s` with `n` lines; `first` when no section comes before it.
pub open spec fn block_rows(s: usize, n: nat, first: bool) -> Seq<DiffRow> {
    (if first {
        Seq::<DiffRow>::empty()
    } else {
        seq![DiffRow::Gap]
    }) + seq![DiffRow::Title(s), DiffRow::Blank] + Seq::new(n, |j: int| DiffRow::Line(s, j as usize))
}

/// The rows of the image of `sections`, in drawing order.
pub open spec fn diff_rows(sections: Seq<DiffSection>) -> Seq<DiffRow>
    decreases sections.len(),
{
    if sections.len() == 0 {
        Seq::empty()
    } else {
        diff_rows(sections.drop_last()) + block_rows(
            (sections.len() - 1) as usize,
            sections.last().lines@.len(),
            sections.len() == 1,
        )
    }
}

/// Law: the diff image draws exactly as many rows as its height accounts for.
pub proof fn lemma_rows_fill_height(sections: Seq<DiffSection>)
    ensures
        diff_rows(sections).len() == diff_row_count(sections),
    decreases sections.len(),
{
    if sections.len() > 0 {
        lemma_rows_fill_height(sections.drop_last());
    }
}

/// Sections as a program can hold them: their number and the number of lines of each
/// fit in a `usize`.
pub open spec fn sizes_fit(sections: Seq<DiffSection>) -> bool {
    &&& sections.len() <= usize::MAX
    &&& forall|i: int| 0 <= i < sections.len() ==> (#[trigger] sections[i]).lines@.len() <= usize::MAX
}

/// The rows of the block of section `n`: which are lines, and which lines they are.
proof fn lemma_block_rows_lines(n: usize, len: nat, first: bool, x: int)
    requires
        0 <= x < block_rows(n, len, first).len(),
        len <= usize::MAX,
    ensures
        block_rows(n, len, first)[x] is Line <==> x >= (if first {
            2int
        } else {
            3int
        }),
        x >= (if first {
            2int
        } else {
            3int
        }) ==> block_rows(n, len, first)[x] == DiffRow::Line(
            n,
            (x - (if first {
                2int
            } else {
                3int
            })) as usize,
        ),
{
    let head: Seq<DiffRow> = if first {
        Seq::empty()
    } else {
        seq![DiffRow::Gap]
    };
    let body = Seq::new(len, |j: int| DiffRow::Line(n, j as usize));
    let b = block_rows(n, len, first);
    assert(b == head + seq![DiffRow::Title(n), DiffRow::Blank] + body);
    if x >= head.len() + 2 {
        assert(b[x] == body[x - head.len() - 2]);
    } else if x >= head.len() {
        assert(b[x] == seq![DiffRow::Title(n), DiffRow::Blank][x - head.len()]);
    } else {
        assert(b[x] == head[x]);
    }
}

/// Every line row of the image of `sections` names a line of `sections`.
proof fn lemma_line_rows_in_range(sections: Seq<DiffSection>)
    requires
        sizes_fit(sections),
    ensures
        forall|p: int|
            0 <= p < diff_rows(sections).len() ==> (#[trigger] diff_rows(sections)[p] matches DiffRow::Line(
                i,
                j,
            ) ==> i < sections.len() && j < sections[i as int].lines@.len()),
    decreases sections.len(),
{
    if sections.len() > 0 {
        let prev = sections.drop_last();
        assert forall|i: int| 0 <= i < prev.len() implies (#[trigger] prev[i]).lines@.len()
            <= usize::MAX by {
            assert(prev[i] == sections[i]);
        }
        lemma_line_rows_in_range(prev);
        let n = (sections.len() - 1) as usize;
        let len = sections.last().lines@.len();
        assert(sections[n as int] == sections.last());
        let pr = diff_rows(prev);
        let b = block_rows(n, len, sections.len() == 1);
        let r = diff_rows(sections);
        assert(r == pr + b);
        assert forall|p: int| 0 <= p < r.len() implies (#[trigger] r[p] matches DiffRow::Line(i, j)
            ==> i < sections.len() && j < sections[i as int].lines@.len()) by {
            if p < pr.len() {
                assert(r[p] == pr[p]);
                if let DiffRow::Line(i, j) = pr[p] {
                    assert(prev[i as int] == sections[i as int]);
                }
            } else {
                assert(r[p] == b[p - pr.len()]);
                lemma_block_rows_lines(n, len, sections.len() == 1, p - pr.len());
            }
        }
    }
}

/// Whether the image of `sections` has a row for line `j` of section `i`.
pub open spec fn line_drawn(sections: Seq<DiffSection>, i: int, j: int) -> bool {
    diff_rows(sections).contains(DiffRow::Line(i as usize, j as usize))
}

/// Law: the image of `sections` draws every line of every section, each in one row only.
pub proof fn lemma_each_line_drawn_once(sections: Seq<DiffSection>)
    requires
        sizes_fit(sections),
    ensures
        forall|i: int, j: int|
            0 <= i < sections.len() && 0 <= j < sections[i].lines@.len() ==> #[trigger] line_drawn(
                sections,
                i,
                j,
            ),
        forall|p: int, q: int|
            0 <= p < q < diff_rows(sections).len() && diff_rows(sections)[p] is Line ==> diff_rows(
                sections,
            )[p] != diff_rows(sections)[q],
    decreases sections.len(),
{
    if sections.len() > 0 {
        let prev = sections.drop_last();
        assert forall|i: int| 0 <= i < prev.len() implies (#[trigger] prev[i]).lines@.len()
            <= usize::MAX by {
            assert(prev[i] == sections[i]);
        }
        lemma_each_line_drawn_once(prev);
        lemma_line_rows_in_range(prev);
        let n = (sections.len() - 1) as usize;
        let len = sections.last().lines@.len();
        assert(sections[n as int] == sections.last());
        let first = sections.len() == 1;
        let start: int = if first {
            2
        } else {
            3
        };
        let pr = diff_rows(prev);
        let b = block_rows(n, len, first);
        let r = diff_rows(sections);
        assert(r == pr + b);
        assert forall|i: int, j: int|
            0 <= i < sections.len() && 0 <= j < sections[i].lines@.len() implies #[trigger] line_drawn(
                sections,
                i,
                j,
            ) by {
            if i < n {
                assert(prev[i] == sections[i]);
                assert(line_drawn(prev, i, j));
                let p = choose|p: int| 0 <= p < pr.len() && pr[p] == DiffRow::Line(i as usize, j as usize);
                assert(r[p] == pr[p]);
            } else {
                lemma_block_rows_lines(n, len, first, start + j);
                assert(r[pr.len() + start + j] == b[start + j]);
            }
        }
        assert forall|p: int, q: int| 0 <= p < q < r.len() && r[p] is Line implies r[p] != r[q] by {
            if q < pr.len() {
                assert(r[p] == pr[p] && r[q] == pr[q]);
            } else if p < pr.len() {
                assert(r[p] == pr[p]);
                assert(r[q] == b[q - pr.len()]);
                lemma_block_rows_lines(n, len, first, q - pr.len());
            } else {
                assert(r[p] == b[p - pr.len()]);
                assert(r[q] == b[q - pr.len()]);
                lemma_block_rows_lines(n, len, first, p - pr.len());
                lemma_block_rows_lines(n, len, first, q - pr.len());
            }
        }
    }
}

/// The row count of the first `k` sections is at most that of all of them.
proof fn lemma_row_count_prefix(sections: Seq<DiffSection>, k: int)
    requires
        0 <= k <= sections.len(),
    ensures
        diff_row_count(sections.take(k)) <= diff_row_count(sections),
    decreases sections.len() - k,
{
    if k < sections.len() {
        lemma_row_count_prefix(sections, k + 1);
        assert(sections.take(k + 1).drop_last() == sections.take(k));
    } else {
        assert(sections.take(k) == sections);
    }
}

/// Number of rows of the diff image.
pub fn count_rows(sections: &[DiffSection]) -> (n: usize)
    requires
        diff_row_count(sections@) <= usize::MAX,
    ensures
        n == diff_row_count(sections@),
{
    let mut count: usize = 0;
    let mut i: usize = 0;
    while i < sections.len()
        invariant
            i <= sections@.len(),
            diff_row_count(sections@) <= usize::MAX,
            count == diff_row_count(sections@.take(i as int)),
        decreases sections@.len() - i,
    {
        proof {
            lemma_row_count_prefix(sections@, i + 1);
            assert(sections@.take(i + 1).drop_last() == sections@.take(i as int));
        }
        if i > 0 {
            count += 1;
        }
        count += 2 + sections[i].lines.len();
        i += 1;
    }
    assert(sections@.take(i as int) == sections@);
    count
}

/// The rows of the diff image, in drawing order.
pub fn rows(sections: &[DiffSection]) -> (r: Vec<DiffRow>)
    ensures
        r@ == diff_rows(sections@),
{
    let mut r: Vec<DiffRow> = Vec::new();
    let mut i: usize = 0;
    while i < sections.len()
        invariant
            i <= sections@.len(),
            r@ == diff_rows(sections@.take(i as int)),
        decreases sections@.len() - i,
    {
        let ghost before = r@;
        let ghost head: Seq<DiffRow> = if i == 0 {
            Seq::empty()
        } else {
            seq![DiffRow::Gap]
        };
        if i > 0 {
            r.push(DiffRow::Gap);
        }
        r.push(DiffRow::Title(i));
        r.push(DiffRow::Blank);
        let n = sections[i].lines.len();
        let mut j: usize = 0;
        while j < n
            invariant
                j <= n,
                r@ == before + head + seq![DiffRow::Title(i), DiffRow::Blank] + Seq::new(
                    j as nat,
                    |q: int| DiffRow::Line(i, q as usize),
                ),
            decreases n - j,
        {
            r.push(DiffRow::Line(i, j));
            assert(Seq::new((j + 1) as nat, |q: int| DiffRow::Line(i, q as usize)) == Seq::new(
                j as nat,
                |q: int| DiffRow::Line(i, q as usize),
            ).push(DiffRow::Line(i, j)));
            j += 1;
        }
        assert(sections@.take(i + 1).drop_last() == sections@.take(i as int));
        assert(sections@.take(i + 1).last() == sections@[i as int]);
        i += 1;
    }
    assert(sections@.take(i as int) == sections@);
    r
}

/// Which highlight the inline ranges of a line get.
#[derive(Clone, Copy, PartialEq, Eq, Structural, Debug)]
pub enum InlineTone {
    Added,
    Deleted,
}

/// How a diff line is painted: the fill of its row, the highlight of its inline ranges,
/// and whether its text is drawn.
#[derive(Clone, Copy, PartialEq, Eq, Structural, Debug)]
pub struct LinePaint {
    pub background: Option<Rgba8>,
    pub inline_tone: Option<InlineTone>,
    pub draws_text: bool,
}

/// How a line of kind `kind` is painted with the colours of `style`: a separator is a
/// filled row without text; added and deleted lines get their fill and their inline
/// highlight under the text; the other lines are text alone.
pub open spec fn line_paint_spec(kind: LineKind, style: DiffStyle) -> LinePaint {
    match kind {
        LineKind::Separator => LinePaint {
            background: Some(style.separator_bg),
            inline_tone: None,
            draws_text: false,
        },
        LineKind::Added => LinePaint {
            background: Some(style.added_bg),
            inline_tone: Some(InlineTone::Added),
            draws_text: true,
        },
        LineKind::Deleted => LinePaint {
            background: Some(style.deleted_bg),
            inline_tone: Some(InlineTone::Deleted),
            draws_text: true,
        },
        _ => LinePaint { background: None, inline_tone: None, draws_text: true },
    }
}

pub fn line_paint(kind: LineKind, style: &DiffStyle) -> (p: LinePaint)
    ensures
        p == line_paint_spec(kind, *style),
{
    match kind {
        LineKind::Separator => LinePaint {
            background: Some(style.separator_bg),
            inline_tone: None,
            draws_text: false,
        },
        LineKind::Added => LinePaint {
            background: Some(style.added_bg),
            inline_tone: Some(InlineTone::Added),
            draws_text: true,
        },
        LineKind::Deleted => LinePaint {
            background: Some(style.deleted_bg),
            inline_tone: Some(InlineTone::Deleted),
            draws_text: true,
        },
        _ => LinePaint { background: None, inline_tone: None, draws_text: true },
    }
}

/// Appends the characters `chars[from..to]` to `r`.
fn push_chars(r: &mut String, chars: &Vec<char>, from: usize, to: usize)
    requires
        from <= to <= chars@.len(),
    ensures
        final(r)@ == old(r)@ + chars@.subrange(from as int, to as int),
{
    let mut k: usize = from;
    while k < to
        invariant
            from <= k <= to <= chars@.len(),
            r@ == old(r)@ + chars@.subrange(from as int, k as int),
        decreases to - k,
    {
        string_push(r, chars[k]);
        assert(chars@.subrange(from as int, k + 1) == chars@.subrange(from as int, k as int).push(
            chars@[k as int],
        ));
        k += 1;
    }
}

/// The text drawn for `line`: its prefix and its content, drawn in one go.
pub fn line_text(line: &DiffLine) -> (r: String)
    ensures
        r@ == prefix_text(line.kind) + line.content@,
{
    let prefix = chars_of(line.kind.prefix());
    let content = chars_of(line.content.as_str());
    let mut r = String::new();
    push_chars(&mut r, &prefix, 0, prefix.len());
    push_chars(&mut r, &content, 0, content.len());
    assert(prefix@.subrange(0, prefix@.len() as int) == prefix@);
    assert(content@.subrange(0, content@.len() as int) == content@);
    r
}

/// Splits `content` at the byte range `start..end` of an inline highlight: the text before
/// the range, which sets where the highlight begins, and the text inside it, which sets its
/// width. Both offsets must fall between characters, as for slicing a `str`.
pub fn inline_range_parts(content: &str, start: usize, end: usize) -> (r: (String, String))
    requires
        start <= end,
        is_boundary(content@, start as int),
        is_boundary(content@, end as int),
    ensures
        r.0@.len() + r.1@.len() <= content@.len(),
        r.0@ == content@.take(r.0@.len() as int),
        r.1@ == content@.subrange(r.0@.len() as int, (r.0@.len() + r.1@.len()) as int),
        byte_offset(content@, r.0@.len() as int) == start,
        byte_offset(content@, (r.0@.len() + r.1@.len()) as int) == end,
{
    let chars = chars_of(content);
    let ghost s = content@;
    let ghost k1 = choose|k: int| 0 <= k <= s.len() && byte_offset(s, k) == start;
    let ghost k2 = choose|k: int| 0 <= k <= s.len() && byte_offset(s, k) == end;
    proof {
        if k2 < k1 {
            lemma_byte_offset_strict(s, k2, k1);
        }
        assert(s.take(0) == Seq::<char>::empty());
    }

    let mut k: usize = 0;
    let mut pos: usize = 0;
    while pos < start
        invariant
            chars@ == s,
            0 <= k1 <= k2 <= s.len(),
            byte_offset(s, k1) == start,
            k <= k1,
            pos == byte_offset(s, k as int),
        decreases k1 - k,
    {
        proof {
            if k == k1 {
                assert(false);
            }
            lemma_byte_offset_step(s, k as int);
            lemma_byte_offset_monotone(s, k + 1, k1);
        }
        assert(k < chars.len());
        pos += len_utf8(chars[k]);
        k += 1;
    }
    proof {
        if k < k1 {
            lemma_byte_offset_strict(s, k as int, k1);
        }
    }
    let first = k;
    while pos < end
        invariant
            chars@ == s,
            0 <= k1 <= k2 <= s.len(),
            first == k1,
            byte_offset(s, k2) == end,
            k1 <= k <= k2,
            pos == byte_offset(s, k as int),
        decreases k2 - k,
    {
        proof {
            if k == k2 {
                assert(false);
            }
            lemma_byte_offset_step(s, k as int);
            lemma_byte_offset_monotone(s, k + 1, k2);
        }
        assert(k < chars.len());
        pos += len_utf8(chars[k]);
        k += 1;
    }
    proof {
        if k < k2 {
            lemma_byte_offset_strict(s, k as int, k2);
        }
    }
    let mut before = String::new();
    push_chars(&mut before, &chars, 0, first);
    let mut span = String::new();
    push_chars(&mut span, &chars, first, k);
    assert(s.subrange(0, first as int) == s.take(first as int));
    (before, span)
}

/// Law: a separator is a row filled with the separator colour and no text; an added line
/// is its text over the added fill with its ranges in the added tone, a deleted line the
/// same in the deleted fill and tone; every other line is text alone, with no fill and no
/// ranges drawn.
pub proof fn lemma_line_paints(kind: LineKind, style: DiffStyle)
    ensures
        kind == LineKind::Separator ==> line_paint_spec(kind, style).background == Some(
            style.separator_bg,
        ) && line_paint_spec(kind, style).inline_tone == None::<InlineTone>
            && !line_paint_spec(kind, style).draws_text,
        kind == LineKind::Added ==> line_paint_spec(kind, style).background == Some(
            style.added_bg,
        ) && line_paint_spec(kind, style).inline_tone == Some(InlineTone::Added)
            && line_paint_spec(kind, style).draws_text,
        kind == LineKind::Deleted ==> line_paint_spec(kind, style).background == Some(
            style.deleted_bg,
        ) && line_paint_spec(kind, style).inline_tone == Some(InlineTone::Deleted)
            && line_paint_spec(kind, style).draws_text,
        kind != LineKind::Separator && kind != LineKind::Added && kind != LineKind::Deleted
            ==> line_paint_spec(kind, style).background == None::<Rgba8>
            && line_paint_spec(kind, style).inline_tone == None::<InlineTone>
            && line_paint_spec(kind, style).draws_text,
{
}

} // verus!
