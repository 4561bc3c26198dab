use vstd::prelude::*;

use crate::config::style::{rgba, Rgba8};

verus! {

#[derive(Clone, Copy, PartialEq, Eq, Structural, Debug)]
pub enum StatusKind {
    Unchanged,
    Added,
    Modified,
    Deleted,
    Renamed,
    TypeChange,
    Conflict,
}

/// The two-character label of `kind`.
pub open spec fn kind_label(kind: StatusKind) -> Seq<char> {
    match kind {
        StatusKind::Unchanged => seq![' ', ' '],
        StatusKind::Added => seq!['A', ' '],
        StatusKind::Modified => seq!['M', ' '],
        StatusKind::Deleted => seq!['D', ' '],
        StatusKind::Renamed => seq!['R', ' '],
        StatusKind::TypeChange => seq!['T', ' '],
        StatusKind::Conflict => seq!['U', ' '],
    }
}

/// The label colour of `kind`.
pub open spec fn kind_color(kind: StatusKind) -> (u8, u8, u8) {
    match kind {
        StatusKind::Unchanged => (201, 209, 217),
        StatusKind::Added => (63, 185, 80),
        StatusKind::Modified => (210, 153, 34),
        StatusKind::Deleted => (248, 81, 73),
        StatusKind::Renamed => (88, 166, 255),
        StatusKind::TypeChange => (187, 128, 230),
        StatusKind::Conflict => (248, 81, 73),
    }
}

/// The row background of `kind`, if it has one.
pub open spec fn kind_background(kind: StatusKind) -> Option<Rgba8> {
    match kind {
        StatusKind::Added => Some(rgba(46, 160, 67, 25)),
        StatusKind::Modified => Some(rgba(210, 153, 34, 25)),
        StatusKind::Deleted | StatusKind::Conflict => Some(rgba(248, 81, 73, 25)),
        _ => None,
    }
}

impl StatusKind {
    pub fn label(self) -> (r: &'static str)
        ensures
            r@ == kind_label(self),
    {
        match self {
            Self::Unchanged => {
                proof {
                    reveal_strlit("  ");
                }
                "  "
            },
            Self::Added => {
                proof {
                    reveal_strlit("A ");
                }
                "A "
            },
            Self::Modified => {
                proof {
                    reveal_strlit("M ");
                }
                "M "
            },
            Self::Deleted => {
                proof {
                    reveal_strlit("D ");
                }
                "D "
            },
            Self::Renamed => {
                proof {
                    reveal_strlit("R ");
                }
                "R "
            },
            Self::TypeChange => {
                proof {
                    reveal_strlit("T ");
                }
                "T "
            },
            Self::Conflict => {
                proof {
                    reveal_strlit("U ");
                }
                "U "
            },
        }
    }

    pub fn color(self) -> (c: (u8, u8, u8))
        ensures
            c == kind_color(self),
    {
        match self {
            Self::Unchanged => (201, 209, 217),
            Self::Added => (63, 185, 80),
            Self::Modified => (210, 153, 34),
            Self::Deleted => (248, 81, 73),
            Self::Renamed => (88, 166, 255),
            Self::TypeChange => (187, 128, 230),
            Self::Conflict => (248, 81, 73),
        }
    }

    pub fn bg_color(self) -> (c: Option<Rgba8>)
        ensures
            c == kind_background(self),
    {
        match self {
            Self::Added => Some(Rgba8 { r: 46, g: 160, b: 67, a: 25 }),
            Self::Modified => Some(Rgba8 { r: 210, g: 153, b: 34, a: 25 }),
            Self::Deleted | Self::Conflict => Some(Rgba8 { r: 248, g: 81, b: 73, a: 25 }),
            _ => None,
        }
    }
}

pub struct StatusEntry {
    pub path: String,
    pub staged: StatusKind,
    pub unstaged: StatusKind,
}

pub struct StatusSection {
    pub title: &'static str,
    pub entries: Vec<(StatusKind, String)>,
}

/// The `(kind, path)` pairs of `entries`, as views.
pub open spec fn section_view(entries: Seq<(StatusKind, String)>) -> Seq<(StatusKind, Seq<char>)> {
    entries.map_values(|e: (StatusKind, String)| (e.0, e.1@))
}

/// The staged changes among `entries`, in order.
pub open spec fn staged_changes(entries: Seq<StatusEntry>) -> Seq<(StatusKind, Seq<char>)>
    decreases entries.len(),
{
    if entries.len() == 0 {
        Seq::empty()
    } else {
        let e = entries.last();
        let prev = staged_changes(entries.drop_last());
        if e.staged != StatusKind::Unchanged {
            prev.push((e.staged, e.path@))
        } else {
            prev
        }
    }
}

/// The unstaged changes among `entries`, in order.
pub open spec fn unstaged_changes(entries: Seq<StatusEntry>) -> Seq<(StatusKind, Seq<char>)>
    decreases entries.len(),
{
    if entries.len() == 0 {
        Seq::empty()
    } else {
        let e = entries.last();
        let prev = unstaged_changes(entries.drop_last());
        if e.unstaged != StatusKind::Unchanged {
            prev.push((e.unstaged, e.path@))
        } else {
            prev
        }
    }
}

/// The sections of the status image: staged changes first, then unstaged ones.
pub fn build_sections(entries: &[StatusEntry]) -> (sections: [StatusSection; 2])
    ensures
        sections@[0].title@ == "Staged changes"@,
        sections@[1].title@ == "Unstaged changes"@,
        section_view(sections@[0].entries@) == staged_changes(entries@),
        section_view(sections@[1].entries@) == unstaged_changes(entries@),
{
    let mut staged: Vec<(StatusKind, String)> = Vec::new();
    let mut unstaged: Vec<(StatusKind, String)> = Vec::new();

    let mut k: usize = 0;
    while k < entries.len()
        invariant
            k <= entries@.len(),
            section_view(staged@) == staged_changes(entries@.take(k as int)),
            section_view(unstaged@) == unstaged_changes(entries@.take(k as int)),
        decreases entries@.len() - k,
    {
        let entry = &entries[k];
        assert(entries@.take(k + 1).drop_last() == entries@.take(k as int));
        if entry.staged != StatusKind::Unchanged {
            staged.push((entry.staged, entry.path.clone()));
        }
        if entry.unstaged != StatusKind::Unchanged {
            unstaged.push((entry.unstaged, entry.path.clone()));
        }
        assert(section_view(staged@) == staged_changes(entries@.take(k + 1)));
        assert(section_view(unstaged@) == unstaged_changes(entries@.take(k + 1)));
        k += 1;
    }
    assert(entries@.take(k as int) == entries@);

    [
        StatusSection { title: "Staged changes", entries: staged },
        StatusSection { title: "Unstaged changes", entries: unstaged },
    ]
}

/// One row of a status image, from top to bottom.
#[derive(Clone, Copy, PartialEq, Eq, Structural, Debug)]
pub enum StatusRow {
    /// The blank row between two sections.
    Gap,
    /// The title of a section (by index).
    Title(usize),
    /// The blank row under a title.
    Blank,
    /// An entry of a section (section index, entry index).
    Entry(usize, usize),
}

/// The rows of section `s` with `n` entries; `first` when no section comes before it.
pub open spec fn section_rows(s: usize, n: nat, first: bool) -> Seq<StatusRow> {
    (if first {
        Seq::<StatusRow>::empty()
    } else {
        seq![StatusRow::Gap]
    }) + seq![StatusRow::Title(s), StatusRow::Blank] + Seq::new(n, |e: int| StatusRow::Entry(s, e as usize))
}

/// The rows of an image whose two sections have `n0` and `n1` entries: an empty section
/// is left out, and a gap goes between two sections that are shown.
pub open spec fn status_rows(n0: nat, n1: nat) -> Seq<StatusRow> {
    (if n0 > 0 {
        section_rows(0, n0, true)
    } else {
        Seq::empty()
    }) + (if n1 > 0 {
        section_rows(1, n1, n0 == 0)
    } else {
        Seq::empty()
    })
}

/// The number of rows of an image whose two sections have `n0` and `n1` entries, as the
/// image height counts them: each shown section takes a title, a blank row and its entries,
/// and one more row separates the two sections when both are shown.
pub open spec fn status_row_count(n0: nat, n1: nat) -> nat {
    (if n0 > 0 {
        2 + n0
    } else {
        0nat
    }) + (if n1 > 0 {
        2 + n1
    } else {
        0nat
    }) + (if n0 > 0 && n1 > 0 {
        1nat
    } else {
        0nat
    })
}

/// Number of rows of the status image.
pub fn row_count(sections: &[StatusSection; 2]) -> (n: usize)
    requires
        sections@[0].entries@.len() + sections@[1].entries@.len() + 5 <= usize::MAX,
    ensures
        n == status_row_count(sections@[0].entries@.len(), sections@[1].entries@.len()),
{
    let mut row_count: usize = 0;
    if sections[0].entries.len() > 0 {
        row_count += 2 + sections[0].entries.len();
    }
    if sections[1].entries.len() > 0 {
        row_count += 2 + sections[1].entries.len();
    }
    // if both sections have entries, add a blank row between them
    let has_staged = sections[0].entries.len() > 0;
    let has_unstaged = sections[1].entries.len() > 0;
    if has_staged && has_unstaged {
        row_count += 1;
    }
    row_count
}

/// The rows of the status image, in drawing order.
pub fn rows(sections: &[StatusSection; 2]) -> (r: Vec<StatusRow>)
    ensures
        r@ == status_rows(sections@[0].entries@.len(), sections@[1].entries@.len()),
{
    plan_rows(sections[0].entries.len(), sections[1].entries.len())
}

/// The rows of an image whose two sections have `n0` and `n1` entries, in drawing order.
pub fn plan_rows(n0: usize, n1: usize) -> (r: Vec<StatusRow>)
    ensures
        r@ == status_rows(n0 as nat, n1 as nat),
{
    let counts: [usize; 2] = [n0, n1];
    let mut r: Vec<StatusRow> = Vec::new();
    let mut first = true;
    let mut s: usize = 0;
    while s < 2
        invariant
            s <= 2,
            counts@ == seq![n0, n1],
            first == (s == 0 || (s == 1 && n0 == 0) || (s == 2 && n0 == 0 && n1 == 0)),
            r@ == (if s >= 1 && n0 > 0 {
                section_rows(0, n0 as nat, true)
            } else {
                Seq::empty()
            }) + (if s >= 2 && n1 > 0 {
                section_rows(1, n1 as nat, n0 == 0)
            } else {
                Seq::empty()
            }),
        decreases 2 - s,
    {
        let n = counts[s];
        if n == 0 {
            s += 1;
            continue;
        }
        let ghost before = r@;
        let ghost head: Seq<StatusRow> = if first {
            Seq::empty()
        } else {
            seq![StatusRow::Gap]
        };
        if first {
            first = false;
        } else {
            r.push(StatusRow::Gap);
        }
        r.push(StatusRow::Title(s));
        r.push(StatusRow::Blank);
        let mut e: usize = 0;
        while e < n
            invariant
                e <= n,
                r@ == before + head + seq![StatusRow::Title(s), StatusRow::Blank] + Seq::new(
                    e as nat,
                    |q: int| StatusRow::Entry(s, q as usize),
                ),
            decreases n - e,
        {
            r.push(StatusRow::Entry(s, e));
            assert(Seq::new((e + 1) as nat, |q: int| StatusRow::Entry(s, q as usize)) == Seq::new(
                e as nat,
                |q: int| StatusRow::Entry(s, q as usize),
            ).push(StatusRow::Entry(s, e)));
            e += 1;
        }
        assert(head == (if s == 0 || n0 == 0 {
            Seq::<StatusRow>::empty()
        } else {
            seq![StatusRow::Gap]
        }));
        s += 1;
    }
    r
}

/// Law: the status image draws exactly as many rows as its height accounts for.
pub proof fn lemma_rows_fill_height(n0: nat, n1: nat)
    ensures
        status_rows(n0, n1).len() == status_row_count(n0, n1),
{
}

/// The rows of section `s`: which are entries, and which entries they are.
proof fn lemma_section_rows_entries(s: usize, n: nat, first: bool, x: int)
    requires
        0 <= x < section_rows(s, n, first).len(),
        n <= usize::MAX,
    ensures
        section_rows(s, n, first)[x] is Entry <==> x >= (if first {
            2int
        } else {
            3int
        }),
        x >= (if first {
            2int
        } else {
            3int
        }) ==> section_rows(s, n, first)[x] == StatusRow::Entry(
            s,
            (x - (if first {
                2int
            } else {
                3int
            })) as usize,
        ),
{
    let head: Seq<StatusRow> = if first {
        Seq::empty()
    } else {
        seq![StatusRow::Gap]
    };
    let body = Seq::new(n, |e: int| StatusRow::Entry(s, e as usize));
    let b = section_rows(s, n, first);
    assert(b == head + seq![StatusRow::Title(s), StatusRow::Blank] + body);
    if x >= head.len() + 2 {
        assert(b[x] == body[x - head.len() - 2]);
    } else if x >= head.len() {
        assert(b[x] == seq![StatusRow::Title(s), StatusRow::Blank][x - head.len()]);
    } else {
        assert(b[x] == head[x]);
    }
}

/// Whether an image whose sections have `n0` and `n1` entries has a row for entry `e` of
/// section `s`.
pub open spec fn entry_drawn(n0: nat, n1: nat, s: int, e: int) -> bool {
    status_rows(n0, n1).contains(StatusRow::Entry(s as usize, e as usize))
}

/// Law: the status image draws every entry of both sections, each in one row only.
pub proof fn lemma_each_entry_drawn_once(n0: nat, n1: nat)
    requires
        n0 <= usize::MAX,
        n1 <= usize::MAX,
    ensures
        forall|e: int| 0 <= e < n0 ==> #[trigger] entry_drawn(n0, n1, 0, e),
        forall|e: int| 0 <= e < n1 ==> #[trigger] entry_drawn(n0, n1, 1, e),
        forall|p: int, q: int|
            0 <= p < q < status_rows(n0, n1).len() && status_rows(n0, n1)[p] is Entry
                ==> status_rows(n0, n1)[p] != status_rows(n0, n1)[q],
{
    let a: Seq<StatusRow> = if n0 > 0 {
        section_rows(0, n0, true)
    } else {
        Seq::empty()
    };
    let first1 = n0 == 0;
    let b: Seq<StatusRow> = if n1 > 0 {
        section_rows(1, n1, first1)
    } else {
        Seq::empty()
    };
    let r = status_rows(n0, n1);
    assert(r == a + b);
    let start1: int = if first1 {
        2
    } else {
        3
    };
    assert forall|e: int| 0 <= e < n0 implies #[trigger] entry_drawn(n0, n1, 0, e) by {
        lemma_section_rows_entries(0, n0, true, 2 + e);
        assert(r[2 + e] == a[2 + e]);
    }
    assert forall|e: int| 0 <= e < n1 implies #[trigger] entry_drawn(n0, n1, 1, e) by {
        lemma_section_rows_entries(1, n1, first1, start1 + e);
        assert(r[a.len() + start1 + e] == b[start1 + e]);
    }
    assert forall|p: int, q: int| 0 <= p < q < r.len() && r[p] is Entry implies r[p] != r[q] by {
        if q < a.len() {
            assert(r[p] == a[p] && r[q] == a[q]);
            lemma_section_rows_entries(0, n0, true, p);
            lemma_section_rows_entries(0, n0, true, q);
        } else if p < a.len() {
            assert(r[p] == a[p]);
            assert(r[q] == b[q - a.len()]);
            lemma_section_rows_entries(0, n0, true, p);
            lemma_section_rows_entries(1, n1, first1, q - a.len());
        } else {
            assert(r[p] == b[p - a.len()]);
            assert(r[q] == b[q - a.len()]);
            lemma_section_rows_entries(1, n1, first1, p - a.len());
            lemma_section_rows_entries(1, n1, first1, q - a.len());
        }
    }
}

/// Law: the staged section holds exactly the entries changed in the index, in their order,
/// each with its staged kind; the unstaged section holds exactly the entries changed in the
/// working tree, in their order, each with its unstaged kind, whatever their staged kind.
pub proof fn lemma_sections_filter_entries(entries: Seq<StatusEntry>)
    ensures
        staged_changes(entries) == entries.filter(|e: StatusEntry| e.staged != StatusKind::Unchanged).map_values(
            |e: StatusEntry| (e.staged, e.path@),
        ),
        unstaged_changes(entries) == entries.filter(|e: StatusEntry| e.unstaged != StatusKind::Unchanged).map_values(
            |e: StatusEntry| (e.unstaged, e.path@),
        ),
    decreases entries.len(),
{
    let fs = |e: StatusEntry| e.staged != StatusKind::Unchanged;
    let fu = |e: StatusEntry| e.unstaged != StatusKind::Unchanged;
    if entries.len() == 0 {
        assert(entries.filter(fs) =~= Seq::<StatusEntry>::empty()) by {
            reveal(Seq::filter);
        }
        assert(entries.filter(fu) =~= Seq::<StatusEntry>::empty()) by {
            reveal(Seq::filter);
        }
    } else {
        let prev = entries.drop_last();
        let e = entries.last();
        lemma_sections_filter_entries(prev);
        assert(entries == prev.push(e));
        prev.lemma_filter_push(e, fs);
        prev.lemma_filter_push(e, fu);
        assert(staged_changes(entries) =~= entries.filter(fs).map_values(
            |e: StatusEntry| (e.staged, e.path@),
        ));
        assert(unstaged_changes(entries) =~= entries.filter(fu).map_values(
            |e: StatusEntry| (e.unstaged, e.path@),
        ));
    }
}

/// Law: each kind's label is the letter git shows for it followed by a space (A, M, D,
/// R, T, U; two spaces when unchanged); added is green, modified amber, deleted and
/// conflicted red, renamed blue, type-changed purple, unchanged grey; added, modified,
/// deleted and conflicted rows get a faint fill of their colour family, the others none.
pub proof fn lemma_kind_presentation()
    ensures
        kind_label(StatusKind::Unchanged) =~= seq![' ', ' '],
        kind_label(StatusKind::Added) =~= seq!['A', ' '],
        kind_label(StatusKind::Modified) =~= seq!['M', ' '],
        kind_label(StatusKind::Deleted) =~= seq!['D', ' '],
        kind_label(StatusKind::Renamed) =~= seq!['R', ' '],
        kind_label(StatusKind::TypeChange) =~= seq!['T', ' '],
        kind_label(StatusKind::Conflict) =~= seq!['U', ' '],
        kind_color(StatusKind::Unchanged) == (201u8, 209u8, 217u8),
        kind_color(StatusKind::Added) == (63u8, 185u8, 80u8),
        kind_color(StatusKind::Modified) == (210u8, 153u8, 34u8),
        kind_color(StatusKind::Deleted) == (248u8, 81u8, 73u8),
        kind_color(StatusKind::Renamed) == (88u8, 166u8, 255u8),
        kind_color(StatusKind::TypeChange) == (187u8, 128u8, 230u8),
        kind_color(StatusKind::Conflict) == (248u8, 81u8, 73u8),
        kind_background(StatusKind::Added) == Some(rgba(46, 160, 67, 25)),
        kind_background(StatusKind::Modified) == Some(rgba(210, 153, 34, 25)),
        kind_background(StatusKind::Deleted) == Some(rgba(248, 81, 73, 25)),
        kind_background(StatusKind::Conflict) == Some(rgba(248, 81, 73, 25)),
        kind_background(StatusKind::Renamed) == None::<Rgba8>,
        kind_background(StatusKind::TypeChange) == None::<Rgba8>,
        kind_background(StatusKind::Unchanged) == None::<Rgba8>,
{
}

} // verus!
