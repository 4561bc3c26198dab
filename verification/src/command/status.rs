use vstd::prelude::*;

use crate::model::status::{StatusEntry, StatusKind};
use crate::renderer::status::{plan_rows, status_row_count, status_rows, StatusRow};

verus! {

/// One line of a section: the change and the path it concerns.
pub struct StatusEntryView<'a> {
    pub kind: StatusKind,
    pub path: &'a str,
}

/// A titled group of changes.
pub struct StatusSection<'a> {
    pub title: &'static str,
    pub entries: Vec<StatusEntryView<'a>>,
}

/// The `(kind, path)` pairs of a section's entries.
pub open spec fn entry_views(entries: Seq<StatusEntryView>) -> Seq<(StatusKind, Seq<char>)> {
    entries.map_values(|e: StatusEntryView| (e.kind, e.path@))
}

/// The changes to the index among `entries`, in order.
pub open spec fn staged_views(entries: Seq<StatusEntry>) -> Seq<(StatusKind, Seq<char>)>
    decreases entries.len(),
{
    if entries.len() == 0 {
        Seq::empty()
    } else {
        let e = entries.last();
        let prev = staged_views(entries.drop_last());
        if e.staged != StatusKind::Unchanged {
            prev.push((e.staged, e.path@))
        } else {
            prev
        }
    }
}

/// The changes to the working tree among `entries`, in order.
pub open spec fn unstaged_views(entries: Seq<StatusEntry>) -> Seq<(StatusKind, Seq<char>)>
    decreases entries.len(),
{
    if entries.len() == 0 {
        Seq::empty()
    } else {
        let e = entries.last();
        let prev = unstaged_views(entries.drop_last());
        if e.unstaged != StatusKind::Unchanged {
            prev.push((e.unstaged, e.path@))
        } else {
            prev
        }
    }
}

/// Splits `entries` into the staged section and the unstaged section; an entry changed in
/// both places appears in both.
pub fn build_sections<'a>(entries: &'a [StatusEntry]) -> (sections: [StatusSection<'a>; 2])
    ensures
        sections@[0].title@ == "Staged changes"@,
        sections@[1].title@ == "Unstaged changes"@,
        entry_views(sections@[0].entries@) == staged_views(entries@),
        entry_views(sections@[1].entries@) == unstaged_views(entries@),
{
    let mut staged: Vec<StatusEntryView<'a>> = Vec::new();
    let mut unstaged: Vec<StatusEntryView<'a>> = Vec::new();

    let mut k: usize = 0;
    while k < entries.len()
        invariant
            k <= entries@.len(),
            entry_views(staged@) == staged_views(entries@.take(k as int)),
            entry_views(unstaged@) == unstaged_views(entries@.take(k as int)),
        decreases entries@.len() - k,
    {
        let entry = &entries[k];
        assert(entries@.take(k + 1).drop_last() == entries@.take(k as int));
        if entry.staged != StatusKind::Unchanged {
            staged.push(StatusEntryView { kind: entry.staged, path: entry.path.as_str() });
        }
        if entry.unstaged != StatusKind::Unchanged {
            unstaged.push(StatusEntryView { kind: entry.unstaged, path: entry.path.as_str() });
        }
        assert(entry_views(staged@) == staged_views(entries@.take(k + 1)));
        assert(entry_views(unstaged@) == unstaged_views(entries@.take(k + 1)));
        k += 1;
    }
    assert(entries@.take(k as int) == entries@);

    [
        StatusSection { title: "Staged changes", entries: staged },
        StatusSection { title: "Unstaged changes", entries: unstaged },
    ]
}

/// Number of rows of the image: each non-empty section gives its title, a blank row and its
/// entries, and one blank row separates consecutive non-empty sections.
pub fn row_count(sections: &[StatusSection; 2]) -> (n: usize)
    requires
        sections@[0].entries@.len() + sections@[1].entries@.len() + 5 <= usize::MAX,
    ensures
        n == status_row_count(sections@[0].entries@.len(), sections@[1].entries@.len()),
{
    let mut rows: usize = 0;
    let mut non_empty: usize = 0;
    let mut s: usize = 0;
    while s < 2
        invariant
            s <= 2,
            sections@[0].entries@.len() + sections@[1].entries@.len() + 5 <= usize::MAX,
            non_empty == (if s >= 1 && sections@[0].entries@.len() > 0 {
                1nat
            } else {
                0nat
            }) + (if s >= 2 && sections@[1].entries@.len() > 0 {
                1nat
            } else {
                0nat
            }),
            rows == (if s >= 1 && sections@[0].entries@.len() > 0 {
                2 + sections@[0].entries@.len()
            } else {
                0nat
            }) + (if s >= 2 && sections@[1].entries@.len() > 0 {
                2 + sections@[1].entries@.len()
            } else {
                0nat
            }),
        decreases 2 - s,
    {
        let n = sections[s].entries.len();
        if n > 0 {
            rows += 2 + n;
            non_empty += 1;
        }
        s += 1;
    }
    rows + non_empty.saturating_sub(1)
}

/// The rows of the image, in drawing order.
pub fn rows(sections: &[StatusSection; 2]) -> (r: Vec<StatusRow>)
    ensures
        r@ == status_rows(sections@[0].entries@.len(), sections@[1].entries@.len()),
{
    plan_rows(sections[0].entries.len(), sections[1].entries.len())
}

/// Law: the staged section holds exactly the entries changed in the index, in their order,
/// each with its staged kind; the unstaged section holds exactly the entries changed in the
/// working tree, in their order, each with its unstaged kind, whatever their staged kind.
pub proof fn lemma_sections_filter_entries(entries: Seq<StatusEntry>)
    ensures
        staged_views(entries) == entries.filter(|e: StatusEntry| e.staged != StatusKind::Unchanged).map_values(
            |e: StatusEntry| (e.staged, e.path@),
        ),
        unstaged_views(entries) == entries.filter(|e: StatusEntry| e.unstaged != StatusKind::Unchanged).map_values(
            |e: StatusEntry| (e.unstaged, e.path@),
        ),
    decreases entries.len(),
{
    let fs = |e: StatusEntry| e.staged != StatusKind::Unchanged;
    let fu = |e: StatusEntry| e.unstaged != StatusKind::Unchanged;
    if entries.len() == 0 {
        assert(entries.filter(fs) =~= Seq::<StatusEntry>::empty()) by {
            reveal(Seq::filter);
        }
        assert(entries.filter(fu) =~= Seq::<StatusEntry>::empty()) by {
            reveal(Seq::filter);
        }
    } else {
        let prev = entries.drop_last();
        let e = entries.last();
        lemma_sections_filter_entries(prev);
        assert(entries == prev.push(e));
        prev.lemma_filter_push(e, fs);
        prev.lemma_filter_push(e, fu);
        assert(staged_views(entries) =~= entries.filter(fs).map_values(
            |e: StatusEntry| (e.staged, e.path@),
        ));
        assert(unstaged_views(entries) =~= entries.filter(fu).map_values(
            |e: StatusEntry| (e.unstaged, e.path@),
        ));
    }
}

} // verus!
