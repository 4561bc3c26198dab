use vstd::prelude::*;

use crate::config::style::{Rgba8, StatusStyle};

verus! {

/// git's status bits (`git_status_t`), as `git2::Status::bits` gives them.
pub const INDEX_NEW: u32 = 1;

pub const INDEX_MODIFIED: u32 = 2;

pub const INDEX_DELETED: u32 = 4;

pub const INDEX_RENAMED: u32 = 8;

pub const INDEX_TYPECHANGE: u32 = 16;

pub const WT_NEW: u32 = 128;

pub const WT_MODIFIED: u32 = 256;

pub const WT_DELETED: u32 = 512;

pub const WT_TYPECHANGE: u32 = 1024;

pub const WT_RENAMED: u32 = 2048;

pub const CONFLICTED: u32 = 32768;

pub struct StatusEntry {
    pub path: String,
    pub staged: StatusKind,
    pub unstaged: StatusKind,
}

#[derive(Clone, Copy, PartialEq, Eq, Structural, Debug)]
pub enum StatusKind {
    Unchanged,
    Added,
    Modified,
    Deleted,
    Renamed,
    TypeChange,
    Conflict,
}

/// The two-character label of `kind`.
pub open spec fn label_text(kind: StatusKind) -> Seq<char> {
    match kind {
        StatusKind::Unchanged => seq![' ', ' '],
        StatusKind::Added => seq!['A', ' '],
        StatusKind::Modified => seq!['M', ' '],
        StatusKind::Deleted => seq!['D', ' '],
        StatusKind::Renamed => seq!['R', ' '],
        StatusKind::TypeChange => seq!['T', ' '],
        StatusKind::Conflict => seq!['U', ' '],
    }
}

/// The foreground colour of an entry of kind `kind` in `style`.
pub open spec fn kind_fg(kind: StatusKind, style: StatusStyle) -> (u8, u8, u8) {
    match kind {
        StatusKind::Unchanged => style.path_fg,
        StatusKind::Added => style.added_fg,
        StatusKind::Modified => style.modified_fg,
        StatusKind::Deleted => style.deleted_fg,
        StatusKind::Renamed => style.renamed_fg,
        StatusKind::TypeChange => style.typechange_fg,
        StatusKind::Conflict => style.conflict_fg,
    }
}

/// The background colour of an entry of kind `kind` in `style`, if it has one.
pub open spec fn kind_bg(kind: StatusKind, style: StatusStyle) -> Option<Rgba8> {
    match kind {
        StatusKind::Added => Some(style.added_bg),
        StatusKind::Modified => Some(style.modified_bg),
        StatusKind::Deleted => Some(style.deleted_bg),
        StatusKind::Conflict => Some(style.conflict_bg),
        _ => None,
    }
}

impl StatusKind {
    pub fn label(self) -> (r: &'static str)
        ensures
            r@ == label_text(self),
    {
        match self {
            Self::Unchanged => {
                proof {
                    reveal_strlit("  ");
                }
                "  "
            },
            Self::Added => {
                proof {
                    reveal_strlit("A ");
                }
                "A "
            },
            Self::Modified => {
                proof {
                    reveal_strlit("M ");
                }
                "M "
            },
            Self::Deleted => {
                proof {
                    reveal_strlit("D ");
                }
                "D "
            },
            Self::Renamed => {
                proof {
                    reveal_strlit("R ");
                }
                "R "
            },
            Self::TypeChange => {
                proof {
                    reveal_strlit("T ");
                }
                "T "
            },
            Self::Conflict => {
                proof {
                    reveal_strlit("U ");
                }
                "U "
            },
        }
    }

    pub fn fg_color(self, style: &StatusStyle) -> (c: (u8, u8, u8))
        ensures
            c == kind_fg(self, *style),
    {
        match self {
            Self::Unchanged => style.path_fg,
            Self::Added => style.added_fg,
            Self::Modified => style.modified_fg,
            Self::Deleted => style.deleted_fg,
            Self::Renamed => style.renamed_fg,
            Self::TypeChange => style.typechange_fg,
            Self::Conflict => style.conflict_fg,
        }
    }

    pub fn bg_color(self, style: &StatusStyle) -> (c: Option<Rgba8>)
        ensures
            c == kind_bg(self, *style),
    {
        match self {
            Self::Added => Some(style.added_bg),
            Self::Modified => Some(style.modified_bg),
            Self::Deleted => Some(style.deleted_bg),
            Self::Conflict => Some(style.conflict_bg),
            _ => None,
        }
    }
}

/// The flags that make a change staged, each with its kind, in order of precedence.
pub open spec fn staged_table_spec() -> Seq<(u32, StatusKind)> {
    seq![
        (INDEX_NEW, StatusKind::Added),
        (INDEX_MODIFIED, StatusKind::Modified),
        (INDEX_DELETED, StatusKind::Deleted),
        (INDEX_RENAMED, StatusKind::Renamed),
        (INDEX_TYPECHANGE, StatusKind::TypeChange),
    ]
}

/// The flags that make a change unstaged, each with its kind, in order of precedence.
pub open spec fn unstaged_table_spec() -> Seq<(u32, StatusKind)> {
    seq![
        (WT_NEW, StatusKind::Added),
        (WT_MODIFIED, StatusKind::Modified),
        (WT_DELETED, StatusKind::Deleted),
        (WT_RENAMED, StatusKind::Renamed),
        (WT_TYPECHANGE, StatusKind::TypeChange),
        (CONFLICTED, StatusKind::Conflict),
    ]
}

/// The kind of the first flag of `table` that `status` holds in full; `Unchanged` when none does.
pub open spec fn classify_spec(status: u32, table: Seq<(u32, StatusKind)>) -> StatusKind
    decreases table.len(),
{
    if table.len() == 0 {
        StatusKind::Unchanged
    } else if status & table[0].0 == table[0].0 {
        table[0].1
    } else {
        classify_spec(status, table.drop_first())
    }
}

// The first flag that matches wins, which keeps the precedence of the flags.
fn staged_table() -> (t: Vec<(u32, StatusKind)>)
    ensures
        t@ == staged_table_spec(),
{
    let t = vec![
        (INDEX_NEW, StatusKind::Added),
        (INDEX_MODIFIED, StatusKind::Modified),
        (INDEX_DELETED, StatusKind::Deleted),
        (INDEX_RENAMED, StatusKind::Renamed),
        (INDEX_TYPECHANGE, StatusKind::TypeChange),
    ];
    assert(t@ == staged_table_spec());
    t
}

fn unstaged_table() -> (t: Vec<(u32, StatusKind)>)
    ensures
        t@ == unstaged_table_spec(),
{
    let t = vec![
        (WT_NEW, StatusKind::Added),
        (WT_MODIFIED, StatusKind::Modified),
        (WT_DELETED, StatusKind::Deleted),
        (WT_RENAMED, StatusKind::Renamed),
        (WT_TYPECHANGE, StatusKind::TypeChange),
        (CONFLICTED, StatusKind::Conflict),
    ];
    assert(t@ == unstaged_table_spec());
    t
}

fn classify(status: u32, table: &[(u32, StatusKind)]) -> (k: StatusKind)
    ensures
        k == classify_spec(status, table@),
{
    let mut i: usize = 0;
    assert(table@.skip(0) == table@);
    while i < table.len()
        invariant
            i <= table@.len(),
            classify_spec(status, table@) == classify_spec(status, table@.skip(i as int)),
        decreases table@.len() - i,
    {
        let (flag, kind) = table[i];
        assert(table@.skip(i as int).drop_first() == table@.skip(i + 1));
        if status & flag == flag {
            return kind;
        }
        i += 1;
    }
    StatusKind::Unchanged
}

impl StatusEntry {
    /// The status entry of a path with git status bits `status`. A path that git cannot
    /// give as text is shown as `???`.
    pub fn from_status(path: Option<&str>, status: u32) -> (e: Self)
        ensures
            e.path@ == match path {
                Some(p) => p@,
                None => seq!['?', '?', '?'],
            },
            e.staged == classify_spec(status, staged_table_spec()),
            e.unstaged == classify_spec(status, unstaged_table_spec()),
    {
        let path_text = match path {
            Some(p) => p,
            None => {
                proof {
                    reveal_strlit("???");
                }
                "???"
            },
        };
        let staged = staged_table();
        let unstaged = unstaged_table();
        StatusEntry {
            path: path_text.to_owned(),
            staged: classify(status, staged.as_slice()),
            unstaged: classify(status, unstaged.as_slice()),
        }
    }
}

/// Whether `status` has the flag `bit` set.
pub open spec fn has_flag(status: u32, bit: u32) -> bool {
    status & bit != 0
}

/// For a single-bit flag, holding the flag in full is holding its bit.
proof fn lemma_single_bits(status: u32)
    ensures
        (status & INDEX_NEW == INDEX_NEW) == has_flag(status, INDEX_NEW),
        (status & INDEX_MODIFIED == INDEX_MODIFIED) == has_flag(status, INDEX_MODIFIED),
        (status & INDEX_DELETED == INDEX_DELETED) == has_flag(status, INDEX_DELETED),
        (status & INDEX_RENAMED == INDEX_RENAMED) == has_flag(status, INDEX_RENAMED),
        (status & INDEX_TYPECHANGE == INDEX_TYPECHANGE) == has_flag(status, INDEX_TYPECHANGE),
        (status & WT_NEW == WT_NEW) == has_flag(status, WT_NEW),
        (status & WT_MODIFIED == WT_MODIFIED) == has_flag(status, WT_MODIFIED),
        (status & WT_DELETED == WT_DELETED) == has_flag(status, WT_DELETED),
        (status & WT_RENAMED == WT_RENAMED) == has_flag(status, WT_RENAMED),
        (status & WT_TYPECHANGE == WT_TYPECHANGE) == has_flag(status, WT_TYPECHANGE),
        (status & CONFLICTED == CONFLICTED) == has_flag(status, CONFLICTED),
{
    assert(((status & 1u32 == 1u32) == (status & 1u32 != 0u32)) && ((status & 2u32 == 2u32) == (
    status & 2u32 != 0u32)) && ((status & 4u32 == 4u32) == (status & 4u32 != 0u32)) && ((status
        & 8u32 == 8u32) == (status & 8u32 != 0u32)) && ((status & 16u32 == 16u32) == (status
        & 16u32 != 0u32)) && ((status & 128u32 == 128u32) == (status & 128u32 != 0u32)) && ((
    status & 256u32 == 256u32) == (status & 256u32 != 0u32)) && ((status & 512u32 == 512u32) == (
    status & 512u32 != 0u32)) && ((status & 1024u32 == 1024u32) == (status & 1024u32 != 0u32))
        && ((status & 2048u32 == 2048u32) == (status & 2048u32 != 0u32)) && ((status & 32768u32
        == 32768u32) == (status & 32768u32 != 0u32))) by (bit_vector);
}

/// Law: the staged kind of a path is read from git's index flags, the first that is set
/// in this order: new is Added, modified is Modified, deleted is Deleted, renamed is
/// Renamed, type change is TypeChange; with none of them set, the path is Unchanged in the
/// index.
pub proof fn lemma_staged_kind_of_flags(status: u32)
    ensures
        has_flag(status, INDEX_NEW) ==> classify_spec(status, staged_table_spec())
            == StatusKind::Added,
        !has_flag(status, INDEX_NEW) && has_flag(status, INDEX_MODIFIED) ==> classify_spec(
            status,
            staged_table_spec(),
        ) == StatusKind::Modified,
        !has_flag(status, INDEX_NEW) && !has_flag(status, INDEX_MODIFIED) && has_flag(
            status,
            INDEX_DELETED,
        ) ==> classify_spec(status, staged_table_spec()) == StatusKind::Deleted,
        !has_flag(status, INDEX_NEW) && !has_flag(status, INDEX_MODIFIED) && !has_flag(
            status,
            INDEX_DELETED,
        ) && has_flag(status, INDEX_RENAMED) ==> classify_spec(status, staged_table_spec())
            == StatusKind::Renamed,
        !has_flag(status, INDEX_NEW) && !has_flag(status, INDEX_MODIFIED) && !has_flag(
            status,
            INDEX_DELETED,
        ) && !has_flag(status, INDEX_RENAMED) && has_flag(status, INDEX_TYPECHANGE)
            ==> classify_spec(status, staged_table_spec()) == StatusKind::TypeChange,
        !has_flag(status, INDEX_NEW) && !has_flag(status, INDEX_MODIFIED) && !has_flag(
            status,
            INDEX_DELETED,
        ) && !has_flag(status, INDEX_RENAMED) && !has_flag(status, INDEX_TYPECHANGE)
            ==> classify_spec(status, staged_table_spec()) == StatusKind::Unchanged,
{
    lemma_single_bits(status);
    reveal_with_fuel(classify_spec, 6);
}

/// Law: the unstaged kind of a path is read from git's working-tree flags, the first that
/// is set in this order: new (untracked) is Added, modified is Modified, deleted is
/// Deleted, renamed is Renamed, type change is TypeChange, conflicted is Conflict; with none
/// of them set, the path is Unchanged in the working tree.
pub proof fn lemma_unstaged_kind_of_flags(status: u32)
    ensures
        has_flag(status, WT_NEW) ==> classify_spec(status, unstaged_table_spec())
            == StatusKind::Added,
        !has_flag(status, WT_NEW) && has_flag(status, WT_MODIFIED) ==> classify_spec(
            status,
            unstaged_table_spec(),
        ) == StatusKind::Modified,
        !has_flag(status, WT_NEW) && !has_flag(status, WT_MODIFIED) && has_flag(
            status,
            WT_DELETED,
        ) ==> classify_spec(status, unstaged_table_spec()) == StatusKind::Deleted,
        !has_flag(status, WT_NEW) && !has_flag(status, WT_MODIFIED) && !has_flag(
            status,
            WT_DELETED,
        ) && has_flag(status, WT_RENAMED) ==> classify_spec(status, unstaged_table_spec())
            == StatusKind::Renamed,
        !has_flag(status, WT_NEW) && !has_flag(status, WT_MODIFIED) && !has_flag(
            status,
            WT_DELETED,
        ) && !has_flag(status, WT_RENAMED) && has_flag(status, WT_TYPECHANGE) ==> classify_spec(
            status,
            unstaged_table_spec(),
        ) == StatusKind::TypeChange,
        !has_flag(status, WT_NEW) && !has_flag(status, WT_MODIFIED) && !has_flag(
            status,
            WT_DELETED,
        ) && !has_flag(status, WT_RENAMED) && !has_flag(status, WT_TYPECHANGE) && has_flag(
            status,
            CONFLICTED,
        ) ==> classify_spec(status, unstaged_table_spec()) == StatusKind::Conflict,
        !has_flag(status, WT_NEW) && !has_flag(status, WT_MODIFIED) && !has_flag(
            status,
            WT_DELETED,
        ) && !has_flag(status, WT_RENAMED) && !has_flag(status, WT_TYPECHANGE) && !has_flag(
            status,
            CONFLICTED,
        ) ==> classify_spec(status, unstaged_table_spec()) == StatusKind::Unchanged,
{
    lemma_single_bits(status);
    reveal_with_fuel(classify_spec, 7);
}

/// Law: each kind's label is the letter git shows for it followed by a space: A, M, D, R,
/// T and U; an unchanged side shows two spaces.
pub proof fn lemma_labels()
    ensures
        label_text(StatusKind::Unchanged) =~= seq![' ', ' '],
        label_text(StatusKind::Added) =~= seq!['A', ' '],
        label_text(StatusKind::Modified) =~= seq!['M', ' '],
        label_text(StatusKind::Deleted) =~= seq!['D', ' '],
        label_text(StatusKind::Renamed) =~= seq!['R', ' '],
        label_text(StatusKind::TypeChange) =~= seq!['T', ' '],
        label_text(StatusKind::Conflict) =~= seq!['U', ' '],
{
}

/// Law: each kind is drawn in the style's colour named for it, an unchanged side in the
/// path colour; added, modified, deleted and conflicted rows get the background named for
/// them, and renamed, type-changed and unchanged rows none.
pub proof fn lemma_kind_colors(style: StatusStyle)
    ensures
        kind_fg(StatusKind::Unchanged, style) == style.path_fg,
        kind_fg(StatusKind::Added, style) == style.added_fg,
        kind_fg(StatusKind::Modified, style) == style.modified_fg,
        kind_fg(StatusKind::Deleted, style) == style.deleted_fg,
        kind_fg(StatusKind::Renamed, style) == style.renamed_fg,
        kind_fg(StatusKind::TypeChange, style) == style.typechange_fg,
        kind_fg(StatusKind::Conflict, style) == style.conflict_fg,
        kind_bg(StatusKind::Added, style) == Some(style.added_bg),
        kind_bg(StatusKind::Modified, style) == Some(style.modified_bg),
        kind_bg(StatusKind::Deleted, style) == Some(style.deleted_bg),
        kind_bg(StatusKind::Conflict, style) == Some(style.conflict_bg),
        kind_bg(StatusKind::Renamed, style) == None::<Rgba8>,
        kind_bg(StatusKind::TypeChange, style) == None::<Rgba8>,
        kind_bg(StatusKind::Unchanged, style) == None::<Rgba8>,
{
}

} // verus!
