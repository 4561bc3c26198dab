//! Which `-` line is compared with which `+` line.
//!
//! A maximal run of deleted lines and the run of added lines right after it are paired
//! index by index; lines left over on the longer side have no partner.
use vstd::prelude::*;

verus! {

/// Start of the run of `true` entries of `flags` that ends at `p`.
pub open spec fn run_start(flags: Seq<bool>, p: int) -> int
    decreases p,
{
    if p > 0 && flags[p - 1] {
        run_start(flags, p - 1)
    } else {
        p
    }
}

/// End (exclusive) of the run of `true` entries of `flags` that starts at or covers `p`.
pub open spec fn run_end(flags: Seq<bool>, p: int) -> int
    decreases flags.len() - p,
{
    if 0 <= p < flags.len() && flags[p] {
        run_end(flags, p + 1)
    } else {
        p
    }
}

/// The line that line `p` is compared with, if any. `del[p]` marks deleted lines and
/// `add[p]` added lines.
pub open spec fn partner(del: Seq<bool>, add: Seq<bool>, p: int) -> Option<int> {
    if del[p] {
        let ds = run_start(del, p);
        let de = run_end(del, p);
        let ae = run_end(add, de);
        if p - ds < ae - de {
            Some(de + (p - ds))
        } else {
            None
        }
    } else if add[p] {
        let as_ = run_start(add, p);
        if as_ > 0 && del[as_ - 1] {
            let ds = run_start(del, as_ - 1);
            if p - as_ < as_ - ds {
                Some(ds + (p - as_))
            } else {
                None
            }
        } else {
            None
        }
    } else {
        None
    }
}

pub proof fn lemma_run_start(flags: Seq<bool>, s: int, p: int)
    requires
        0 <= s <= p < flags.len(),
        s == 0 || !flags[s - 1],
        forall|q: int| s <= q <= p ==> #[trigger] flags[q],
    ensures
        run_start(flags, p) == s,
    decreases p,
{
    if p > s {
        lemma_run_start(flags, s, p - 1);
    }
}

pub proof fn lemma_run_end(flags: Seq<bool>, p: int, e: int)
    requires
        0 <= p <= e <= flags.len(),
        e == flags.len() || !flags[e],
        forall|q: int| p <= q < e ==> #[trigger] flags[q],
    ensures
        run_end(flags, p) == e,
    decreases e - p,
{
    if p < e {
        lemma_run_end(flags, p + 1, e);
    }
}

pub proof fn lemma_run_start_bounds(flags: Seq<bool>, p: int)
    requires
        0 <= p,
    ensures
        0 <= run_start(flags, p) <= p,
    decreases p,
{
    if p > 0 && flags[p - 1] {
        lemma_run_start_bounds(flags, p - 1);
    }
}

pub proof fn lemma_run_end_bounds(flags: Seq<bool>, p: int)
    requires
        0 <= p <= flags.len(),
    ensures
        p <= run_end(flags, p) <= flags.len(),
    decreases flags.len() - p,
{
    if p < flags.len() && flags[p] {
        lemma_run_end_bounds(flags, p + 1);
    }
}

/// A partner is a line of the same sequence.
pub proof fn lemma_partner_in_range(del: Seq<bool>, add: Seq<bool>, p: int)
    requires
        del.len() == add.len(),
        0 <= p < del.len(),
    ensures
        partner(del, add, p) matches Some(q) ==> 0 <= q < del.len() && q != p,
{
    lemma_run_start_bounds(del, p);
    lemma_run_end_bounds(del, p);
    lemma_run_end_bounds(del, p + 1);
    if del[p] {
        let de = run_end(del, p);
        lemma_run_end_bounds(add, de);
        assert(run_end(del, p) == run_end(del, p + 1));
    } else if add[p] {
        lemma_run_start_bounds(add, p);
        let as_ = run_start(add, p);
        if as_ > 0 {
            lemma_run_start_bounds(del, as_ - 1);
        }
    }
}

/// The run found by `run_start`: every entry from it up to `p` is `true`, and the entry
/// before it is not.
proof fn lemma_run_start_props(flags: Seq<bool>, p: int)
    requires
        0 <= p <= flags.len(),
    ensures
        0 <= run_start(flags, p) <= p,
        run_start(flags, p) == 0 || !flags[run_start(flags, p) - 1],
        forall|x: int| run_start(flags, p) <= x < p ==> #[trigger] flags[x],
    decreases p,
{
    if p > 0 && flags[p - 1] {
        lemma_run_start_props(flags, p - 1);
    }
}

/// The run found by `run_end`: every entry from `p` up to it is `true`, and the entry at
/// it is not.
proof fn lemma_run_end_props(flags: Seq<bool>, p: int)
    requires
        0 <= p <= flags.len(),
    ensures
        p <= run_end(flags, p) <= flags.len(),
        run_end(flags, p) == flags.len() || !flags[run_end(flags, p)],
        forall|x: int| p <= x < run_end(flags, p) ==> #[trigger] flags[x],
    decreases flags.len() - p,
{
    if p < flags.len() && flags[p] {
        lemma_run_end_props(flags, p + 1);
    }
}

/// Law: pairing is mutual. When no line is both deleted and added, a deleted line is
/// paired with an added line, an added line with a deleted line, and the partner of a
/// line's partner is the line itself; so the pairs are one to one.
pub proof fn lemma_partner_mutual(del: Seq<bool>, add: Seq<bool>, p: int)
    requires
        del.len() == add.len(),
        0 <= p < del.len(),
        forall|x: int| 0 <= x < del.len() ==> !(#[trigger] del[x] && add[x]),
    ensures
        partner(del, add, p) matches Some(q) ==> {
            &&& partner(del, add, q) == Some(p)
            &&& del[p] ==> add[q]
            &&& add[p] ==> del[q]
        },
{
    let n = del.len() as int;
    if del[p] {
        let ds = run_start(del, p);
        let de = run_end(del, p);
        lemma_run_start_props(del, p);
        lemma_run_end_props(del, p);
        let ae = run_end(add, de);
        lemma_run_end_props(add, de);
        if p - ds < ae - de {
            let q = de + (p - ds);
            assert(add[q]);
            assert(!del[q]);
            assert(del[de - 1]);
            assert(!add[de - 1]);
            lemma_run_start(add, de, q);
            assert(run_start(del, de - 1) == ds) by {
                lemma_run_start(del, ds, de - 1);
            }
        }
    } else if add[p] {
        let as_ = run_start(add, p);
        lemma_run_start_props(add, p);
        if as_ > 0 && del[as_ - 1] {
            let ds = run_start(del, as_ - 1);
            lemma_run_start_props(del, as_ - 1);
            if p - as_ < as_ - ds {
                let q = ds + (p - as_);
                assert(del[q]);
                assert(add[as_]);
                assert(!del[as_]);
                assert(run_start(del, q) == ds) by {
                    lemma_run_start(del, ds, q);
                }
                assert(run_end(del, q) == as_) by {
                    lemma_run_end(del, q, as_);
                }
                lemma_run_end_props(add, as_);
                assert(run_end(add, as_) > p) by {
                    if run_end(add, as_) <= p {
                        assert(add[run_end(add, as_)]);
                    }
                }
            }
        }
    }
}

} // verus!
