//! The laws that relate the library's functions to one another: what the
//! parsers count, what the zero record is, when a record is clean, the
//! fixed order of reported operations, and which templates a rendering can
//! depend on.
use vstd::prelude::*;

use crate::format::{format_full_spec, format_minimal_spec, TemplatesView};
use crate::git::{
    changed_count, changed_line, git_status_of, operations_spec, staged_count, staged_line,
    MarkerFlags,
};
use crate::hg::hg_status_of;
use crate::status::{is_clean_spec, zero_status, StatusView, VCS};
use crate::text::{lemma_count_push, split_lines};

verus! {

/// A change line whose XY code marks both the index side and the worktree
/// side contributes to both counters at once.
pub proof fn lemma_both_sides_increment(lines: Seq<Seq<char>>, l: Seq<char>)
    requires
        staged_line(l),
        changed_line(l),
    ensures
        staged_count(lines.push(l)) == staged_count(lines) + 1,
        changed_count(lines.push(l)) == changed_count(lines) + 1,
{
    lemma_count_push(lines, |x: Seq<char>| staged_line(x), l);
    lemma_count_push(lines, |x: Seq<char>| changed_line(x), l);
}

/// An empty status report describes the zero-value record of its backend,
/// and the zero-value record is clean.
pub proof fn lemma_empty_report_is_zero()
    ensures
        git_status_of(split_lines(Seq::empty())) == zero_status(VCS::Git),
        hg_status_of(split_lines(Seq::empty())) == zero_status(VCS::Hg),
        is_clean_spec(zero_status(VCS::Git)),
        is_clean_spec(zero_status(VCS::Hg)),
{
    assert(split_lines(Seq::empty()) =~~= Seq::<Seq<char>>::empty());
}

/// A record is clean exactly when all four of staged, changed, untracked
/// and conflicts are zero.
pub proof fn lemma_clean_characterization(st: StatusView)
    ensures
        is_clean_spec(st) <==> !(st.staged > 0 || st.changed > 0 || st.untracked > 0
            || st.conflicts > 0),
{
}

/// Cleanliness depends on the four working-state counters alone: two
/// records that agree on those four agree on cleanliness, whatever their
/// divergence counters and operation lists hold.
pub proof fn lemma_clean_independent(a: StatusView, b: StatusView)
    requires
        a.staged == b.staged,
        a.changed == b.changed,
        a.untracked == b.untracked,
        a.conflicts == b.conflicts,
    ensures
        is_clean_spec(a) == is_clean_spec(b),
{
}

/// Whether an operation name is the merge marker or the bisect marker.
pub open spec fn is_merge_or_bisect(op: Seq<char>) -> bool {
    op == "MERGING"@ || op == "BISECTING"@
}

/// The operation list restricted to the merge and bisect markers.
pub open spec fn merge_bisect_of(ops: Seq<Seq<char>>) -> Seq<Seq<char>> {
    ops.filter(|op: Seq<char>| is_merge_or_bisect(op))
}

proof fn lemma_merge_bisect_push(s: Seq<Seq<char>>, x: Seq<char>)
    ensures
        merge_bisect_of(s.push(x)) == if is_merge_or_bisect(x) {
            merge_bisect_of(s).push(x)
        } else {
            merge_bisect_of(s)
        },
{
    reveal_with_fuel(Seq::filter, 2);
    assert(s.push(x).drop_last() =~= s);
    assert(s.push(x).last() == x);
}

/// Operation detection is order-stable: with both the merge marker and the
/// bisect marker present, the reported list holds `MERGING` before
/// `BISECTING`, whatever other markers are present.
pub proof fn lemma_operations_order(f: MarkerFlags)
    requires
        f.merge_head,
        f.bisect_log,
    ensures
        merge_bisect_of(operations_spec(f)) == seq!["MERGING"@, "BISECTING"@],
{
    reveal_with_fuel(Seq::filter, 2);
    reveal_strlit("REBASE");
    reveal_strlit("AM/REBASE");
    reveal_strlit("MERGING");
    reveal_strlit("CHERRY-PICKING");
    reveal_strlit("REVERTING");
    reveal_strlit("BISECTING");
    assert("REBASE"@.len() == 6);
    assert("AM/REBASE"@.len() == 9);
    assert("MERGING"@.len() == 7);
    assert("CHERRY-PICKING"@.len() == 14);
    assert("REVERTING"@.len() == 9);
    assert("BISECTING"@.len() == 9);
    assert("AM/REBASE"@[0] == 'A');
    assert("REVERTING"@[0] == 'R');
    assert("BISECTING"@[0] == 'B');
    assert(!is_merge_or_bisect("REBASE"@));
    assert(!is_merge_or_bisect("AM/REBASE"@));
    assert(!is_merge_or_bisect("CHERRY-PICKING"@));
    assert(!is_merge_or_bisect("REVERTING"@));
    assert(is_merge_or_bisect("MERGING"@));
    assert(is_merge_or_bisect("BISECTING"@));
    let s0 = Seq::<Seq<char>>::empty();
    let s1 = if f.rebase_merge {
        s0.push("REBASE"@)
    } else {
        s0
    };
    let s2 = if f.rebase_apply {
        s1.push("AM/REBASE"@)
    } else {
        s1
    };
    let s3 = s2.push("MERGING"@);
    let s4 = if f.cherry_pick_head {
        s3.push("CHERRY-PICKING"@)
    } else {
        s3
    };
    let s5 = if f.revert_head {
        s4.push("REVERTING"@)
    } else {
        s4
    };
    let s6 = s5.push("BISECTING"@);
    assert(operations_spec(f) == s6);
    assert(merge_bisect_of(s0) =~~= Seq::<Seq<char>>::empty());
    if f.rebase_merge {
        lemma_merge_bisect_push(s0, "REBASE"@);
    }
    assert(merge_bisect_of(s1) =~~= Seq::<Seq<char>>::empty());
    if f.rebase_apply {
        lemma_merge_bisect_push(s1, "AM/REBASE"@);
    }
    assert(merge_bisect_of(s2) =~~= Seq::<Seq<char>>::empty());
    lemma_merge_bisect_push(s2, "MERGING"@);
    assert(merge_bisect_of(s3) =~~= seq!["MERGING"@]);
    if f.cherry_pick_head {
        lemma_merge_bisect_push(s3, "CHERRY-PICKING"@);
    }
    assert(merge_bisect_of(s4) =~~= seq!["MERGING"@]);
    if f.revert_head {
        lemma_merge_bisect_push(s4, "REVERTING"@);
    }
    assert(merge_bisect_of(s5) =~~= seq!["MERGING"@]);
    lemma_merge_bisect_push(s5, "BISECTING"@);
    assert(merge_bisect_of(s6) =~~= seq!["MERGING"@, "BISECTING"@]);
}

/// The detailed layout never consults the template of a zero-valued
/// counter, nor the clean template of a dirty record: renderings under two
/// tables that agree everywhere else are identical.
pub proof fn lemma_detailed_ignores_zero_counters(
    st: StatusView,
    t1: TemplatesView,
    t2: TemplatesView,
)
    requires
        t1.prefix == t2.prefix,
        t1.name == t2.name,
        t1.branch == t2.branch,
        t1.separator == t2.separator,
        t1.operation == t2.operation,
        t1.suffix == t2.suffix,
        st.behind > 0 ==> t1.behind == t2.behind,
        st.ahead > 0 ==> t1.ahead == t2.ahead,
        st.staged > 0 ==> t1.staged == t2.staged,
        st.conflicts > 0 ==> t1.conflicts == t2.conflicts,
        st.changed > 0 ==> t1.changed == t2.changed,
        st.untracked > 0 ==> t1.untracked == t2.untracked,
        is_clean_spec(st) ==> t1.clean == t2.clean,
    ensures
        format_full_spec(st, t1) == format_full_spec(st, t2),
{
}

/// The minimal layout consults only the prefix, branch, divergence and
/// suffix templates, and the divergence templates only where the counters
/// are positive.
pub proof fn lemma_minimal_ignores_zero_counters(
    st: StatusView,
    t1: TemplatesView,
    t2: TemplatesView,
)
    requires
        t1.prefix == t2.prefix,
        t1.branch == t2.branch,
        t1.suffix == t2.suffix,
        st.behind > 0 ==> t1.behind == t2.behind,
        st.ahead > 0 ==> t1.ahead == t2.ahead,
    ensures
        format_minimal_spec(st, t1) == format_minimal_spec(st, t2),
{
}

} // verus!
