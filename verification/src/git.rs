//! The porcelain-v2 status parser, the diff-numstat reader and the
//! in-progress-operation scanner for the snapshot-system backend.
use vstd::prelude::*;

use crate::status::{vcs_symbol_spec, ParseError, Status, StatusView, VCS};
use crate::text::{
    chars_eq_str, chars_to_string, count_lines, dec_val, digit_of, is_digit, lemma_count_le,
    lemma_count_push, lemma_split_lines_count, lines_vec, parse_i32_abs, parse_i32_spec,
    parse_u32_spec, parse_u32_vec, split_at_sep, split_lines, split_vec, split_ws, split_ws_vec,
    str_to_chars, valid_dec,
};

verus! {

/// Which operation marker files exist inside the repository's metadata
/// directory, gathered by the caller with one existence test per file.
#[derive(Clone, Copy, Debug, PartialEq, Eq, Structural)]
pub struct MarkerFlags {
    pub rebase_merge: bool,
    pub rebase_apply: bool,
    pub merge_head: bool,
    pub cherry_pick_head: bool,
    pub revert_head: bool,
    pub bisect_log: bool,
}

/// The operation names reported for a set of marker files, in the fixed
/// priority order, one name for every marker present.
pub open spec fn operations_spec(f: MarkerFlags) -> Seq<Seq<char>> {
    let s0 = Seq::<Seq<char>>::empty();
    let s1 = if f.rebase_merge {
        s0.push("REBASE"@)
    } else {
        s0
    };
    let s2 = if f.rebase_apply {
        s1.push("AM/REBASE"@)
    } else {
        s1
    };
    let s3 = if f.merge_head {
        s2.push("MERGING"@)
    } else {
        s2
    };
    let s4 = if f.cherry_pick_head {
        s3.push("CHERRY-PICKING"@)
    } else {
        s3
    };
    let s5 = if f.revert_head {
        s4.push("REVERTING"@)
    } else {
        s4
    };
    if f.bisect_log {
        s5.push("BISECTING"@)
    } else {
        s5
    }
}

/// The marker files tested inside the metadata directory, in the same
/// order as the names that `operations_spec` reports.
pub fn operation_marker_files() -> (r: Vec<String>)
    ensures
        r.deep_view() == seq![
            "rebase-merge"@,
            "rebase-apply"@,
            "MERGE_HEAD"@,
            "CHERRY_PICK_HEAD"@,
            "REVERT_HEAD"@,
            "BISECT_LOG"@,
        ],
{
    let mut r: Vec<String> = Vec::new();
    r.push(String::from_str("rebase-merge"));
    r.push(String::from_str("rebase-apply"));
    r.push(String::from_str("MERGE_HEAD"));
    r.push(String::from_str("CHERRY_PICK_HEAD"));
    r.push(String::from_str("REVERT_HEAD"));
    r.push(String::from_str("BISECT_LOG"));
    proof {
        assert(r.deep_view() =~~= seq![
            "rebase-merge"@,
            "rebase-apply"@,
            "MERGE_HEAD"@,
            "CHERRY_PICK_HEAD"@,
            "REVERT_HEAD"@,
            "BISECT_LOG"@,
        ]);
    }
    r
}

/// Look for files that indicate an ongoing operation (e.g., a merge)
/// and update *list* accordingly.
#[verifier::rlimit(50)]
pub fn get_operations(list: &mut Vec<String>, flags: &MarkerFlags)
    ensures
        final(list).deep_view() == old(list).deep_view() + operations_spec(*flags),
{
    let ghost base = old(list).deep_view();
    if flags.rebase_merge {
        let ghost prev = list.deep_view();
        list.push(String::from_str("REBASE"));
        proof {
            assert(list.deep_view() =~~= prev.push("REBASE"@));
        }
    }
    if flags.rebase_apply {
        let ghost prev = list.deep_view();
        list.push(String::from_str("AM/REBASE"));
        proof {
            assert(list.deep_view() =~~= prev.push("AM/REBASE"@));
        }
    }
    if flags.merge_head {
        let ghost prev = list.deep_view();
        list.push(String::from_str("MERGING"));
        proof {
            assert(list.deep_view() =~~= prev.push("MERGING"@));
        }
    }
    if flags.cherry_pick_head {
        let ghost prev = list.deep_view();
        list.push(String::from_str("CHERRY-PICKING"));
        proof {
            assert(list.deep_view() =~~= prev.push("CHERRY-PICKING"@));
        }
    }
    if flags.revert_head {
        let ghost prev = list.deep_view();
        list.push(String::from_str("REVERTING"));
        proof {
            assert(list.deep_view() =~~= prev.push("REVERTING"@));
        }
    }
    if flags.bisect_log {
        let ghost prev = list.deep_view();
        list.push(String::from_str("BISECTING"));
        proof {
            assert(list.deep_view() =~~= prev.push("BISECTING"@));
        }
    }
    proof {
        assert(list.deep_view() =~~= base + operations_spec(*flags));
    }
}

proof fn lemma_parse_zero()
    ensures
        parse_i32_spec("0"@) == Some(0int),
{
    reveal_strlit("0");
    assert("0"@ =~= seq!['0']);
    assert("0"@.len() == 1);
    assert("0"@[0] == '0');
    assert('0' as u32 == 48);
    assert(is_digit('0'));
    assert(valid_dec("0"@));
    assert(dec_val(Seq::<char>::empty()) == 0);
    assert("0"@.drop_last() =~= Seq::<char>::empty());
    assert(dec_val("0"@) == dec_val("0"@.drop_last()) * 10 + digit_of('0'));
    assert(digit_of('0') == 0);
    assert(dec_val("0"@) == 0);
}

/// The space-separated fields of one report line.
pub open spec fn line_toks(line: Seq<char>) -> Seq<Seq<char>> {
    split_at_sep(line, ' ')
}

/// The field at position `k`, or the given fallback when the line is
/// too short.
pub open spec fn tok_or(toks: Seq<Seq<char>>, k: int, dflt: Seq<char>) -> Seq<char> {
    if toks.len() > k {
        toks[k]
    } else {
        dflt
    }
}

/// Whether a field begins with `'.'`.
pub open spec fn starts_dot(t: Seq<char>) -> bool {
    t.len() > 0 && t[0] == '.'
}

/// Whether a field ends with `'.'`.
pub open spec fn ends_dot(t: Seq<char>) -> bool {
    t.len() > 0 && t.last() == '.'
}

/// Whether a line reports an ordinary or renamed/copied change
/// (record kinds `1` and `2`).
pub open spec fn is_change_line(line: Seq<char>) -> bool {
    line_toks(line)[0] == "1"@ || line_toks(line)[0] == "2"@
}

/// A change line whose index side of the XY code is not `'.'`:
/// it counts towards `staged`.
pub open spec fn staged_line(line: Seq<char>) -> bool {
    &&& is_change_line(line)
    &&& line_toks(line).len() >= 2
    &&& !starts_dot(line_toks(line)[1])
}

/// A change line whose worktree side of the XY code is not `'.'`:
/// it counts towards `changed`.
pub open spec fn changed_line(line: Seq<char>) -> bool {
    &&& is_change_line(line)
    &&& line_toks(line).len() >= 2
    &&& !ends_dot(line_toks(line)[1])
}

/// An unmerged (conflicted) line.
pub open spec fn conflict_line(line: Seq<char>) -> bool {
    line_toks(line)[0] == "u"@
}

/// An untracked-file line.
pub open spec fn untracked_line(line: Seq<char>) -> bool {
    line_toks(line)[0] == "?"@
}

/// A header line carrying the given sub-key.
pub open spec fn is_header(line: Seq<char>, key: Seq<char>) -> bool {
    &&& line_toks(line)[0] == "#"@
    &&& line_toks(line).len() >= 2
    &&& line_toks(line)[1] == key
}

/// The value a header line assigns, defaulting when the line is short.
pub open spec fn header_val(line: Seq<char>) -> Seq<char> {
    tok_or(line_toks(line), 2, "<unknown>"@)
}

/// The ahead field of a divergence header, defaulting to zero.
pub open spec fn ab_first(line: Seq<char>) -> Seq<char> {
    tok_or(line_toks(line), 2, "0"@)
}

/// The behind field of a divergence header, defaulting to zero.
pub open spec fn ab_second(line: Seq<char>) -> Seq<char> {
    tok_or(line_toks(line), 3, "0"@)
}

/// Whether both counts of a divergence header parse as signed numbers.
pub open spec fn ab_ok(line: Seq<char>) -> bool {
    parse_i32_spec(ab_first(line)) is Some && parse_i32_spec(ab_second(line)) is Some
}

/// The number of staged files a report announces.
pub open spec fn staged_count(lines: Seq<Seq<char>>) -> nat {
    count_lines(lines, |l: Seq<char>| staged_line(l))
}

/// The number of changed files a report announces.
pub open spec fn changed_count(lines: Seq<Seq<char>>) -> nat {
    count_lines(lines, |l: Seq<char>| changed_line(l))
}

/// The number of conflicted files a report announces.
pub open spec fn conflict_count(lines: Seq<Seq<char>>) -> nat {
    count_lines(lines, |l: Seq<char>| conflict_line(l))
}

/// The number of untracked files a report announces.
pub open spec fn untracked_count(lines: Seq<Seq<char>>) -> nat {
    count_lines(lines, |l: Seq<char>| untracked_line(l))
}

/// The value assigned by the last header line carrying `key`, if any.
pub open spec fn last_header_val(lines: Seq<Seq<char>>, key: Seq<char>) -> Option<Seq<char>>
    decreases lines.len(),
{
    if lines.len() == 0 {
        None
    } else if is_header(lines.last(), key) {
        Some(header_val(lines.last()))
    } else {
        last_header_val(lines.drop_last(), key)
    }
}

pub proof fn lemma_last_header_push(lines: Seq<Seq<char>>, key: Seq<char>, x: Seq<char>)
    ensures
        last_header_val(lines.push(x), key) == if is_header(x, key) {
            Some(header_val(x))
        } else {
            last_header_val(lines, key)
        },
{
    assert(lines.push(x).drop_last() =~= lines);
    assert(lines.push(x).last() == x);
}

/// The last divergence header line, if any.
pub open spec fn last_ab(lines: Seq<Seq<char>>) -> Option<Seq<char>>
    decreases lines.len(),
{
    if lines.len() == 0 {
        None
    } else if is_header(lines.last(), "branch.ab"@) {
        Some(lines.last())
    } else {
        last_ab(lines.drop_last())
    }
}

pub proof fn lemma_last_ab_push(lines: Seq<Seq<char>>, x: Seq<char>)
    ensures
        last_ab(lines.push(x)) == if is_header(x, "branch.ab"@) {
            Some(x)
        } else {
            last_ab(lines)
        },
{
    assert(lines.push(x).drop_last() =~= lines);
    assert(lines.push(x).last() == x);
}

/// A report parses without a hard error exactly when every divergence
/// header it contains carries two parseable counts.
pub open spec fn git_parse_ok(lines: Seq<Seq<char>>) -> bool {
    forall|i: int|
        0 <= i < lines.len() ==> (is_header(lines[i], "branch.ab"@) ==> ab_ok(lines[i]))
}

/// The absolute value.
pub open spec fn abs_of(v: int) -> nat {
    if v < 0 {
        (-v) as nat
    } else {
        v as nat
    }
}

/// The signed value a field parses to, or zero where it does not parse.
pub open spec fn parsed_or_zero(t: Seq<char>) -> int {
    match parse_i32_spec(t) {
        Some(v) => v,
        None => 0,
    }
}

/// The status record described by a porcelain-v2 report, before diff
/// enrichment and operation scanning.
pub open spec fn git_status_of(lines: Seq<Seq<char>>) -> StatusView {
    StatusView {
        name: VCS::Git,
        symbol: vcs_symbol_spec(VCS::Git),
        branch: match last_header_val(lines, "branch.head"@) {
            Some(b) => b,
            None => "<unknown>"@,
        },
        commit: match last_header_val(lines, "branch.oid"@) {
            Some(c) => c,
            None => "<unknown>"@,
        },
        ahead: match last_ab(lines) {
            Some(l) => abs_of(parsed_or_zero(ab_first(l))),
            None => 0,
        },
        behind: match last_ab(lines) {
            Some(l) => abs_of(parsed_or_zero(ab_second(l))),
            None => 0,
        },
        staged: staged_count(lines),
        changed: changed_count(lines),
        untracked: untracked_count(lines),
        conflicts: conflict_count(lines),
        added: 0,
        deleted: 0,
        operations: Seq::empty(),
    }
}

/// Parse the output string of the porcelain-v2 status command.
pub fn parse_status(status: &str) -> (r: Result<Status, ParseError>)
    requires
        status@.len() < 0x1_0000_0000,
    ensures
        r is Ok <==> git_parse_ok(split_lines(status@)),
        r matches Ok(st) ==> st@ == git_status_of(split_lines(status@)),
        r matches Err(e) ==> e == ParseError::MalformedAheadBehind,
{
    let ghost ls = split_lines(status@);
    let chars = str_to_chars(status);
    let lines = lines_vec(&chars);
    proof {
        lemma_split_lines_count(status@);
    }
    let mut st = Status::new(VCS::Git);
    let n = lines.len();
    let mut i: usize = 0;
    proof {
        assert(ls.take(0) =~~= Seq::<Seq<char>>::empty());
        assert(st.operations.deep_view() =~~= Seq::<Seq<char>>::empty());
    }
    while i < n
        invariant
            i <= n,
            n == ls.len(),
            ls == split_lines(status@),
            ls.len() < 0x1_0000_0000,
            lines.deep_view() == ls,
            git_parse_ok(ls.take(i as int)),
            st@.name == VCS::Git,
            st@.symbol == vcs_symbol_spec(VCS::Git),
            st@.branch == match last_header_val(ls.take(i as int), "branch.head"@) {
                Some(b) => b,
                None => "<unknown>"@,
            },
            st@.commit == match last_header_val(ls.take(i as int), "branch.oid"@) {
                Some(c) => c,
                None => "<unknown>"@,
            },
            st@.ahead == match last_ab(ls.take(i as int)) {
                Some(l) => abs_of(parsed_or_zero(ab_first(l))),
                None => 0nat,
            },
            st@.behind == match last_ab(ls.take(i as int)) {
                Some(l) => abs_of(parsed_or_zero(ab_second(l))),
                None => 0nat,
            },
            st@.staged == staged_count(ls.take(i as int)),
            st@.changed == changed_count(ls.take(i as int)),
            st@.untracked == untracked_count(ls.take(i as int)),
            st@.conflicts == conflict_count(ls.take(i as int)),
            st@.added == 0,
            st@.deleted == 0,
            st@.operations == Seq::<Seq<char>>::empty(),
        decreases n - i,
    {
        let ghost pre = ls.take(i as int);
        let ghost cur = ls[i as int];
        proof {
            assert(ls.take(i + 1 as int).drop_last() =~= pre);
            assert(ls.take(i + 1 as int).last() == cur);
            assert(ls.take(i + 1 as int) =~= pre.push(cur));
            lemma_count_push(pre, |l: Seq<char>| staged_line(l), cur);
            lemma_count_push(pre, |l: Seq<char>| changed_line(l), cur);
            lemma_count_push(pre, |l: Seq<char>| conflict_line(l), cur);
            lemma_count_push(pre, |l: Seq<char>| untracked_line(l), cur);
            lemma_count_le(pre, |l: Seq<char>| staged_line(l));
            lemma_count_le(pre, |l: Seq<char>| changed_line(l));
            lemma_count_le(pre, |l: Seq<char>| conflict_line(l));
            lemma_count_le(pre, |l: Seq<char>| untracked_line(l));
            lemma_last_header_push(pre, "branch.head"@, cur);
            lemma_last_header_push(pre, "branch.oid"@, cur);
            lemma_last_ab_push(pre, cur);
        }
        let toks = split_vec(&lines[i], ' ');
        proof {
            reveal_strlit("#");
            reveal_strlit("1");
            reveal_strlit("2");
            reveal_strlit("u");
            reveal_strlit("?");
            reveal_strlit("branch.head");
            reveal_strlit("branch.oid");
            reveal_strlit("branch.ab");
            assert("#"@.len() == 1 && "#"@[0] == '#');
            assert("1"@.len() == 1 && "1"@[0] == '1');
            assert("2"@.len() == 1 && "2"@[0] == '2');
            assert("u"@.len() == 1 && "u"@[0] == 'u');
            assert("?"@.len() == 1 && "?"@[0] == '?');
            assert("branch.head"@.len() == 11);
            assert("branch.oid"@.len() == 10);
            assert("branch.ab"@.len() == 9);
            assert(lines.deep_view()[i as int] == lines@[i as int].deep_view());
            assert(lines@[i as int].deep_view() =~= lines@[i as int]@);
            assert(toks.deep_view() == line_toks(cur));
            assert(line_toks(cur).len() >= 1);
            assert(toks.deep_view()[0] == toks@[0].deep_view());
            assert(toks@[0].deep_view() =~= toks@[0]@);
            if toks@.len() >= 2 {
                assert(toks.deep_view()[1] == toks@[1].deep_view());
                assert(toks@[1].deep_view() =~= toks@[1]@);
            }
            if toks@.len() >= 3 {
                assert(toks.deep_view()[2] == toks@[2].deep_view());
                assert(toks@[2].deep_view() =~= toks@[2]@);
            }
            if toks@.len() >= 4 {
                assert(toks.deep_view()[3] == toks@[3].deep_view());
                assert(toks@[3].deep_view() =~= toks@[3]@);
            }
        }
        if chars_eq_str(&toks[0], "#") {
            if toks.len() >= 2 {
                if chars_eq_str(&toks[1], "branch.head") {
                    if toks.len() >= 3 {
                        st.branch = chars_to_string(&toks[2]);
                    } else {
                        st.branch = String::from_str("<unknown>");
                    }
                    assert(is_header(cur, "branch.head"@));
                    assert(st@.branch == header_val(cur));
                } else if chars_eq_str(&toks[1], "branch.oid") {
                    if toks.len() >= 3 {
                        st.commit = chars_to_string(&toks[2]);
                    } else {
                        st.commit = String::from_str("<unknown>");
                    }
                    assert(is_header(cur, "branch.oid"@));
                    assert(st@.commit == header_val(cur));
                } else if chars_eq_str(&toks[1], "branch.ab") {
                    assert(is_header(cur, "branch.ab"@));
                    let a_res: Option<u32> = if toks.len() >= 3 {
                        parse_i32_abs(&toks[2])
                    } else {
                        proof {
                            lemma_parse_zero();
                        }
                        Some(0)
                    };
                    let b_res: Option<u32> = if toks.len() >= 4 {
                        parse_i32_abs(&toks[3])
                    } else {
                        proof {
                            lemma_parse_zero();
                        }
                        Some(0)
                    };
                    match (a_res, b_res) {
                        (Some(a), Some(b)) => {
                            st.ahead = a;
                            st.behind = b;
                            assert(ab_ok(cur));
                        },
                        _ => {
                            proof {
                                assert(parse_i32_spec(ab_first(cur)) is None || parse_i32_spec(
                                    ab_second(cur),
                                ) is None);
                                assert(!ab_ok(cur));
                                assert(cur == ls[i as int]);
                                assert(!git_parse_ok(ls)) by {
                                    assert(is_header(ls[i as int], "branch.ab"@));
                                    assert(!ab_ok(ls[i as int]));
                                }
                            }
                            return Err(ParseError::MalformedAheadBehind);
                        },
                    }
                }
            }
            assert(!is_change_line(cur) && !conflict_line(cur) && !untracked_line(cur));
        } else if chars_eq_str(&toks[0], "1") || chars_eq_str(&toks[0], "2") {
            assert(is_change_line(cur));
            if toks.len() >= 2 {
                let xy = &toks[1];
                if !(xy.len() > 0 && xy[0] == '.') {
                    assert(staged_line(cur));
                    st.staged = st.staged + 1;
                } else {
                    assert(!staged_line(cur));
                }
                if !(xy.len() > 0 && xy[xy.len() - 1] == '.') {
                    assert(changed_line(cur));
                    st.changed = st.changed + 1;
                } else {
                    assert(!changed_line(cur));
                }
            }
            assert(!is_header(cur, "branch.head"@) && !is_header(cur, "branch.oid"@) && !is_header(
                cur,
                "branch.ab"@,
            ));
        } else if chars_eq_str(&toks[0], "u") {
            assert(conflict_line(cur));
            st.conflicts = st.conflicts + 1;
        } else if chars_eq_str(&toks[0], "?") {
            assert(untracked_line(cur));
            st.untracked = st.untracked + 1;
        } else {
            assert(!is_change_line(cur) && !conflict_line(cur) && !untracked_line(cur));
            assert(!is_header(cur, "branch.head"@) && !is_header(cur, "branch.oid"@) && !is_header(
                cur,
                "branch.ab"@,
            ));
        }
        i = i + 1;
    }
    proof {
        assert(ls.take(n as int) =~= ls);
    }
    Ok(st)
}

/// The number of lines added that one diff-statistics line reports,
/// zero where the field is missing or malformed.
pub open spec fn line_added(line: Seq<char>) -> nat {
    match parse_u32_spec(tok_or(split_ws(line), 0, Seq::empty())) {
        Some(v) => v as nat,
        None => 0,
    }
}

/// The number of lines deleted that one diff-statistics line reports.
pub open spec fn line_deleted(line: Seq<char>) -> nat {
    match parse_u32_spec(tok_or(split_ws(line), 1, Seq::empty())) {
        Some(v) => v as nat,
        None => 0,
    }
}

/// Addition held at the counter's ceiling.
pub open spec fn sat_add32(a: nat, b: nat) -> nat {
    if a + b > 0xffff_ffff {
        0xffff_ffff
    } else {
        a + b
    }
}

/// The accumulated added-lines total of a diff report.
pub open spec fn diff_added_total(lines: Seq<Seq<char>>, init: nat) -> nat
    decreases lines.len(),
{
    if lines.len() == 0 {
        init
    } else {
        sat_add32(diff_added_total(lines.drop_last(), init), line_added(lines.last()))
    }
}

/// The accumulated deleted-lines total of a diff report.
pub open spec fn diff_deleted_total(lines: Seq<Seq<char>>, init: nat) -> nat
    decreases lines.len(),
{
    if lines.len() == 0 {
        init
    } else {
        sat_add32(diff_deleted_total(lines.drop_last(), init), line_deleted(lines.last()))
    }
}

fn sat_add_u32(a: u32, b: u32) -> (r: u32)
    ensures
        r as nat == sat_add32(a as nat, b as nat),
{
    if a as u64 + b as u64 > 0xffff_ffff {
        0xffff_ffff
    } else {
        a + b
    }
}

/// Accumulate the insertion and deletion counts of a diff-statistics
/// report onto a status record.
pub fn parse_diff(diff: &str, status: &mut Status)
    ensures
        final(status)@ == (StatusView {
            added: diff_added_total(split_lines(diff@), old(status)@.added),
            deleted: diff_deleted_total(split_lines(diff@), old(status)@.deleted),
            ..old(status)@
        }),
{
    let ghost ls = split_lines(diff@);
    let chars = str_to_chars(diff);
    let lines = lines_vec(&chars);
    let n = lines.len();
    let mut i: usize = 0;
    proof {
        assert(ls.take(0) =~~= Seq::<Seq<char>>::empty());
    }
    while i < n
        invariant
            i <= n,
            n == ls.len(),
            lines.deep_view() == ls,
            status@.added == diff_added_total(ls.take(i as int), old(status)@.added),
            status@.deleted == diff_deleted_total(ls.take(i as int), old(status)@.deleted),
            status@ == (StatusView {
                added: status@.added,
                deleted: status@.deleted,
                ..old(status)@
            }),
        decreases n - i,
    {
        let ghost pre = ls.take(i as int);
        let ghost cur = ls[i as int];
        proof {
            assert(ls.take(i + 1 as int).drop_last() =~= pre);
            assert(ls.take(i + 1 as int).last() == cur);
            assert(lines.deep_view()[i as int] == lines@[i as int].deep_view());
        }
        let words = split_ws_vec(&lines[i]);
        proof {
            assert(lines@[i as int].deep_view() =~= lines@[i as int]@);
            assert(words.deep_view() == split_ws(cur));
            if words@.len() >= 1 {
                assert(words.deep_view()[0] == words@[0].deep_view());
                assert(words@[0].deep_view() =~= words@[0]@);
            }
            if words@.len() >= 2 {
                assert(words.deep_view()[1] == words@[1].deep_view());
                assert(words@[1].deep_view() =~= words@[1]@);
            }
        }
        let a: u32 = if words.len() >= 1 {
            match parse_u32_vec(&words[0]) {
                Some(v) => v,
                None => 0,
            }
        } else {
            proof {
                assert(parse_u32_spec(Seq::<char>::empty()) is None);
            }
            0
        };
        let d: u32 = if words.len() >= 2 {
            match parse_u32_vec(&words[1]) {
                Some(v) => v,
                None => 0,
            }
        } else {
            proof {
                assert(parse_u32_spec(Seq::<char>::empty()) is None);
            }
            0
        };
        assert(a as nat == line_added(cur));
        assert(d as nat == line_deleted(cur));
        status.added = sat_add_u32(status.added, a);
        status.deleted = sat_add_u32(status.deleted, d);
        i = i + 1;
    }
    proof {
        assert(ls.take(n as int) =~= ls);
    }
}

/// The status record described by one porcelain report, one diff report
/// and the marker files found in the metadata directory.
pub open spec fn git_status_full(
    st_text: Seq<char>,
    diff_text: Seq<char>,
    f: MarkerFlags,
) -> StatusView {
    let base = git_status_of(split_lines(st_text));
    StatusView {
        added: diff_added_total(split_lines(diff_text), 0),
        deleted: diff_deleted_total(split_lines(diff_text), 0),
        operations: operations_spec(f),
        ..base
    }
}

/// Assemble the full status for the snapshot-system backend from the
/// captured command outputs and marker-file observations.
pub fn status(status_text: &str, diff_text: &str, markers: &MarkerFlags) -> (r: Result<
    Status,
    ParseError,
>)
    requires
        status_text@.len() < 0x1_0000_0000,
    ensures
        r is Ok <==> git_parse_ok(split_lines(status_text@)),
        r matches Ok(st) ==> st@ == git_status_full(status_text@, diff_text@, *markers),
        r matches Err(e) ==> e == ParseError::MalformedAheadBehind,
{
    let mut result = match parse_status(status_text) {
        Ok(st) => st,
        Err(e) => {
            return Err(e);
        },
    };
    parse_diff(diff_text, &mut result);
    get_operations(&mut result.operations, markers);
    assert(result@ == git_status_full(status_text@, diff_text@, *markers));
    Ok(result)
}

} // verus!
