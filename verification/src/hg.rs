//! The status parser for the changeset-system backend, together with the
//! branch and bookmark readers that interpret its metadata files.
use vstd::prelude::*;

use crate::status::{ParseError, Status, StatusView, VCS};
use crate::text::{
    chars_eq_str, chars_to_string, count_lines, lemma_count_le, lemma_count_push,
    lemma_split_lines_count, lines_vec, split_at_sep, split_lines, split_vec, str_to_chars,
    trim_spec, trim_vec,
};

verus! {

/// The leading single-letter code of a status line.
pub open spec fn hg_code(line: Seq<char>) -> Seq<char> {
    split_at_sep(line, ' ')[0]
}

/// A line counted towards `staged`: this backend does not distinguish
/// index from worktree state, so modified, added, removed and missing
/// all collapse into the one counter.
pub open spec fn hg_staged_line(line: Seq<char>) -> bool {
    hg_code(line) == "M"@ || hg_code(line) == "A"@ || hg_code(line) == "R"@ || hg_code(line)
        == "!"@
}

/// An untracked-file line.
pub open spec fn hg_untracked_line(line: Seq<char>) -> bool {
    hg_code(line) == "?"@
}

/// The number of staged files a report announces.
pub open spec fn hg_staged_count(lines: Seq<Seq<char>>) -> nat {
    count_lines(lines, |l: Seq<char>| hg_staged_line(l))
}

/// The number of untracked files a report announces.
pub open spec fn hg_untracked_count(lines: Seq<Seq<char>>) -> nat {
    count_lines(lines, |l: Seq<char>| hg_untracked_line(l))
}

/// The status record described by one status report, before the branch
/// name is filled in.
pub open spec fn hg_status_of(lines: Seq<Seq<char>>) -> StatusView {
    StatusView {
        staged: hg_staged_count(lines),
        untracked: hg_untracked_count(lines),
        ..crate::status::zero_status(VCS::Hg)
    }
}

/// Parse the output string of the status command.
pub fn parse_status(status: &str) -> (r: Status)
    requires
        status@.len() < 0x1_0000_0000,
    ensures
        r@ == hg_status_of(split_lines(status@)),
{
    let ghost ls = split_lines(status@);
    let chars = str_to_chars(status);
    let lines = lines_vec(&chars);
    proof {
        lemma_split_lines_count(status@);
    }
    let mut st = Status::new(VCS::Hg);
    let n = lines.len();
    let mut i: usize = 0;
    proof {
        assert(ls.take(0) =~~= Seq::<Seq<char>>::empty());
        assert(st.operations.deep_view() =~~= Seq::<Seq<char>>::empty());
    }
    while i < n
        invariant
            i <= n,
            n == ls.len(),
            ls.len() < 0x1_0000_0000,
            lines.deep_view() == ls,
            st@ == (StatusView {
                staged: hg_staged_count(ls.take(i as int)),
                untracked: hg_untracked_count(ls.take(i as int)),
                ..crate::status::zero_status(VCS::Hg)
            }),
        decreases n - i,
    {
        let ghost pre = ls.take(i as int);
        let ghost cur = ls[i as int];
        proof {
            assert(ls.take(i + 1 as int).drop_last() =~= pre);
            assert(ls.take(i + 1 as int).last() == cur);
            assert(ls.take(i + 1 as int) =~= pre.push(cur));
            lemma_count_push(pre, |l: Seq<char>| hg_staged_line(l), cur);
            lemma_count_push(pre, |l: Seq<char>| hg_untracked_line(l), cur);
            lemma_count_le(pre, |l: Seq<char>| hg_staged_line(l));
            lemma_count_le(pre, |l: Seq<char>| hg_untracked_line(l));
        }
        let toks = split_vec(&lines[i], ' ');
        proof {
            reveal_strlit("M");
            reveal_strlit("A");
            reveal_strlit("R");
            reveal_strlit("!");
            reveal_strlit("?");
            assert("M"@.len() == 1 && "M"@[0] == 'M');
            assert("A"@.len() == 1 && "A"@[0] == 'A');
            assert("R"@.len() == 1 && "R"@[0] == 'R');
            assert("!"@.len() == 1 && "!"@[0] == '!');
            assert("?"@.len() == 1 && "?"@[0] == '?');
            assert(lines.deep_view()[i as int] == lines@[i as int].deep_view());
            assert(lines@[i as int].deep_view() =~= lines@[i as int]@);
            assert(toks.deep_view() == split_at_sep(cur, ' '));
            assert(split_at_sep(cur, ' ').len() >= 1);
            assert(toks.deep_view()[0] == toks@[0].deep_view());
            assert(toks@[0].deep_view() =~= toks@[0]@);
        }
        if chars_eq_str(&toks[0], "M") || chars_eq_str(&toks[0], "A") || chars_eq_str(&toks[0], "R")
            || chars_eq_str(&toks[0], "!") {
            assert(hg_staged_line(cur) && !hg_untracked_line(cur));
            st.staged = st.staged + 1;
        } else if chars_eq_str(&toks[0], "?") {
            assert(hg_untracked_line(cur) && !hg_staged_line(cur));
            st.untracked = st.untracked + 1;
        } else {
            assert(!hg_staged_line(cur) && !hg_untracked_line(cur));
        }
        i = i + 1;
    }
    proof {
        assert(ls.take(n as int) =~= ls);
    }
    st
}

/// The branch name read from the metadata file: its trimmed contents,
/// or `"default"` where the file was absent.
pub open spec fn branch_of(contents: Option<Seq<char>>) -> Seq<char> {
    match contents {
        Some(c) => trim_spec(c),
        None => "default"@,
    }
}

/// The bookmark suffix: a `'*'` followed by the trimmed contents of the
/// bookmark marker file, or nothing where the file was absent.
pub open spec fn bookmark_of(contents: Option<Seq<char>>) -> Seq<char> {
    match contents {
        Some(c) => seq!['*'] + trim_spec(c),
        None => Seq::empty(),
    }
}

/// Return the current branch, given the contents of the branch metadata
/// file where it exists.
pub fn get_branch(contents: Option<&str>) -> (r: String)
    ensures
        r@ == branch_of(match contents {
            Some(c) => Some(c@),
            None => None,
        }),
{
    match contents {
        Some(c) => {
            let chars = str_to_chars(c);
            let trimmed = trim_vec(&chars);
            chars_to_string(&trimmed)
        },
        None => String::from_str("default"),
    }
}

/// Return the current bookmark marker, given the contents of the bookmark
/// file where it exists, or an empty string.
pub fn get_bookmark(contents: Option<&str>) -> (r: String)
    ensures
        r@ == bookmark_of(match contents {
            Some(c) => Some(c@),
            None => None,
        }),
{
    match contents {
        Some(c) => {
            let chars = str_to_chars(c);
            let trimmed = trim_vec(&chars);
            let mut out: Vec<char> = Vec::new();
            out.push('*');
            let mut i: usize = 0;
            while i < trimmed.len()
                invariant
                    i <= trimmed@.len(),
                    out@ == seq!['*'] + trimmed@.subrange(0, i as int),
                decreases trimmed@.len() - i,
            {
                out.push(trimmed[i]);
                i = i + 1;
                assert(out@ =~= seq!['*'] + trimmed@.subrange(0, i as int));
            }
            assert(out@ =~= seq!['*'] + trimmed@);
            chars_to_string(&out)
        },
        None => {
            let r = String::new();
            assert(r@ =~= Seq::<char>::empty());
            r
        },
    }
}

/// The full status for the changeset-system backend: the parsed report
/// with the branch name and bookmark filled in from the metadata files.
pub open spec fn hg_status_full(
    st_text: Seq<char>,
    branch_file: Option<Seq<char>>,
    bookmark_file: Option<Seq<char>>,
) -> StatusView {
    StatusView {
        branch: branch_of(branch_file) + bookmark_of(bookmark_file),
        ..hg_status_of(split_lines(st_text))
    }
}

/// Assemble the full status for the changeset-system backend from the
/// captured command output and the metadata file contents.
pub fn status(status_text: &str, branch_file: Option<&str>, bookmark_file: Option<&str>) -> (r:
    Result<Status, ParseError>)
    requires
        status_text@.len() < 0x1_0000_0000,
    ensures
        r matches Ok(st) && st@ == hg_status_full(
            status_text@,
            match branch_file {
                Some(c) => Some(c@),
                None => None,
            },
            match bookmark_file {
                Some(c) => Some(c@),
                None => None,
            },
        ),
{
    let mut st = parse_status(status_text);
    let branch = get_branch(branch_file);
    let bookmark = get_bookmark(bookmark_file);
    let bchars = str_to_chars(branch.as_str());
    let mut combined = bchars;
    let mut kchars = str_to_chars(bookmark.as_str());
    combined.append(&mut kchars);
    assert(combined@ == branch@ + bookmark@);
    st.branch = chars_to_string(&combined);
    Ok(st)
}

} // verus!
