//! The normalized status record that one repository inspection produces,
//! together with the backend identifier it carries.
use vstd::prelude::*;

use crate::text::{chars_to_string, dec_rep, str_eq, str_to_chars, u32_to_chars};

verus! {

/// Supported version control systems.
#[derive(Clone, Copy, Debug, PartialEq, Eq, Structural)]
pub enum VCS {
    Git,
    Hg,
}

/// The display name of a backend.
pub open spec fn vcs_name_spec(v: VCS) -> Seq<char> {
    match v {
        VCS::Git => "git"@,
        VCS::Hg => "hg"@,
    }
}

/// The default display symbol of a backend.
pub open spec fn vcs_symbol_spec(v: VCS) -> Seq<char> {
    match v {
        VCS::Git => "\u{00b1}"@,
        VCS::Hg => "\u{263f}"@,
    }
}

impl VCS {
    /// The display name of the backend.
    pub fn name(&self) -> (r: String)
        ensures
            r@ == vcs_name_spec(*self),
    {
        match self {
            VCS::Git => String::from_str("git"),
            VCS::Hg => String::from_str("hg"),
        }
    }

    /// The default display symbol of the backend.
    pub fn default_symbol(&self) -> (r: String)
        ensures
            r@ == vcs_symbol_spec(*self),
    {
        match self {
            VCS::Git => String::from_str("\u{00b1}"),
            VCS::Hg => String::from_str("\u{263f}"),
        }
    }
}

/// A hard error raised while parsing a backend's status report: the
/// ahead/behind header field was present but its counts were not numeric.
#[derive(Clone, Copy, Debug, PartialEq, Eq, Structural)]
pub enum ParseError {
    MalformedAheadBehind,
}

impl ParseError {
    /// A human-readable description of the error.
    pub fn message(&self) -> (r: String)
        ensures
            r@ == "Failed to parse"@,
    {
        String::from_str("Failed to parse")
    }
}

/// The mathematical model of a status record.
pub ghost struct StatusView {
    pub name: VCS,
    pub symbol: Seq<char>,
    pub branch: Seq<char>,
    pub commit: Seq<char>,
    pub ahead: nat,
    pub behind: nat,
    pub staged: nat,
    pub changed: nat,
    pub untracked: nat,
    pub conflicts: nat,
    pub added: nat,
    pub deleted: nat,
    pub operations: Seq<Seq<char>>,
}

/// The current VC status.
#[derive(Debug)]
pub struct Status {
    /// Version control system
    pub name: VCS,
    /// VCS symbol
    pub symbol: String,
    /// The branch name
    pub branch: String,
    /// Commit hash
    pub commit: String,
    /// Number of revisions we are ahead of upstream
    pub ahead: u32,
    /// Number of revisions we are behind upstream
    pub behind: u32,
    /// Number of staged files
    pub staged: u32,
    /// Number of modified/added/removed files
    pub changed: u32,
    /// Number of untracked files
    pub untracked: u32,
    /// Number of conflicts
    pub conflicts: u32,
    /// Number of added lines
    pub added: u32,
    /// Number of deleted lines
    pub deleted: u32,
    /// Ongoing operations (e.g., merging)
    pub operations: Vec<String>,
}

impl View for Status {
    type V = StatusView;

    open spec fn view(&self) -> StatusView {
        StatusView {
            name: self.name,
            symbol: self.symbol@,
            branch: self.branch@,
            commit: self.commit@,
            ahead: self.ahead as nat,
            behind: self.behind as nat,
            staged: self.staged as nat,
            changed: self.changed as nat,
            untracked: self.untracked as nat,
            conflicts: self.conflicts as nat,
            added: self.added as nat,
            deleted: self.deleted as nat,
            operations: self.operations.deep_view(),
        }
    }
}

/// Field-wise equality of two status models.
pub open spec fn status_view_eq(a: StatusView, b: StatusView) -> bool {
    &&& a.name == b.name
    &&& a.symbol == b.symbol
    &&& a.branch == b.branch
    &&& a.commit == b.commit
    &&& a.ahead == b.ahead
    &&& a.behind == b.behind
    &&& a.staged == b.staged
    &&& a.changed == b.changed
    &&& a.untracked == b.untracked
    &&& a.conflicts == b.conflicts
    &&& a.added == b.added
    &&& a.deleted == b.deleted
    &&& a.operations == b.operations
}

/// The zero-value record for a backend: every count zero, no operations,
/// branch and commit still undetermined.
pub open spec fn zero_status(vcs: VCS) -> StatusView {
    StatusView {
        name: vcs,
        symbol: vcs_symbol_spec(vcs),
        branch: "<unknown>"@,
        commit: "<unknown>"@,
        ahead: 0,
        behind: 0,
        staged: 0,
        changed: 0,
        untracked: 0,
        conflicts: 0,
        added: 0,
        deleted: 0,
        operations: Seq::empty(),
    }
}

/// A record is clean exactly when all four working-state counters are zero;
/// ahead/behind and operations play no part.
pub open spec fn is_clean_spec(v: StatusView) -> bool {
    v.staged == 0 && v.conflicts == 0 && v.changed == 0 && v.untracked == 0
}

/// The commit identifier as displayed: truncated to at most `len`
/// characters, except that the literal sentinel `"(initial)"` is kept whole.
pub open spec fn fmt_commit_spec(commit: Seq<char>, len: nat) -> Seq<char> {
    if commit == "(initial)"@ {
        commit
    } else if len <= commit.len() {
        commit.take(len as int)
    } else {
        commit
    }
}

/// The diff summary: nothing unless files changed; otherwise `+a`,
/// extended to `+a/-d` when lines were deleted, and empty when no lines
/// were added.
pub open spec fn fmt_diff_spec(v: StatusView) -> Option<Seq<char>> {
    if v.changed == 0 {
        None
    } else if v.added > 0 {
        if v.deleted > 0 {
            Some(seq!['+'] + dec_rep(v.added) + seq!['/', '-'] + dec_rep(v.deleted))
        } else {
            Some(seq!['+'] + dec_rep(v.added))
        }
    } else {
        Some(Seq::empty())
    }
}

fn string_vecs_eq(a: &Vec<String>, b: &Vec<String>) -> (r: bool)
    ensures
        r == (a.deep_view() == b.deep_view()),
{
    if a.len() != b.len() {
        assert(a.deep_view().len() == a@.len());
        assert(b.deep_view().len() == b@.len());
        return false;
    }
    let n = a.len();
    let mut i: usize = 0;
    while i < n
        invariant
            i <= n,
            n == a@.len(),
            n == b@.len(),
            a.deep_view().len() == n,
            b.deep_view().len() == n,
            forall|j: int| 0 <= j < i ==> a.deep_view()[j] == b.deep_view()[j],
        decreases n - i,
    {
        if !str_eq(a[i].as_str(), b[i].as_str()) {
            assert(a.deep_view()[i as int] != b.deep_view()[i as int]);
            return false;
        }
        assert(a.deep_view()[i as int] == b.deep_view()[i as int]);
        i = i + 1;
    }
    assert(a.deep_view() =~= b.deep_view());
    true
}

impl PartialEq for Status {
    fn eq(&self, other: &Status) -> (r: bool) {
        self.name == other.name && str_eq(self.symbol.as_str(), other.symbol.as_str())
            && str_eq(self.branch.as_str(), other.branch.as_str())
            && str_eq(self.commit.as_str(), other.commit.as_str()) && self.ahead == other.ahead
            && self.behind == other.behind && self.staged == other.staged
            && self.changed == other.changed && self.untracked == other.untracked
            && self.conflicts == other.conflicts && self.added == other.added
            && self.deleted == other.deleted && string_vecs_eq(
            &self.operations,
            &other.operations,
        )
    }
}

impl vstd::std_specs::cmp::PartialEqSpecImpl for Status {
    open spec fn obeys_eq_spec() -> bool {
        true
    }

    open spec fn eq_spec(&self, other: &Status) -> bool {
        status_view_eq(self@, other@)
    }
}

impl Status {
    /// Create a new instance with all values set to default.
    pub fn new(vcs: VCS) -> (r: Status)
        ensures
            r@ == zero_status(vcs),
    {
        let r = Status {
            name: vcs,
            symbol: vcs.default_symbol(),
            branch: String::from_str("<unknown>"),
            commit: String::from_str("<unknown>"),
            ahead: 0,
            behind: 0,
            staged: 0,
            changed: 0,
            untracked: 0,
            conflicts: 0,
            added: 0,
            deleted: 0,
            operations: Vec::new(),
        };
        assert(r.operations.deep_view() =~= Seq::<Seq<char>>::empty());
        assert(r@ == zero_status(vcs));
        r
    }

    /// Returns true if repo has no changes.
    pub fn is_clean(&self) -> (r: bool)
        ensures
            r == is_clean_spec(self@),
    {
        self.staged == 0 && self.conflicts == 0 && self.changed == 0 && self.untracked == 0
    }

    /// Format commit hash.
    pub fn fmt_commit(&self, len: usize) -> (r: String)
        ensures
            r@ == fmt_commit_spec(self@.commit, len as nat),
    {
        if !str_eq(self.commit.as_str(), "(initial)") {
            let chars = str_to_chars(self.commit.as_str());
            let mut cut: Vec<char> = Vec::new();
            let end = if len <= chars.len() {
                len
            } else {
                chars.len()
            };
            let mut i: usize = 0;
            while i < end
                invariant
                    i <= end,
                    end <= chars@.len(),
                    cut@ == chars@.subrange(0, i as int),
                decreases end - i,
            {
                cut.push(chars[i]);
                i = i + 1;
                assert(cut@ =~= chars@.subrange(0, i as int));
            }
            assert(cut@ =~= fmt_commit_spec(self@.commit, len as nat));
            chars_to_string(&cut)
        } else {
            let chars = str_to_chars(self.commit.as_str());
            chars_to_string(&chars)
        }
    }

    /// Format diff numstat.
    pub fn fmt_diff(&self) -> (r: Option<String>)
        ensures
            match r {
                Some(s) => fmt_diff_spec(self@) == Some(s@),
                None => fmt_diff_spec(self@) == None::<Seq<char>>,
            },
    {
        if self.changed == 0 {
            return None;
        }
        let mut out: Vec<char> = Vec::new();
        if self.added > 0 {
            out.push('+');
            let mut a = u32_to_chars(self.added);
            out.append(&mut a);
            if self.deleted > 0 {
                out.push('/');
                out.push('-');
                let mut d = u32_to_chars(self.deleted);
                out.append(&mut d);
                assert(out@ =~= seq!['+'] + dec_rep(self@.added) + seq!['/', '-'] + dec_rep(
                    self@.deleted,
                ));
            } else {
                assert(out@ =~= seq!['+'] + dec_rep(self@.added));
            }
        } else {
            assert(out@ =~= Seq::<char>::empty());
        }
        Some(chars_to_string(&out))
    }
}

} // verus!
