//! The backend-abstraction boundary: which backend owns a repository,
//! where its marker path lies, and the dispatch from one captured backend
//! report to the matching parser.
use vstd::prelude::*;

use crate::git;
use crate::git::{git_parse_ok, git_status_full, MarkerFlags};
use crate::hg;
use crate::hg::hg_status_full;
use crate::status::{ParseError, Status, StatusView, VCS};
use crate::text::{split_lines, str_eq};

verus! {

/// One detection candidate: a backend and the marker path, relative to a
/// candidate root, whose existence proves that the backend owns it.
#[derive(Clone, Debug)]
pub struct VCContext {
    pub system: VCS,
    pub rootdir: String,
}

impl PartialEq for VCContext {
    fn eq(&self, other: &VCContext) -> (r: bool) {
        self.system == other.system && str_eq(self.rootdir.as_str(), other.rootdir.as_str())
    }
}

impl vstd::std_specs::cmp::PartialEqSpecImpl for VCContext {
    open spec fn obeys_eq_spec() -> bool {
        true
    }

    open spec fn eq_spec(&self, other: &VCContext) -> bool {
        self.system == other.system && self.rootdir@ == other.rootdir@
    }
}

/// Everything the library needs to know about one repository inspection,
/// captured by the caller: the status command's output and, per backend,
/// the diff output and marker files, or the metadata file contents.
pub enum BackendReport {
    Git { status_text: String, diff_text: String, markers: MarkerFlags },
    Hg { status_text: String, branch_file: Option<String>, bookmark_file: Option<String> },
}

/// The view of an optional file's contents.
pub open spec fn opt_text(o: Option<String>) -> Option<Seq<char>> {
    match o {
        Some(s) => Some(s@),
        None => None,
    }
}

/// Whether a report was captured for the given backend.
pub open spec fn report_matches(sys: VCS, r: BackendReport) -> bool {
    match r {
        BackendReport::Git { .. } => sys == VCS::Git,
        BackendReport::Hg { .. } => sys == VCS::Hg,
    }
}

/// The machine bound under which the report's counters cannot overflow.
pub open spec fn report_len_ok(r: BackendReport) -> bool {
    match r {
        BackendReport::Git { status_text, .. } => status_text@.len() < 0x1_0000_0000,
        BackendReport::Hg { status_text, .. } => status_text@.len() < 0x1_0000_0000,
    }
}

/// Whether the report parses without a hard error.
pub open spec fn report_ok(r: BackendReport) -> bool {
    match r {
        BackendReport::Git { status_text, .. } => git_parse_ok(split_lines(status_text@)),
        BackendReport::Hg { .. } => true,
    }
}

/// The status record a report describes.
pub open spec fn report_status(r: BackendReport) -> StatusView {
    match r {
        BackendReport::Git { status_text, diff_text, markers } => git_status_full(
            status_text@,
            diff_text@,
            markers,
        ),
        BackendReport::Hg { status_text, branch_file, bookmark_file } => hg_status_full(
            status_text@,
            opt_text(branch_file),
            opt_text(bookmark_file),
        ),
    }
}

impl VCContext {
    /// The fixed list of detection candidates, the snapshot system first:
    /// at any one directory the earlier entry wins.
    pub fn defaults() -> (r: [VCContext; 2])
        ensures
            r@[0].system == VCS::Git,
            r@[0].rootdir@ == ".git/HEAD"@,
            r@[1].system == VCS::Hg,
            r@[1].rootdir@ == ".hg/00changelog.i"@,
    {
        let arr: [VCContext; 2] = [
            VCContext { system: VCS::Git, rootdir: String::from_str(".git/HEAD") },
            VCContext { system: VCS::Hg, rootdir: String::from_str(".hg/00changelog.i") },
        ];
        arr
    }

    /// Create new instance of VCContext.
    pub fn new(vcs: VCS, rootdir: String) -> (r: Self)
        ensures
            r.system == vcs,
            r.rootdir == rootdir,
    {
        Self { system: vcs, rootdir }
    }

    /// Hand the matching backend's report to its parser and return the
    /// normalized status record.
    pub fn get_status(self, report: &BackendReport) -> (r: Result<Status, ParseError>)
        requires
            report_matches(self.system, *report),
            report_len_ok(*report),
        ensures
            r is Ok <==> report_ok(*report),
            r matches Ok(st) ==> st@ == report_status(*report),
            r matches Err(e) ==> e == ParseError::MalformedAheadBehind,
    {
        match report {
            BackendReport::Git { status_text, diff_text, markers } => git::status(
                status_text.as_str(),
                diff_text.as_str(),
                markers,
            ),
            BackendReport::Hg { status_text, branch_file, bookmark_file } => {
                let b: Option<&str> = match branch_file {
                    Some(s) => Some(s.as_str()),
                    None => None,
                };
                let k: Option<&str> = match bookmark_file {
                    Some(s) => Some(s.as_str()),
                    None => None,
                };
                hg::status(status_text.as_str(), b, k)
            },
        }
    }
}

} // verus!
