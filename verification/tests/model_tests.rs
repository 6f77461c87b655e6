use vcprompt::cli::Opt;
use vcprompt::git::MarkerFlags;
use vcprompt::status::{Status, VCS};
use vcprompt::util::CommandOutput;
use vcprompt::vcs::{BackendReport, VCContext};

#[test]
fn new_record_is_zero_valued() {
    let st = Status::new(VCS::Git);
    assert_eq!(st.branch, "<unknown>");
    assert_eq!(st.commit, "<unknown>");
    assert_eq!(st.ahead, 0);
    assert_eq!(st.behind, 0);
    assert_eq!(st.staged, 0);
    assert_eq!(st.changed, 0);
    assert_eq!(st.untracked, 0);
    assert_eq!(st.conflicts, 0);
    assert_eq!(st.added, 0);
    assert_eq!(st.deleted, 0);
    assert!(st.operations.is_empty());
    assert!(st.is_clean());
}

#[test]
fn cleanliness_iff_working_state_counters_zero() {
    for field in 0..4 {
        let mut st = Status::new(VCS::Git);
        match field {
            0 => st.staged = 1,
            1 => st.changed = 1,
            2 => st.untracked = 1,
            _ => st.conflicts = 1,
        }
        assert!(!st.is_clean());
    }
    let mut st = Status::new(VCS::Hg);
    st.ahead = 5;
    st.behind = 7;
    st.operations = vec!["MERGING".to_string()];
    assert!(st.is_clean());
}

#[test]
fn commit_formatting_truncates_but_keeps_initial() {
    let mut st = Status::new(VCS::Git);
    st.commit = "dc716b061d9a0bc6a59f4e02d72b9952cce28927".to_string();
    assert_eq!(st.fmt_commit(7), "dc716b0");
    st.commit = "(initial)".to_string();
    assert_eq!(st.fmt_commit(7), "(initial)");
    st.commit = "abc".to_string();
    assert_eq!(st.fmt_commit(7), "abc");
}

#[test]
fn diff_summary_formatting() {
    let mut st = Status::new(VCS::Git);
    assert_eq!(st.fmt_diff(), None);
    st.changed = 1;
    st.added = 3;
    st.deleted = 2;
    assert_eq!(st.fmt_diff(), Some("+3/-2".to_string()));
    st.deleted = 0;
    assert_eq!(st.fmt_diff(), Some("+3".to_string()));
    st.added = 0;
    assert_eq!(st.fmt_diff(), Some(String::new()));
}

#[test]
fn detection_candidates_snapshot_system_first() {
    let defs = VCContext::defaults();
    assert_eq!(defs[0].system, VCS::Git);
    assert_eq!(defs[0].rootdir, ".git/HEAD");
    assert_eq!(defs[1].system, VCS::Hg);
    assert_eq!(defs[1].rootdir, ".hg/00changelog.i");
    let ctx = VCContext::new(VCS::Git, "/repo".to_string());
    assert_eq!(ctx, VCContext::new(VCS::Git, "/repo".to_string()));
}

#[test]
fn dispatch_routes_to_matching_backend() {
    let git_ctx = VCContext::new(VCS::Git, "/repo".to_string());
    let report = BackendReport::Git {
        status_text: "? new.txt\n".to_string(),
        diff_text: String::new(),
        markers: MarkerFlags {
            rebase_merge: false,
            rebase_apply: false,
            merge_head: true,
            cherry_pick_head: false,
            revert_head: false,
            bisect_log: false,
        },
    };
    let st = git_ctx.get_status(&report).unwrap();
    assert_eq!(st.name, VCS::Git);
    assert_eq!(st.untracked, 1);
    assert_eq!(st.operations, vec!["MERGING"]);

    let hg_ctx = VCContext::new(VCS::Hg, "/repo".to_string());
    let report = BackendReport::Hg {
        status_text: "A a.txt\n".to_string(),
        branch_file: None,
        bookmark_file: None,
    };
    let st = hg_ctx.get_status(&report).unwrap();
    assert_eq!(st.name, VCS::Hg);
    assert_eq!(st.staged, 1);
    assert_eq!(st.branch, "default");
}

#[test]
fn command_output_compares_by_both_streams() {
    let a = CommandOutput { stdout: "out".to_string(), stderr: "err".to_string() };
    let b = CommandOutput { stdout: "out".to_string(), stderr: "err".to_string() };
    let c = CommandOutput { stdout: "out".to_string(), stderr: String::new() };
    assert!(a == b);
    assert!(a != c);
}

#[test]
fn options_carry_resolved_settings() {
    let opt = Opt {
        verbose: 2,
        minimal: true,
        prefix: " ".to_string(),
        name: "{symbol}".to_string(),
        branch: "{blue}{value}{reset}".to_string(),
        operation: "{red}{value}{reset}".to_string(),
    };
    assert!(opt.minimal);
    assert_eq!(opt.verbose, 2);
    assert_eq!(opt.name, "{symbol}");
}
