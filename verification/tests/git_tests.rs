use vcprompt::git::{operation_marker_files, parse_status, status, MarkerFlags};
use vcprompt::status::{ParseError, Status, VCS};

fn no_markers() -> MarkerFlags {
    MarkerFlags {
        rebase_merge: false,
        rebase_apply: false,
        merge_head: false,
        cherry_pick_head: false,
        revert_head: false,
        bisect_log: false,
    }
}

#[test]
fn git_parse_status_full() {
    let output = "
# branch.oid dc716b061d9a0bc6a59f4e02d72b9952cce28927
# branch.head master
# branch.upstream origin/master
# branch.ab +1 -2
1 .M <sub> <mH> <mI> <mW> <hH> <hI> modified.txt
1 .D <sub> <mH> <mI> <mW> <hH> <hI> deleted.txt
1 M. <sub> <mH> <mI> <mW> <hH> <hI> staged.txt
1 MM <sub> <mH> <mI> <mW> <hH> <hI> staged_modified.txt
1 MD <sub> <mH> <mI> <mW> <hH> <hI> staged_deleted.txt
1 A. <sub> <mH> <mI> <mW> <hH> <hI> added.txt
1 AM <sub> <mH> <mI> <mW> <hH> <hI> added_modified.txt
1 AD <sub> <mH> <mI> <mW> <hH> <hI> added_deleted.txt
1 D. <sub> <mH> <mI> <mW> <hH> <hI> deleted.txt
1 DM <sub> <mH> <mI> <mW> <hH> <hI> deleted_modified.txt
2 R. <sub> <mH> <mI> <mW> <hH> <hI> <X><score> <path><sep><origPath>
2 RM <sub> <mH> <mI> <mW> <hH> <hI> <X><score> <path><sep><origPath>
2 RD <sub> <mH> <mI> <mW> <hH> <hI> <X><score> <path><sep><origPath>
2 C. <sub> <mH> <mI> <mW> <hH> <hI> <X><score> <path><sep><origPath>
2 CM <sub> <mH> <mI> <mW> <hH> <hI> <X><score> <path><sep><origPath>
2 CD <sub> <mH> <mI> <mW> <hH> <hI> <X><score> <path><sep><origPath>
u UU <sub> <m1> <m2> <m3> <mW> <h1> <h2> <h3> <path>
? untracked.txt
! ignored.txt
";
    let mut expected = Status::new(VCS::Git);
    expected.branch = "master".to_owned();
    expected.commit = "dc716b061d9a0bc6a59f4e02d72b9952cce28927".to_owned();
    expected.ahead = 1;
    expected.behind = 2;
    expected.staged = 14;
    expected.changed = 11;
    expected.untracked = 1;
    expected.conflicts = 1;
    assert_eq!(parse_status(output).unwrap(), expected);
}

#[test]
fn git_parse_status_clean() {
    let output = "
# branch.oid dc716b061d9a0bc6a59f4e02d72b9952cce28927
# branch.head master
";
    let mut expected = Status::new(VCS::Git);
    expected.branch = "master".to_owned();
    expected.commit = "dc716b061d9a0bc6a59f4e02d72b9952cce28927".to_owned();
    assert_eq!(parse_status(output).unwrap(), expected);
}

#[test]
fn parse_status_empty() {
    assert_eq!(parse_status("").unwrap(), Status::new(VCS::Git));
}

#[test]
fn malformed_ahead_behind_is_hard_error() {
    let output = "# branch.ab +x -2\n";
    assert_eq!(
        parse_status(output).unwrap_err(),
        ParseError::MalformedAheadBehind
    );
    assert_eq!(
        ParseError::MalformedAheadBehind.message(),
        "Failed to parse"
    );
}

#[test]
fn ahead_behind_take_absolute_values() {
    let output = "# branch.ab -3 +4\n";
    let st = parse_status(output).unwrap();
    assert_eq!(st.ahead, 3);
    assert_eq!(st.behind, 4);
}

#[test]
fn ahead_behind_missing_fields_default_to_zero() {
    let st = parse_status("# branch.ab\n").unwrap();
    assert_eq!(st.ahead, 0);
    assert_eq!(st.behind, 0);
}

#[test]
fn unknown_record_kinds_are_ignored() {
    let st = parse_status("x whatever\n! ignored.txt\n").unwrap();
    assert!(st.is_clean());
}

#[test]
fn double_flag_counts_both_sides() {
    let st = parse_status("1 MM <sub> <mH> <mI> <mW> <hH> <hI> both.txt\n").unwrap();
    assert_eq!(st.staged, 1);
    assert_eq!(st.changed, 1);
}

#[test]
fn diff_numstat_accumulates_and_tolerates_garbage() {
    let output = "3\t1\tsrc/main.rs\n-\t-\tbinary.bin\n10\t2\tREADME.md\n";
    let st = status("", output, &no_markers()).unwrap();
    assert_eq!(st.added, 13);
    assert_eq!(st.deleted, 3);
}

#[test]
fn operations_in_fixed_order() {
    let mut flags = no_markers();
    flags.merge_head = true;
    flags.bisect_log = true;
    let st = status("", "", &flags).unwrap();
    assert_eq!(st.operations, vec!["MERGING", "BISECTING"]);
}

#[test]
fn all_operations_in_priority_order() {
    let flags = MarkerFlags {
        rebase_merge: true,
        rebase_apply: true,
        merge_head: true,
        cherry_pick_head: true,
        revert_head: true,
        bisect_log: true,
    };
    let st = status("", "", &flags).unwrap();
    assert_eq!(
        st.operations,
        vec![
            "REBASE",
            "AM/REBASE",
            "MERGING",
            "CHERRY-PICKING",
            "REVERTING",
            "BISECTING"
        ]
    );
}

#[test]
fn marker_files_match_operation_order() {
    assert_eq!(
        operation_marker_files(),
        vec![
            "rebase-merge",
            "rebase-apply",
            "MERGE_HEAD",
            "CHERRY_PICK_HEAD",
            "REVERT_HEAD",
            "BISECT_LOG"
        ]
    );
}
