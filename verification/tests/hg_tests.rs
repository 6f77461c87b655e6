use vcprompt::hg::{get_bookmark, get_branch, parse_status, status};
use vcprompt::status::{Status, VCS};

#[test]
fn hg_parse_status_full() {
    let output = "
M modified.txt
A added.txt
R removed.txt
C clean.txt
? untracked.txt
! deleted.txt
I ignored.txt
";
    let mut expected = Status::new(VCS::Hg);
    expected.branch = "<unknown>".to_string();
    expected.ahead = 0;
    expected.behind = 0;
    expected.staged = 4;
    expected.changed = 0;
    expected.untracked = 1;
    expected.conflicts = 0;
    assert_eq!(parse_status(output), expected);
}

#[test]
fn hg_parse_status_clean() {
    assert_eq!(parse_status(""), Status::new(VCS::Hg));
}

#[test]
fn branch_read_from_file_is_trimmed() {
    assert_eq!(get_branch(Some("  feature-x\n")), "feature-x");
}

#[test]
fn branch_missing_file_defaults() {
    assert_eq!(get_branch(None), "default");
}

#[test]
fn bookmark_prefixed_with_star() {
    assert_eq!(get_bookmark(Some("bm1\n")), "*bm1");
    assert_eq!(get_bookmark(None), "");
}

#[test]
fn hg_status_combines_branch_and_bookmark() {
    let st = status("M a.txt\n", Some("dev\n"), Some("work\n")).unwrap();
    assert_eq!(st.branch, "dev*work");
    assert_eq!(st.staged, 1);
    assert_eq!(st.name, VCS::Hg);
}
