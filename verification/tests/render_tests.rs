use vcprompt::format::{
    format_from_string, format_full, format_minimal, get_output, OutputStyle, Templates,
};
use vcprompt::status::{Status, VCS};

fn record(
    branch: &str,
    ahead: u32,
    behind: u32,
    staged: u32,
    changed: u32,
    untracked: u32,
    conflicts: u32,
) -> Status {
    let mut st = Status::new(VCS::Git);
    st.branch = branch.to_string();
    st.ahead = ahead;
    st.behind = behind;
    st.staged = staged;
    st.changed = changed;
    st.untracked = untracked;
    st.conflicts = conflicts;
    st
}

#[test]
fn detailed_round_trip_scenario() {
    let st = record("master", 1, 2, 3, 0, 1, 0);
    let out = format_full(&st, &Templates::new());
    assert!(out.contains("{cyan}master{reset}"));
    assert!(out.contains("\u{21e1}1"));
    assert!(out.contains("\u{21e3}2"));
    assert!(out.contains("\u{25cf}3"));
    assert!(out.contains("\u{2026}1"));
    assert!(!out.contains("\u{394}"));
    assert!(!out.contains("\u{203c}"));
    assert!(!out.contains("\u{2714}"));
}

#[test]
fn zero_counters_render_nothing_detailed() {
    let st = record("main", 0, 0, 0, 0, 0, 0);
    let t = Templates::new();
    let out = format_full(&st, &t);
    assert!(!out.contains("\u{21e1}"));
    assert!(!out.contains("\u{21e3}"));
    assert!(!out.contains("\u{25cf}"));
    assert!(!out.contains("\u{394}"));
    assert!(!out.contains("\u{203c}"));
    assert!(!out.contains("\u{2026}"));
    assert!(out.contains("\u{2714}"));
}

#[test]
fn zero_counters_render_nothing_minimal() {
    let st = record("main", 0, 0, 0, 0, 0, 0);
    let t = Templates::new();
    let out = format_minimal(&st, &t);
    assert_eq!(out, "{cyan}main{reset}{reset}");
    let dirty = record("main", 0, 0, 2, 0, 0, 0);
    let out2 = format_minimal(&dirty, &t);
    assert!(out2.contains("{bold}{yellow}+{reset}"));
    assert!(out2.contains("{red}*{reset}"));
}

#[test]
fn format_string_scenario() {
    let mut st = record("main", 0, 0, 1, 0, 0, 0);
    st.symbol = "\u{2666}".to_string();
    st.operations = vec!["REBASE".to_string()];
    let out = format_from_string(&st, &Templates::new(), "%n %b %o");
    assert!(out.starts_with("\u{2666} {cyan}main{reset} {red}REBASE{reset}"));
    assert_eq!(out, "\u{2666} {cyan}main{reset} {red}REBASE{reset}{reset}");
}

#[test]
fn format_string_unknown_directive_passes_through() {
    let st = record("b", 0, 0, 1, 0, 0, 0);
    let out = format_from_string(&st, &Templates::new(), "a%zb%");
    assert_eq!(out, "azb{reset}");
}

#[test]
fn format_string_commit_truncated_to_seven() {
    let mut st = record("b", 0, 0, 1, 0, 0, 0);
    st.commit = "dc716b061d9a0bc6a59f4e02d72b9952cce28927".to_string();
    let out = format_from_string(&st, &Templates::new(), "%c");
    assert!(out.contains("{black_on_green}dc716b0{reset}"));
    st.commit = "(initial)".to_string();
    let out2 = format_from_string(&st, &Templates::new(), "%c");
    assert!(out2.contains("{black_on_green}(initial){reset}"));
}

#[test]
fn conditional_directives_skip_zero_counters() {
    let st = record("b", 0, 3, 0, 0, 0, 2);
    let out = format_from_string(&st, &Templates::new(), "%A%B%s%U%m%u");
    assert!(!out.contains("\u{21e1}"));
    assert!(out.contains("\u{21e3}3"));
    assert!(!out.contains("\u{25cf}"));
    assert!(out.contains("\u{203c}2"));
}

#[test]
fn overridden_template_is_used() {
    let mut t = Templates::new();
    t.branch = "<{value}>".to_string();
    let st = record("dev", 0, 0, 1, 0, 0, 0);
    let out = format_minimal(&st, &t);
    assert!(out.contains("<dev>"));
    assert!(!out.contains("{cyan}"));
}

#[test]
fn get_output_resolves_all_styles() {
    let st = record("main", 1, 0, 0, 0, 0, 0);
    let t = Templates::new();
    let detailed = get_output(&st, OutputStyle::Detailed, None, &t);
    assert!(detailed.contains("\u{1b}[36mmain\u{1b}[00m"));
    assert!(!detailed.contains("{cyan}"));
    let minimal = get_output(&st, OutputStyle::Minimal, None, &t);
    assert!(minimal.contains("\u{1b}[36mmain\u{1b}[00m"));
    let fmt = get_output(&st, OutputStyle::FormatString, Some("%b"), &t);
    assert!(fmt.contains("\u{1b}[36mmain\u{1b}[00m"));
    let fmt_default = get_output(&st, OutputStyle::FormatString, None, &t);
    assert!(fmt_default.contains("\u{1b}[36mmain\u{1b}[00m"));
}
