use vcprompt::color::resolve;

#[test]
fn tags_become_escape_sequences() {
    assert_eq!(resolve("{cyan}main{reset}"), "\u{1b}[36mmain\u{1b}[00m");
    assert_eq!(resolve("{bold}"), "\u{1b}[01m");
    assert_eq!(resolve("{black_on_green}"), "\u{1b}[48;5;2m\u{1b}[30m");
    assert_eq!(resolve("{gray}"), "\u{1b}[38;5;248m");
}

#[test]
fn resolution_is_total() {
    let tags = [
        "{reset}",
        "{bold}",
        "{black}",
        "{red}",
        "{green}",
        "{yellow}",
        "{blue}",
        "{magenta}",
        "{cyan}",
        "{gray}",
        "{white}",
        "{black_on_green}",
    ];
    let mut text = String::new();
    for t in tags.iter() {
        text.push_str(t);
        text.push('x');
    }
    let resolved = resolve(&text);
    for t in tags.iter() {
        assert!(!resolved.contains(t));
    }
}

#[test]
fn resolution_is_idempotent() {
    let text = "{green}{bold}\u{2714}{reset} plain {unknown} {red}*{reset}";
    let once = resolve(text);
    let twice = resolve(&once);
    assert_eq!(once, twice);
}

#[test]
fn unknown_tags_are_left_alone() {
    assert_eq!(resolve("{value}{unknown}"), "{value}{unknown}");
}

#[test]
fn plain_text_is_unchanged() {
    assert_eq!(resolve("no tags here"), "no tags here");
}
