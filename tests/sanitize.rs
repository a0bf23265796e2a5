use deploy_logger::sanitize::sanitize;

#[test]
fn only_escape_sequences_become_empty() {
    assert_eq!(sanitize("\x1b[31m\x1b[0m"), "");
    assert_eq!(sanitize("\x1b[1;32m"), "");
}

#[test]
fn plain_line_is_unchanged() {
    assert_eq!(sanitize("hello world"), "hello world");
    assert_eq!(sanitize(""), "");
    assert_eq!(sanitize("  tabs\tand [brackets] 1;2m"), "  tabs\tand [brackets] 1;2m");
}

#[test]
fn styling_is_removed_and_text_kept() {
    assert_eq!(sanitize("\x1b[1;32mok\x1b[0m done"), "ok done");
    assert_eq!(sanitize("a\x1b[Kb"), "ab");
}

#[test]
fn incomplete_sequence_is_kept() {
    assert_eq!(sanitize("\x1b[12"), "\x1b[12");
    assert_eq!(sanitize("\x1b[1;2;"), "\x1b[1;2;");
}

#[test]
fn sanitizing_twice_matches_once() {
    for line in ["\x1b[31mred\x1b[0m", "plain", "\x1b[2J\x1b[H", "x\x1b[0;1;33my"] {
        let once = sanitize(line);
        assert_eq!(sanitize(&once), once);
    }
}

#[test]
fn sequences_joined_by_a_removal_are_removed_too() {
    assert_eq!(sanitize("\x1b\x1b[m[m"), "");
    assert_eq!(sanitize("\x1b[\x1b[31m1m"), "");
    assert_eq!(sanitize("x\x1b[\x1b[\x1b[0m1m2my"), "xy");
    let once = sanitize("\x1b[\x1b[31m1m tail");
    assert_eq!(once, " tail");
    assert_eq!(sanitize(&once), once);
}
