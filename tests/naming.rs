use deploy_logger::naming::{decimal_string, log_file_name, log_file_number};

fn names(list: &[&str]) -> Vec<String> {
    list.iter().map(|s| s.to_string()).collect()
}

#[test]
fn file_names_are_numbered() {
    assert_eq!(log_file_name(3), "deployment_3.txt");
    assert_eq!(log_file_name(1), "deployment_1.txt");
    assert_eq!(log_file_name(40), "deployment_40.txt");
}

#[test]
fn decimal_digits() {
    assert_eq!(decimal_string(0), "0");
    assert_eq!(decimal_string(1234567890), "1234567890");
    assert_eq!(decimal_string(u64::MAX), u64::MAX.to_string());
}

#[test]
fn next_after_one_and_two_is_three() {
    assert_eq!(log_file_number(&names(&["deployment_1.txt", "deployment_2.txt"])), 3);
}

#[test]
fn lowest_unused_number_is_reused() {
    assert_eq!(log_file_number(&names(&["deployment_1.txt", "deployment_3.txt"])), 2);
    assert_eq!(log_file_number(&names(&["deployment_2.txt"])), 1);
}

#[test]
fn empty_directory_gives_one() {
    assert_eq!(log_file_number(&Vec::new()), 1);
}

#[test]
fn other_entries_do_not_count() {
    let list = names(&["notes.md", "deployment_01.txt", "deployment_1.log", "deployment_1.txt"]);
    assert_eq!(log_file_number(&list), 2);
}
