use deploy_logger::scroll::{ScrollBuffer, REMOTE_TERM_SIZE};

#[test]
fn seven_pushes_keep_lines_three_to_seven() {
    let mut buffer = ScrollBuffer::new();
    let mut prevs = Vec::new();
    for i in 1..=7 {
        prevs.push(buffer.push(format!("line {}", i)));
    }
    assert_eq!(prevs, vec![0, 1, 2, 3, 4, 5, 5]);
    let expected: Vec<String> = (3..=7).map(|i| format!("line {}", i)).collect();
    assert_eq!(buffer.lines(), expected);
}

#[test]
fn buffer_holds_last_pushes_in_order() {
    for total in 0..12 {
        let mut buffer = ScrollBuffer::new();
        for i in 0..total {
            buffer.push(i.to_string());
            assert!(buffer.len() <= REMOTE_TERM_SIZE);
        }
        let keep = total.min(REMOTE_TERM_SIZE);
        let expected: Vec<String> = (total - keep..total).map(|i| i.to_string()).collect();
        assert_eq!(buffer.lines(), expected);
    }
}

#[test]
fn equal_lines_are_kept_separately() {
    let mut buffer = ScrollBuffer::new();
    buffer.push("same".to_string());
    buffer.push("same".to_string());
    assert_eq!(buffer.lines(), vec!["same".to_string(), "same".to_string()]);
}

#[test]
fn clear_empties_the_buffer() {
    let mut buffer = ScrollBuffer::new();
    buffer.push("a".to_string());
    buffer.push("b".to_string());
    buffer.clear();
    assert_eq!(buffer.len(), 0);
    assert_eq!(buffer.push("c".to_string()), 0);
    assert_eq!(buffer.lines(), vec!["c".to_string()]);
}
