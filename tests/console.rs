use deploy_logger::console::{Console, Event};
use deploy_logger::render::{finished_plan, repaint_plan, TermOp};
use deploy_logger::scroll::REMOTE_TERM_SIZE;

fn line(s: &str) -> Event {
    Event::Line(s.to_string())
}

fn move_up(plan: &[TermOp]) -> u16 {
    match plan[0] {
        TermOp::MoveUp(n) => n,
        _ => panic!("a repaint starts by moving up"),
    }
}

#[test]
fn seven_uploads_repaint_over_previous_rows() {
    let mut console = Console::new();
    let mut ups = Vec::new();
    for i in 1..=7 {
        let r = console.notify_upload(format!("file{}.bin", i));
        assert_eq!(r.persist, Some(format!("\u{2714} 'file{}.bin'", i)));
        assert!(!r.stop);
        ups.push(move_up(&r.plan));
    }
    assert_eq!(ups, vec![1, 2, 3, 4, 5, 6, 6]);
    let expected: Vec<String> = (3..=7).map(|i| format!("file{}.bin", i)).collect();
    assert_eq!(console.lines(), expected);
    console.stop_display();
    assert!(console.lines().is_empty());
}

#[test]
fn remote_line_is_persisted_plain_and_drawn_raw() {
    let mut console = Console::new();
    console.start_remote();
    assert!(console.is_running());
    let r = console.handle(line("\x1b[32mbuilt\x1b[0m"));
    assert_eq!(r.persist, Some("built".to_string()));
    assert!(!r.stop);
    assert_eq!(r.plan, repaint_plan(0, &vec!["\x1b[32mbuilt\x1b[0m".to_string()], true));
    assert_eq!(console.lines(), vec!["\x1b[32mbuilt\x1b[0m".to_string()]);
}

#[test]
fn other_keys_are_ignored() {
    let mut console = Console::new();
    console.start_remote();
    console.handle(line("a"));
    let r = console.handle(Event::OtherKey);
    assert_eq!(r.persist, None);
    assert!(r.plan.is_empty());
    assert!(!r.stop);
    assert_eq!(console.lines(), vec!["a".to_string()]);
}

#[test]
fn cancellation_stops_and_later_lines_are_not_drawn() {
    let mut console = Console::new();
    console.start_remote();
    let a = console.handle(line("first"));
    let b = console.handle(line("second"));
    assert_eq!(a.persist, Some("first".to_string()));
    assert_eq!(b.persist, Some("second".to_string()));
    let stop = console.handle(Event::Escape);
    assert!(stop.stop);
    assert_eq!(stop.persist, None);
    assert_eq!(stop.plan, finished_plan());
    assert!(!console.is_running());
    assert!(console.lines().is_empty());
    for event in [line("pending one"), line("pending two"), Event::Escape] {
        let r = console.handle(event);
        assert_eq!(r.persist, None);
        assert!(r.plan.is_empty());
        assert!(!r.stop);
    }
}

#[test]
fn events_before_start_do_nothing() {
    let mut console = Console::new();
    let r = console.handle(line("early"));
    assert_eq!(r.persist, None);
    assert!(r.plan.is_empty());
    assert!(console.lines().is_empty());
}

#[test]
fn remote_session_starts_on_empty_display() {
    let mut console = Console::new();
    console.notify_upload("left.txt".to_string());
    console.start_remote();
    assert!(console.lines().is_empty());
    let r = console.handle(line("x"));
    assert_eq!(move_up(&r.plan), 1);
}

#[test]
fn upload_record_is_persisted_without_styling() {
    let mut console = Console::new();
    let r = console.notify_upload("\x1b[1ma".to_string());
    assert_eq!(r.persist, Some("\u{2714} 'a'".to_string()));
    assert_eq!(console.lines(), vec!["\x1b[1ma".to_string()]);
}

fn rows_finished(plan: &[TermOp]) -> usize {
    plan.iter()
        .map(|op| match op {
            TermOp::Print(t) | TermOp::PrintTinted(_, t) => t.matches('\n').count(),
            _ => 0,
        })
        .sum()
}

#[test]
fn each_remote_repaint_erases_the_rows_drawn_before() {
    let mut console = Console::new();
    console.start_remote();
    let mut previous: Option<usize> = None;
    for i in 1..=7 {
        let r = console.handle(line(&format!("out {}", i)));
        if let Some(rows) = previous {
            assert_eq!(move_up(&r.plan) as usize, rows);
        }
        previous = Some(rows_finished(&r.plan));
    }
    assert_eq!(previous, Some(REMOTE_TERM_SIZE + 1));
}
