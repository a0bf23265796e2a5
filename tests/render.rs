use deploy_logger::render::{finished_plan, repaint_plan, TermOp, Tint};

fn print(s: &str) -> TermOp {
    TermOp::Print(s.to_string())
}

#[test]
fn remote_repaint_draws_rows_and_status() {
    let lines = vec!["one".to_string(), "two".to_string()];
    let plan = repaint_plan(1, &lines, true);
    let mut expected = vec![TermOp::MoveUp(2)];
    for line in ["one", "two"] {
        expected.push(TermOp::ClearLine);
        expected.push(TermOp::PrintTinted(Tint::DarkGrey, "$ ".to_string()));
        expected.push(print(line));
        expected.push(print("\n"));
        expected.push(TermOp::MoveToColumn0);
    }
    expected.push(TermOp::ClearLine);
    expected.push(TermOp::PrintTinted(Tint::DarkGrey, "Remote console: ".to_string()));
    expected.push(print("Press ESC to quit"));
    expected.push(print("\n"));
    expected.push(TermOp::MoveToColumn0);
    assert_eq!(plan, expected);
}

#[test]
fn upload_repaint_draws_tick_marks() {
    let lines = vec!["app.tar".to_string()];
    let plan = repaint_plan(0, &lines, false);
    let expected = vec![
        TermOp::MoveUp(1),
        TermOp::ClearLine,
        TermOp::MoveToColumn0,
        TermOp::PrintTinted(Tint::BrightGreen, "\u{2714}".to_string()),
        print(" '"),
        TermOp::PrintTinted(Tint::BrightBlack, "app.tar".to_string()),
        print("'\n"),
        TermOp::ClearLine,
        TermOp::MoveToColumn0,
    ];
    assert_eq!(plan, expected);
}

#[test]
fn empty_repaint_clears_the_trailing_row() {
    let plan = repaint_plan(0, &Vec::new(), false);
    assert_eq!(plan, vec![TermOp::MoveUp(1), TermOp::ClearLine, TermOp::MoveToColumn0]);
}

#[test]
fn finished_row_replaces_status() {
    let expected = vec![
        TermOp::MoveUp(1),
        TermOp::ClearLine,
        TermOp::PrintTinted(Tint::Green, "Remote console: ".to_string()),
        print("finished\n"),
        TermOp::MoveToColumn0,
    ];
    assert_eq!(finished_plan(), expected);
}
