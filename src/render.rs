//! Repaint plans: the terminal operations that redraw the scrolling tail in
//! place. Executing a plan is left to the caller.
use vstd::prelude::*;

verus! {

/// A foreground colour used for decorations.
#[derive(Clone, Copy, Debug, PartialEq, Eq, Structural)]
pub enum Tint {
    Green,
    BrightGreen,
    BrightBlack,
    DarkGrey,
}

/// One terminal operation.
#[derive(Debug, PartialEq, Eq)]
pub enum TermOp {
    /// Move the cursor up by this many rows.
    MoveUp(u16),
    /// Clear the row under the cursor.
    ClearLine,
    /// Move the cursor to the first column.
    MoveToColumn0,
    /// Print text in the current colour.
    Print(String),
    /// Print text in the given colour, then return to the default colour.
    PrintTinted(Tint, String),
}

/// What a terminal operation does, over plain values.
pub enum Op {
    MoveUp(nat),
    ClearLine,
    MoveToColumn0,
    Print(Seq<char>),
    PrintTinted(Tint, Seq<char>),
}

impl View for TermOp {
    type V = Op;

    open spec fn view(&self) -> Op {
        match self {
            TermOp::MoveUp(n) => Op::MoveUp(*n as nat),
            TermOp::ClearLine => Op::ClearLine,
            TermOp::MoveToColumn0 => Op::MoveToColumn0,
            TermOp::Print(s) => Op::Print(s@),
            TermOp::PrintTinted(t, s) => Op::PrintTinted(*t, s@),
        }
    }
}

/// What a plan does, operation by operation.
pub open spec fn plan_view(ops: Seq<TermOp>) -> Seq<Op> {
    ops.map_values(|o: TermOp| o@)
}

/// Glyph in front of each completed upload.
pub open spec fn tick_mark() -> Seq<char> {
    "\u{2714}"@
}

/// Prompt in front of each line of remote output.
pub open spec fn prompt() -> Seq<char> {
    "$ "@
}

/// Label of the status row below the remote output.
pub open spec fn console_label() -> Seq<char> {
    "Remote console: "@
}

/// One row of the uploads display: a green tick mark and the quoted name.
pub open spec fn upload_row(name: Seq<char>) -> Seq<Op> {
    seq![
        Op::ClearLine,
        Op::MoveToColumn0,
        Op::PrintTinted(Tint::BrightGreen, tick_mark()),
        Op::Print(" '"@),
        Op::PrintTinted(Tint::BrightBlack, name),
        Op::Print("'\n"@),
    ]
}

/// One row of the remote display: a grey prompt and the line.
pub open spec fn remote_row(line: Seq<char>) -> Seq<Op> {
    seq![
        Op::ClearLine,
        Op::PrintTinted(Tint::DarkGrey, prompt()),
        Op::Print(line),
        Op::Print("\n"@),
        Op::MoveToColumn0,
    ]
}

/// The rows of all `lines`, in order; `remote` picks the remote rows.
pub open spec fn rows(lines: Seq<String>, remote: bool) -> Seq<Op>
    decreases lines.len(),
{
    if lines.len() == 0 {
        Seq::empty()
    } else {
        rows(lines.drop_last(), remote) + if remote {
            remote_row(lines.last()@)
        } else {
            upload_row(lines.last()@)
        }
    }
}

/// Row below the uploads: cleared, cursor left at its start.
pub open spec fn upload_footer() -> Seq<Op> {
    seq![Op::ClearLine, Op::MoveToColumn0]
}

/// Status row below the remote output.
pub open spec fn remote_footer() -> Seq<Op> {
    seq![
        Op::ClearLine,
        Op::PrintTinted(Tint::DarkGrey, console_label()),
        Op::Print("Press ESC to quit"@),
        Op::Print("\n"@),
        Op::MoveToColumn0,
    ]
}

/// A repaint: up over the `prev` rows drawn before and the row below them,
/// then every line, then the footer.
pub open spec fn repaint(prev: nat, lines: Seq<String>, remote: bool) -> Seq<Op> {
    seq![Op::MoveUp(prev + 1)] + rows(lines, remote) + if remote {
        remote_footer()
    } else {
        upload_footer()
    }
}

/// Final status row of the remote display, drawn over the previous one.
pub open spec fn finished() -> Seq<Op> {
    seq![
        Op::MoveUp(1),
        Op::ClearLine,
        Op::PrintTinted(Tint::Green, console_label()),
        Op::Print("finished\n"@),
        Op::MoveToColumn0,
    ]
}

fn push_op(plan: &mut Vec<TermOp>, op: TermOp)
    ensures
        plan_view(final(plan)@) == plan_view(old(plan)@).push(op@),
{
    plan.push(op);
    assert(plan_view(plan@) =~= plan_view(old(plan)@).push(op@));
}

fn push_row(plan: &mut Vec<TermOp>, line: &String, remote: bool)
    ensures
        plan_view(final(plan)@) == plan_view(old(plan)@) + if remote {
            remote_row(line@)
        } else {
            upload_row(line@)
        },
{
    let ghost start = plan_view(plan@);
    if remote {
        push_op(plan, TermOp::ClearLine);
        push_op(plan, TermOp::PrintTinted(Tint::DarkGrey, String::from_str("$ ")));
        push_op(plan, TermOp::Print(line.clone()));
        push_op(plan, TermOp::Print(String::from_str("\n")));
        push_op(plan, TermOp::MoveToColumn0);
        assert(plan_view(plan@) =~= start + remote_row(line@));
    } else {
        push_op(plan, TermOp::ClearLine);
        push_op(plan, TermOp::MoveToColumn0);
        push_op(plan, TermOp::PrintTinted(Tint::BrightGreen, String::from_str("\u{2714}")));
        push_op(plan, TermOp::Print(String::from_str(" '")));
        push_op(plan, TermOp::PrintTinted(Tint::BrightBlack, line.clone()));
        push_op(plan, TermOp::Print(String::from_str("'\n")));
        assert(plan_view(plan@) =~= start + upload_row(line@));
    }
}

/// The plan that redraws `lines` over a region where `prev` lines were drawn,
/// with the remote decorations when `remote` holds, else the upload ones.
pub fn repaint_plan(prev: usize, lines: &Vec<String>, remote: bool) -> (r: Vec<TermOp>)
    requires
        prev < u16::MAX,
    ensures
        plan_view(r@) == repaint(prev as nat, lines@, remote),
{
    let mut plan: Vec<TermOp> = Vec::new();
    push_op(&mut plan, TermOp::MoveUp((prev + 1) as u16));
    let n = lines.len();
    let mut i: usize = 0;
    while i < n
        invariant
            n == lines@.len(),
            i <= n,
            plan_view(plan@) == seq![Op::MoveUp(prev as nat + 1)] + rows(lines@.take(i as int), remote),
        decreases n - i,
    {
        push_row(&mut plan, &lines[i], remote);
        assert(lines@.take(i as int + 1).drop_last() =~= lines@.take(i as int));
        i += 1;
    }
    assert(lines@.take(n as int) =~= lines@);
    let ghost body = plan_view(plan@);
    if remote {
        push_op(&mut plan, TermOp::ClearLine);
        push_op(&mut plan, TermOp::PrintTinted(Tint::DarkGrey, String::from_str("Remote console: ")));
        push_op(&mut plan, TermOp::Print(String::from_str("Press ESC to quit")));
        push_op(&mut plan, TermOp::Print(String::from_str("\n")));
        push_op(&mut plan, TermOp::MoveToColumn0);
        assert(plan_view(plan@) =~= body + remote_footer());
    } else {
        push_op(&mut plan, TermOp::ClearLine);
        push_op(&mut plan, TermOp::MoveToColumn0);
        assert(plan_view(plan@) =~= body + upload_footer());
    }
    plan
}

/// The plan that replaces the status row by the final "finished" row.
pub fn finished_plan() -> (r: Vec<TermOp>)
    ensures
        plan_view(r@) == finished(),
{
    let mut plan: Vec<TermOp> = Vec::new();
    push_op(&mut plan, TermOp::MoveUp(1));
    push_op(&mut plan, TermOp::ClearLine);
    push_op(&mut plan, TermOp::PrintTinted(Tint::Green, String::from_str("Remote console: ")));
    push_op(&mut plan, TermOp::Print(String::from_str("finished\n")));
    push_op(&mut plan, TermOp::MoveToColumn0);
    assert(plan_view(plan@) =~= finished());
    plan
}

/// Number of line breaks in `t`.
pub open spec fn breaks(t: Seq<char>) -> nat
    decreases t.len(),
{
    if t.len() == 0 {
        0
    } else {
        breaks(t.drop_last()) + if t.last() == '\n' {
            1nat
        } else {
            0nat
        }
    }
}

/// `t` fits on one row: it holds no line break.
pub open spec fn single_row(t: Seq<char>) -> bool {
    forall|i: int| 0 <= i < t.len() ==> t[i] != '\n'
}

/// Rows that an operation finishes: the line breaks it prints.
pub open spec fn op_rows(o: Op) -> nat {
    match o {
        Op::Print(t) => breaks(t),
        Op::PrintTinted(_, t) => breaks(t),
        _ => 0,
    }
}

/// Rows that a plan finishes.
pub open spec fn plan_rows(ops: Seq<Op>) -> nat
    decreases ops.len(),
{
    if ops.len() == 0 {
        0
    } else {
        plan_rows(ops.drop_last()) + op_rows(ops.last())
    }
}

proof fn lemma_single_row_breaks(t: Seq<char>)
    requires
        single_row(t),
    ensures
        breaks(t) == 0,
    decreases t.len(),
{
    if t.len() > 0 {
        lemma_single_row_breaks(t.drop_last());
    }
}

proof fn lemma_newline_breaks()
    ensures
        breaks("\n"@) == 1,
{
    reveal_strlit("\n");
    let t = "\n"@;
    assert(t.len() == 1 && t.last() == '\n');
    assert(t.drop_last() =~= Seq::<char>::empty());
    assert(breaks(t.drop_last()) == 0);
}

proof fn lemma_plan_rows_concat(a: Seq<Op>, b: Seq<Op>)
    ensures
        plan_rows(a + b) == plan_rows(a) + plan_rows(b),
    decreases b.len(),
{
    if b.len() == 0 {
        assert(a + b =~= a);
    } else {
        lemma_plan_rows_concat(a, b.drop_last());
        assert((a + b).drop_last() =~= a + b.drop_last());
    }
}

proof fn lemma_remote_rows(lines: Seq<String>)
    requires
        forall|i: int| 0 <= i < lines.len() ==> single_row(#[trigger] lines[i]@),
    ensures
        plan_rows(rows(lines, true)) == lines.len(),
    decreases lines.len(),
{
    if lines.len() > 0 {
        let row = remote_row(lines.last()@);
        lemma_remote_rows(lines.drop_last());
        lemma_plan_rows_concat(rows(lines.drop_last(), true), row);
        reveal_strlit("$ ");
        lemma_single_row_breaks(prompt());
        lemma_single_row_breaks(lines.last()@);
        lemma_newline_breaks();
        lemma_plan_rows_concat(row.take(4), seq![row[4]]);
        lemma_plan_rows_concat(row.take(3), seq![row[3]]);
        lemma_plan_rows_concat(row.take(2), seq![row[2]]);
        lemma_plan_rows_concat(row.take(1), seq![row[1]]);
        lemma_plan_rows_concat(Seq::empty(), seq![row[0]]);
        assert(row.take(4) + seq![row[4]] =~= row);
        assert(row.take(3) + seq![row[3]] =~= row.take(4));
        assert(row.take(2) + seq![row[2]] =~= row.take(3));
        assert(row.take(1) + seq![row[1]] =~= row.take(2));
        assert(Seq::<Op>::empty() + seq![row[0]] =~= row.take(1));
        assert(seq![row[0]].drop_last() =~= Seq::<Op>::empty());
        assert(seq![row[1]].drop_last() =~= Seq::<Op>::empty());
        assert(seq![row[2]].drop_last() =~= Seq::<Op>::empty());
        assert(seq![row[3]].drop_last() =~= Seq::<Op>::empty());
        assert(seq![row[4]].drop_last() =~= Seq::<Op>::empty());
    }
}

/// A remote repaint moves up over the `prev` rows drawn before and the status
/// row, and finishes one row per line and the status row: as many rows as the
/// next repaint moves up over, when each line fits on one row.
pub proof fn lemma_remote_repaint_rows(prev: nat, lines: Seq<String>)
    requires
        forall|i: int| 0 <= i < lines.len() ==> single_row(#[trigger] lines[i]@),
    ensures
        repaint(prev, lines, true)[0] == Op::MoveUp(prev + 1),
        plan_rows(repaint(prev, lines, true)) == lines.len() + 1,
{
    let head = seq![Op::MoveUp(prev + 1)];
    let body = rows(lines, true);
    let foot = remote_footer();
    lemma_remote_rows(lines);
    lemma_plan_rows_concat(head, body);
    lemma_plan_rows_concat(head + body, foot);
    assert(head.drop_last() =~= Seq::<Op>::empty());
    reveal_strlit("Remote console: ");
    reveal_strlit("Press ESC to quit");
    lemma_single_row_breaks(console_label());
    lemma_single_row_breaks("Press ESC to quit"@);
    lemma_newline_breaks();
    lemma_plan_rows_concat(foot.take(4), seq![foot[4]]);
    lemma_plan_rows_concat(foot.take(3), seq![foot[3]]);
    lemma_plan_rows_concat(foot.take(2), seq![foot[2]]);
    lemma_plan_rows_concat(foot.take(1), seq![foot[1]]);
    lemma_plan_rows_concat(Seq::empty(), seq![foot[0]]);
    assert(foot.take(4) + seq![foot[4]] =~= foot);
    assert(foot.take(3) + seq![foot[3]] =~= foot.take(4));
    assert(foot.take(2) + seq![foot[2]] =~= foot.take(3));
    assert(foot.take(1) + seq![foot[1]] =~= foot.take(2));
    assert(Seq::<Op>::empty() + seq![foot[0]] =~= foot.take(1));
    assert(seq![foot[0]].drop_last() =~= Seq::<Op>::empty());
    assert(seq![foot[1]].drop_last() =~= Seq::<Op>::empty());
    assert(seq![foot[2]].drop_last() =~= Seq::<Op>::empty());
    assert(seq![foot[3]].drop_last() =~= Seq::<Op>::empty());
    assert(seq![foot[4]].drop_last() =~= Seq::<Op>::empty());
}

} // verus!
