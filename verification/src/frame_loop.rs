//! The decisions of a block's render loop: which commands change its state,
//! what a key press does, when to draw or stop, and the terminal operations
//! that move between frames.
use vstd::prelude::*;
use crate::input::{KeyCode, KeyPress};

verus! {

/// Commands sent to a running block.
#[derive(Clone, Copy, Debug, PartialEq, Eq, Structural)]
pub enum LoopCommand {
    Invalidate,
    Freeze,
    Resume,
    Finish,
}

/// The state the render loop keeps between ticks.
#[derive(Clone, Copy, Debug, PartialEq, Eq, Structural)]
pub struct LoopState {
    pub frozen: bool,
    pub finish_requested: bool,
    pub needs_redraw: bool,
    pub first_render: bool,
    /// Height of the frame on screen.
    pub prev_height: usize,
}

/// What a tick of the loop does.
#[derive(Clone, Copy, Debug, PartialEq, Eq, Structural)]
pub enum TickAction {
    /// Leave the loop, drawing a last frame first when asked.
    Stop { draw_last: bool },
    /// Draw a new frame.
    Redraw,
    /// Do nothing this tick.
    Wait,
}

/// The loop state at start: nothing on screen, a first frame due.
pub fn initial_state() -> (r: LoopState)
    ensures
        r == (LoopState { frozen: false, finish_requested: false, needs_redraw: false, first_render: true, prev_height: 0 }),
{
    LoopState { frozen: false, finish_requested: false, needs_redraw: false, first_render: true, prev_height: 0 }
}

/// Applies a command: invalidate asks for a redraw, freeze and resume stop
/// and restart drawing and keys, finish asks the loop to end.
pub fn apply_command(st: LoopState, c: LoopCommand) -> (r: LoopState)
    ensures
        r == (match c {
            LoopCommand::Invalidate => LoopState { needs_redraw: true, ..st },
            LoopCommand::Freeze => LoopState { frozen: true, ..st },
            LoopCommand::Resume => LoopState { frozen: false, ..st },
            LoopCommand::Finish => LoopState { finish_requested: true, ..st },
        }),
{
    match c {
        LoopCommand::Invalidate => LoopState { needs_redraw: true, ..st },
        LoopCommand::Freeze => LoopState { frozen: true, ..st },
        LoopCommand::Resume => LoopState { frozen: false, ..st },
        LoopCommand::Finish => LoopState { finish_requested: true, ..st },
    }
}

/// What a key press does: it reaches the widget (and the key hook) unless
/// the block is frozen; Ctrl+C interrupts in any case.
pub fn key_action(st: &LoopState, key: &KeyPress) -> (r: (bool, bool))
    ensures
        r.0 == !st.frozen,
        r.1 == (key.ctrl && key.code == KeyCode::Char('c')),
{
    let interrupt = key.ctrl && match key.code {
        KeyCode::Char(c) => c == 'c',
        _ => false,
    };
    (!st.frozen, interrupt)
}

/// What the loop does this tick: stop when finishing was asked for, or when
/// a block without a handler has a finished widget (drawing a last frame if
/// not frozen and something changed); otherwise draw when not frozen and
/// the widget changed, a redraw was asked for, or no frame was drawn yet.
pub open spec fn tick_action_spec(st: LoopState, has_handler: bool, widget_finished: bool, widget_changed: bool) -> TickAction {
    if st.finish_requested || (!has_handler && widget_finished) {
        TickAction::Stop { draw_last: !st.frozen && (widget_changed || st.needs_redraw) }
    } else if !st.frozen && (widget_changed || st.needs_redraw || st.first_render) {
        TickAction::Redraw
    } else {
        TickAction::Wait
    }
}

/// What the loop does this tick (see `tick_action_spec`).
pub fn tick_action(st: &LoopState, has_handler: bool, widget_finished: bool, widget_changed: bool) -> (r: TickAction)
    ensures
        r == tick_action_spec(*st, has_handler, widget_finished, widget_changed),
{
    if st.finish_requested || (!has_handler && widget_finished) {
        TickAction::Stop { draw_last: !st.frozen && (widget_changed || st.needs_redraw) }
    } else if !st.frozen && (widget_changed || st.needs_redraw || st.first_render) {
        TickAction::Redraw
    } else {
        TickAction::Wait
    }
}

/// The state after drawing a frame of `height` lines.
pub fn after_redraw(st: LoopState, height: usize) -> (r: LoopState)
    ensures
        r == (LoopState { first_render: false, prev_height: height, ..st }),
{
    LoopState { first_render: false, prev_height: height, ..st }
}

/// Where a sub-widget is drawn relative to its parent: on top of it (the
/// parent moves down), below it (the parent stays at the top), or in its
/// place for as long as it runs.
#[derive(Clone, Copy, Debug, PartialEq, Eq, Structural)]
pub enum SubWidgetPosition {
    Above,
    Below,
    Replace,
}

/// What happens to the parent's frame before a sub-widget runs.
#[derive(Clone, Copy, Debug, PartialEq, Eq, Structural)]
pub enum ParentFrame {
    /// Clear the live frame and print the last one for good.
    Settle,
    /// Clear it from the screen.
    Clear,
    /// Leave the screen as it is.
    Keep,
}

/// The parent's frame before a sub-widget: below, the last frame (when
/// there is one) is printed for good; above or in place, it is cleared.
pub fn parent_frame_before(position: SubWidgetPosition, has_last_frame: bool) -> (r: ParentFrame)
    ensures
        r == (match position {
            SubWidgetPosition::Below => if has_last_frame { ParentFrame::Settle } else { ParentFrame::Keep },
            _ => ParentFrame::Clear,
        }),
{
    match position {
        SubWidgetPosition::Below => if has_last_frame { ParentFrame::Settle } else { ParentFrame::Keep },
        _ => ParentFrame::Clear,
    }
}

/// The loop state once the parent's frame was dealt with: no live frame is
/// left on screen after settling or clearing.
pub fn before_sub_widget(st: LoopState, action: ParentFrame) -> (r: LoopState)
    ensures
        r == (match action {
            ParentFrame::Keep => st,
            _ => LoopState { prev_height: 0, ..st },
        }),
{
    match action {
        ParentFrame::Keep => st,
        _ => LoopState { prev_height: 0, ..st },
    }
}

/// Whether the sub-widget's last frame is erased when it ends: unless it is
/// to stay on screen, and always when it stood in the parent's place.
pub fn erase_sub_frame(position: SubWidgetPosition, keep_rendered: bool) -> (r: bool)
    ensures
        r == (!keep_rendered || position == SubWidgetPosition::Replace),
{
    !keep_rendered || match position {
        SubWidgetPosition::Replace => true,
        _ => false,
    }
}

/// The loop state after a sub-widget: the parent's frame is due again.
pub fn after_sub_widget(st: LoopState) -> (r: LoopState)
    ensures
        r == (LoopState { first_render: true, ..st }),
{
    LoopState { first_render: true, ..st }
}

/// After a sub-widget the parent is drawn again at the next tick, unless it
/// is frozen or about to stop.
pub proof fn law_parent_redrawn_after_sub_widget(
    st: LoopState,
    action: ParentFrame,
    has_handler: bool,
    widget_finished: bool,
    widget_changed: bool,
)
    requires
        !st.frozen,
        !st.finish_requested,
        has_handler || !widget_finished,
    ensures
        ({
            let s2 = LoopState { first_render: true, ..(match action {
                ParentFrame::Keep => st,
                _ => LoopState { prev_height: 0, ..st },
            }) };
            tick_action_spec(s2, has_handler, widget_finished, widget_changed) == TickAction::Redraw
        }),
{
}

/// A terminal operation.
#[derive(Clone, Copy, Debug, PartialEq, Eq, Structural)]
pub enum TermOp {
    /// Print `\r\n`.
    NewLine,
    MoveUp(u16),
    MoveDown(u16),
    /// Move to the first column.
    ColumnZero,
    /// Clear the current line.
    ClearLine,
    /// Print the line with this index.
    PrintLine(usize),
}

pub open spec fn newlines(n: nat) -> Seq<TermOp> {
    Seq::new(n, |i: int| TermOp::NewLine)
}

/// Operations that make room for a frame of `target` lines where one of
/// `prev` lines stands: nothing when it is not taller; otherwise new lines
/// below, then back to the top of the frame.
pub open spec fn prepare_spec(prev: usize, target: usize) -> Seq<TermOp> {
    if target <= prev {
        Seq::empty()
    } else if prev == 0 {
        if target > 1 {
            newlines((target - 1) as nat) + seq![TermOp::MoveUp((target - 1) as u16), TermOp::ColumnZero]
        } else {
            Seq::empty()
        }
    } else {
        (if prev > 1 { seq![TermOp::MoveDown((prev - 1) as u16)] } else { Seq::empty() }) + newlines((target - prev) as nat)
            + seq![TermOp::MoveUp((target - 1) as u16), TermOp::ColumnZero]
    }
}

fn push_newlines(ops: &mut Vec<TermOp>, n: usize)
    ensures
        final(ops)@ == old(ops)@ + newlines(n as nat),
{
    let ghost before = ops@;
    let mut i: usize = 0;
    while i < n
        invariant
            i <= n,
            ops@ == before + newlines(i as nat),
        decreases n - i,
    {
        ops.push(TermOp::NewLine);
        assert(ops@ =~= before + newlines((i + 1) as nat));
        i += 1;
    }
}

/// The operations that make room for a taller frame (see `prepare_spec`).
pub fn prepare_viewport(prev: usize, target: usize) -> (r: Vec<TermOp>)
    ensures
        r@ == prepare_spec(prev, target),
{
    let mut ops: Vec<TermOp> = Vec::new();
    if target <= prev {
        return ops;
    }
    if prev == 0 {
        if target > 1 {
            push_newlines(&mut ops, target - 1);
            ops.push(TermOp::MoveUp((target - 1) as u16));
            ops.push(TermOp::ColumnZero);
        }
    } else {
        if prev > 1 {
            ops.push(TermOp::MoveDown((prev - 1) as u16));
        }
        push_newlines(&mut ops, target - prev);
        ops.push(TermOp::MoveUp((target - 1) as u16));
        ops.push(TermOp::ColumnZero);
    }
    assert(ops@ =~= prepare_spec(prev, target));
    ops
}

/// Clearing lines `i..n` of a frame from line `i`: clear each, moving down between them.
pub open spec fn clear_lines(n: nat, i: nat) -> Seq<TermOp>
    decreases n - i,
{
    if i >= n {
        Seq::empty()
    } else if i + 1 < n {
        seq![TermOp::ClearLine, TermOp::MoveDown(1), TermOp::ColumnZero] + clear_lines(n, i + 1)
    } else {
        seq![TermOp::ClearLine]
    }
}

/// Operations that clear a frame of `prev` lines, ending at its first line.
pub open spec fn clear_spec(prev: usize) -> Seq<TermOp> {
    if prev == 0 {
        Seq::empty()
    } else {
        seq![TermOp::ColumnZero] + clear_lines(prev as nat, 0) + (if prev > 1 {
            seq![TermOp::MoveUp((prev - 1) as u16)]
        } else {
            Seq::empty()
        }) + seq![TermOp::ColumnZero]
    }
}

/// The operations that clear the frame on screen (see `clear_spec`).
pub fn clear_previous_frame(prev: usize) -> (r: Vec<TermOp>)
    ensures
        r@ == clear_spec(prev),
{
    let mut ops: Vec<TermOp> = Vec::new();
    if prev == 0 {
        return ops;
    }
    ops.push(TermOp::ColumnZero);
    let mut i: usize = 0;
    while i < prev
        invariant
            i <= prev,
            ops@ + clear_lines(prev as nat, i as nat) == seq![TermOp::ColumnZero] + clear_lines(prev as nat, 0),
        decreases prev - i,
    {
        let ghost before = ops@;
        ops.push(TermOp::ClearLine);
        if i < prev - 1 {
            ops.push(TermOp::MoveDown(1));
            ops.push(TermOp::ColumnZero);
        }
        assert(ops@ + clear_lines(prev as nat, (i + 1) as nat) =~= before + clear_lines(prev as nat, i as nat));
        i += 1;
    }
    assert(clear_lines(prev as nat, prev as nat) =~= Seq::<TermOp>::empty());
    if prev > 1 {
        ops.push(TermOp::MoveUp((prev - 1) as u16));
    }
    ops.push(TermOp::ColumnZero);
    assert(ops@ =~= clear_spec(prev));
    ops
}

/// Printing lines `i..n` in place: each on a cleared line, moving down between them.
pub open spec fn print_lines(n: nat, i: nat) -> Seq<TermOp>
    decreases n - i,
{
    if i >= n {
        Seq::empty()
    } else if i + 1 < n {
        seq![TermOp::ColumnZero, TermOp::ClearLine, TermOp::PrintLine(i as usize), TermOp::MoveDown(1), TermOp::ColumnZero]
            + print_lines(n, i + 1)
    } else {
        seq![TermOp::ColumnZero, TermOp::ClearLine, TermOp::PrintLine(i as usize)]
    }
}

/// Operations that draw a frame of `n` lines in place, ending at its first line.
pub open spec fn print_dynamic_spec(n: usize) -> Seq<TermOp> {
    if n == 0 {
        Seq::empty()
    } else {
        print_lines(n as nat, 0) + (if n > 1 { seq![TermOp::MoveUp((n - 1) as u16)] } else { Seq::empty() }) + seq![
            TermOp::ColumnZero,
        ]
    }
}

/// The operations that draw a frame of `n` lines in place (see `print_dynamic_spec`).
pub fn print_lines_dynamic(n: usize) -> (r: Vec<TermOp>)
    ensures
        r@ == print_dynamic_spec(n),
{
    let mut ops: Vec<TermOp> = Vec::new();
    if n == 0 {
        return ops;
    }
    let mut i: usize = 0;
    while i < n
        invariant
            i <= n,
            ops@ + print_lines(n as nat, i as nat) == print_lines(n as nat, 0),
        decreases n - i,
    {
        let ghost before = ops@;
        ops.push(TermOp::ColumnZero);
        ops.push(TermOp::ClearLine);
        ops.push(TermOp::PrintLine(i));
        if i < n - 1 {
            ops.push(TermOp::MoveDown(1));
            ops.push(TermOp::ColumnZero);
        }
        assert(ops@ + print_lines(n as nat, (i + 1) as nat) =~= before + print_lines(n as nat, i as nat));
        i += 1;
    }
    assert(print_lines(n as nat, n as nat) =~= Seq::<TermOp>::empty());
    if n > 1 {
        ops.push(TermOp::MoveUp((n - 1) as u16));
    }
    ops.push(TermOp::ColumnZero);
    assert(ops@ =~= print_dynamic_spec(n));
    ops
}

/// Printing lines `i..n` for good: each on a cleared line, a line break between them.
pub open spec fn final_lines(n: nat, i: nat) -> Seq<TermOp>
    decreases n - i,
{
    if i >= n {
        Seq::empty()
    } else if i + 1 < n {
        seq![TermOp::ColumnZero, TermOp::ClearLine, TermOp::PrintLine(i as usize), TermOp::NewLine] + final_lines(n, i + 1)
    } else {
        seq![TermOp::ColumnZero, TermOp::ClearLine, TermOp::PrintLine(i as usize)]
    }
}

/// Operations that print a frame of `n` lines for good, a line break after the last.
pub open spec fn print_final_spec(n: usize) -> Seq<TermOp> {
    if n == 0 {
        Seq::empty()
    } else {
        final_lines(n as nat, 0) + seq![TermOp::NewLine]
    }
}

/// The operations that print a frame for good (see `print_final_spec`).
pub fn print_lines_final(n: usize) -> (r: Vec<TermOp>)
    ensures
        r@ == print_final_spec(n),
{
    let mut ops: Vec<TermOp> = Vec::new();
    if n == 0 {
        return ops;
    }
    let mut i: usize = 0;
    while i < n
        invariant
            i <= n,
            ops@ + final_lines(n as nat, i as nat) == final_lines(n as nat, 0),
        decreases n - i,
    {
        let ghost before = ops@;
        ops.push(TermOp::ColumnZero);
        ops.push(TermOp::ClearLine);
        ops.push(TermOp::PrintLine(i));
        if i < n - 1 {
            ops.push(TermOp::NewLine);
        }
        assert(ops@ + final_lines(n as nat, (i + 1) as nat) =~= before + final_lines(n as nat, i as nat));
        i += 1;
    }
    assert(final_lines(n as nat, n as nat) =~= Seq::<TermOp>::empty());
    ops.push(TermOp::NewLine);
    assert(ops@ =~= print_final_spec(n));
    ops
}

/// The operations that end a block: the live frame of `prev` lines is
/// cleared, then the final frame of `n` lines (none for a block removed on
/// finish) is printed for good.
pub fn finish_ops(prev: usize, n: usize) -> (r: Vec<TermOp>)
    ensures
        r@ == clear_spec(prev) + print_final_spec(n),
{
    let mut ops = clear_previous_frame(prev);
    let mut fin = print_lines_final(n);
    ops.append(&mut fin);
    ops
}

} // verus!
