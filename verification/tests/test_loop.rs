use rigging::frame_loop::{
    after_redraw, after_sub_widget, apply_command, before_sub_widget, clear_previous_frame, erase_sub_frame,
    initial_state, key_action, parent_frame_before, prepare_viewport, print_lines_dynamic, print_lines_final,
    tick_action, LoopCommand, LoopState, ParentFrame, SubWidgetPosition, TermOp, TickAction,
};
use rigging::input::{KeyCode, KeyPress};

fn press(code: KeyCode, ctrl: bool) -> KeyPress {
    KeyPress { code, ctrl, alt: false, shift: false }
}

#[test]
fn loop_commands_change_state() {
    let st = initial_state();
    assert!(st.first_render && !st.frozen && st.prev_height == 0);
    let frozen = apply_command(st, LoopCommand::Freeze);
    assert!(frozen.frozen);
    assert!(!apply_command(frozen, LoopCommand::Resume).frozen);
    assert!(apply_command(st, LoopCommand::Invalidate).needs_redraw);
    assert!(apply_command(st, LoopCommand::Finish).finish_requested);
}

#[test]
fn loop_keys_frozen_and_interrupt() {
    let st = initial_state();
    assert_eq!(key_action(&st, &press(KeyCode::Char('a'), false)), (true, false));
    assert_eq!(key_action(&st, &press(KeyCode::Char('c'), true)), (true, true));
    let frozen = apply_command(st, LoopCommand::Freeze);
    assert_eq!(key_action(&frozen, &press(KeyCode::Char('c'), true)), (false, true));
    assert_eq!(key_action(&frozen, &press(KeyCode::Enter, false)), (false, false));
}

#[test]
fn loop_tick_decisions() {
    let st = initial_state();
    assert_eq!(tick_action(&st, true, false, false), TickAction::Redraw);
    let drawn = after_redraw(st, 3);
    assert_eq!(drawn.prev_height, 3);
    assert_eq!(tick_action(&drawn, true, false, false), TickAction::Wait);
    assert_eq!(tick_action(&drawn, true, false, true), TickAction::Redraw);
    assert_eq!(tick_action(&drawn, false, true, true), TickAction::Stop { draw_last: true });
    let finishing = apply_command(drawn, LoopCommand::Finish);
    assert_eq!(tick_action(&finishing, true, false, false), TickAction::Stop { draw_last: false });
    let frozen = apply_command(st, LoopCommand::Freeze);
    assert_eq!(tick_action(&frozen, true, false, true), TickAction::Wait);
}

#[test]
fn loop_terminal_operations() {
    assert_eq!(prepare_viewport(3, 2), vec![]);
    assert_eq!(
        prepare_viewport(0, 3),
        vec![TermOp::NewLine, TermOp::NewLine, TermOp::MoveUp(2), TermOp::ColumnZero]
    );
    assert_eq!(
        prepare_viewport(2, 3),
        vec![TermOp::MoveDown(1), TermOp::NewLine, TermOp::MoveUp(2), TermOp::ColumnZero]
    );
    assert_eq!(clear_previous_frame(0), vec![]);
    assert_eq!(
        clear_previous_frame(2),
        vec![
            TermOp::ColumnZero,
            TermOp::ClearLine,
            TermOp::MoveDown(1),
            TermOp::ColumnZero,
            TermOp::ClearLine,
            TermOp::MoveUp(1),
            TermOp::ColumnZero,
        ]
    );
    assert_eq!(
        print_lines_dynamic(2),
        vec![
            TermOp::ColumnZero,
            TermOp::ClearLine,
            TermOp::PrintLine(0),
            TermOp::MoveDown(1),
            TermOp::ColumnZero,
            TermOp::ColumnZero,
            TermOp::ClearLine,
            TermOp::PrintLine(1),
            TermOp::MoveUp(1),
            TermOp::ColumnZero,
        ]
    );
    assert_eq!(
        print_lines_final(2),
        vec![
            TermOp::ColumnZero,
            TermOp::ClearLine,
            TermOp::PrintLine(0),
            TermOp::NewLine,
            TermOp::ColumnZero,
            TermOp::ClearLine,
            TermOp::PrintLine(1),
            TermOp::NewLine,
        ]
    );
}

#[test]
fn loop_sub_widget_decisions() {
    assert_eq!(parent_frame_before(SubWidgetPosition::Below, true), ParentFrame::Settle);
    assert_eq!(parent_frame_before(SubWidgetPosition::Below, false), ParentFrame::Keep);
    assert_eq!(parent_frame_before(SubWidgetPosition::Above, false), ParentFrame::Clear);
    assert_eq!(parent_frame_before(SubWidgetPosition::Replace, true), ParentFrame::Clear);
    assert!(erase_sub_frame(SubWidgetPosition::Above, false));
    assert!(!erase_sub_frame(SubWidgetPosition::Below, true));
    assert!(erase_sub_frame(SubWidgetPosition::Replace, true));
    let drawn: LoopState = after_redraw(initial_state(), 4);
    assert_eq!(before_sub_widget(drawn, ParentFrame::Keep).prev_height, 4);
    assert_eq!(before_sub_widget(drawn, ParentFrame::Clear).prev_height, 0);
    let back = after_sub_widget(before_sub_widget(drawn, ParentFrame::Settle));
    assert!(back.first_render);
    assert_eq!(tick_action(&back, true, false, false), TickAction::Redraw);
}
