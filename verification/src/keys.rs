use vstd::prelude::*;
use crate::app::{clamped, first_done_in, AppState, TaskFilter, NUM_COLS, confirm_fits};
use crate::clock::Timestamp;
use crate::model::{
    after_delete_back, after_insert, after_move_left, after_move_right, AppMode, DoneEntry,
    FocusArea, Status,
};
use crate::text::utf8_len;

verus! {

/// A key press, as the application reads it from the terminal.
#[derive(Debug, Clone, Copy, PartialEq, Eq, Structural)]
pub enum Key {
    Char(char),
    Left,
    Right,
    Up,
    Down,
    Enter,
    Esc,
    Backspace,
    Home,
    End,
    Other,
}

/// What a key press does in Normal mode.
#[derive(Debug, Clone, Copy, PartialEq, Eq, Structural)]
pub enum NormalAction {
    FocusMemo,
    FocusKanban,
    MemoLeft,
    MemoRight,
    MemoUp,
    MemoDown,
    CreateMemo,
    EditMemoTitle,
    EditMemoDetail,
    DeleteMemo,
    Left,
    Right,
    Up,
    TryDown,
    Create,
    EditTitle,
    EditDetail,
    ReorderDown,
    ReorderUp,
    Advance,
    Retreat,
    DeleteCard,
    Nothing,
}

/// The Normal-mode action of `key` when the focus is in `area`: `m` and `t` switch the
/// panel from anywhere; the other keys act on the focused panel.
pub open spec fn normal_action_spec(area: FocusArea, key: Key) -> NormalAction {
    if key == Key::Char('m') {
        NormalAction::FocusMemo
    } else if key == Key::Char('t') {
        NormalAction::FocusKanban
    } else if area == FocusArea::Memo {
        match key {
            Key::Char('h') | Key::Left => NormalAction::MemoLeft,
            Key::Char('l') | Key::Right => NormalAction::MemoRight,
            Key::Char('k') | Key::Up => NormalAction::MemoUp,
            Key::Char('j') | Key::Down => NormalAction::MemoDown,
            Key::Char('a') => NormalAction::CreateMemo,
            Key::Char('e') => NormalAction::EditMemoTitle,
            Key::Char('E') => NormalAction::EditMemoDetail,
            Key::Char('D') => NormalAction::DeleteMemo,
            _ => NormalAction::Nothing,
        }
    } else {
        match key {
            Key::Char('h') | Key::Left => NormalAction::Left,
            Key::Char('l') | Key::Right => NormalAction::Right,
            Key::Char('k') | Key::Up => NormalAction::Up,
            Key::Char('j') | Key::Down => NormalAction::TryDown,
            Key::Char('a') => NormalAction::Create,
            Key::Char('e') => NormalAction::EditTitle,
            Key::Char('J') => NormalAction::ReorderDown,
            Key::Char('K') => NormalAction::ReorderUp,
            Key::Char('E') => NormalAction::EditDetail,
            Key::Enter => NormalAction::Advance,
            Key::Backspace => NormalAction::Retreat,
            Key::Char('D') => NormalAction::DeleteCard,
            _ => NormalAction::Nothing,
        }
    }
}

/// The Normal-mode action of `key` when the focus is in `area`.
pub fn normal_action(area: FocusArea, key: Key) -> (a: NormalAction)
    ensures
        a == normal_action_spec(area, key),
{
    if key == Key::Char('m') {
        return NormalAction::FocusMemo;
    }
    if key == Key::Char('t') {
        return NormalAction::FocusKanban;
    }
    if area == FocusArea::Memo {
        match key {
            Key::Char('h') | Key::Left => NormalAction::MemoLeft,
            Key::Char('l') | Key::Right => NormalAction::MemoRight,
            Key::Char('k') | Key::Up => NormalAction::MemoUp,
            Key::Char('j') | Key::Down => NormalAction::MemoDown,
            Key::Char('a') => NormalAction::CreateMemo,
            Key::Char('e') => NormalAction::EditMemoTitle,
            Key::Char('E') => NormalAction::EditMemoDetail,
            Key::Char('D') => NormalAction::DeleteMemo,
            _ => NormalAction::Nothing,
        }
    } else {
        match key {
            Key::Char('h') | Key::Left => NormalAction::Left,
            Key::Char('l') | Key::Right => NormalAction::Right,
            Key::Char('k') | Key::Up => NormalAction::Up,
            Key::Char('j') | Key::Down => NormalAction::TryDown,
            Key::Char('a') => NormalAction::Create,
            Key::Char('e') => NormalAction::EditTitle,
            Key::Char('J') => NormalAction::ReorderDown,
            Key::Char('K') => NormalAction::ReorderUp,
            Key::Char('E') => NormalAction::EditDetail,
            Key::Enter => NormalAction::Advance,
            Key::Backspace => NormalAction::Retreat,
            Key::Char('D') => NormalAction::DeleteCard,
            _ => NormalAction::Nothing,
        }
    }
}

/// The message shown when deleting a card leaves its column empty.
pub open spec fn column_empty_message() -> Seq<char> {
    "Column empty"@
}

/// Whether `act` works on the focused column's cards.
pub open spec fn uses_focused_column(act: NormalAction) -> bool {
    act == NormalAction::Up || act == NormalAction::TryDown || act == NormalAction::EditTitle
        || act == NormalAction::EditDetail || act == NormalAction::ReorderDown || act
        == NormalAction::ReorderUp || act == NormalAction::Advance || act == NormalAction::Retreat
        || act == NormalAction::DeleteCard
}

/// What `handle_normal_key` needs of the state for the action of `key`: a focused column
/// for the actions on its cards, a cursor inside the column when a card moves up, and a memo
/// to delete when the list has one.
pub open spec fn normal_key_ok(a: AppState, key: Key) -> bool {
    &&& uses_focused_column(normal_action_spec(a.focus_area, key)) ==> a.focused_col < NUM_COLS
    &&& normal_action_spec(a.focus_area, key) == NormalAction::ReorderUp ==> (a.cursor() == 0
        || a.cursor() < a.board.tasks.column(a.focused_status()).len())
    &&& normal_action_spec(a.focus_area, key) == NormalAction::DeleteMemo ==> (a.board.memos@.len()
        == 0 || a.focused_memo < a.board.memos@.len())
}

/// Handle a key press in Normal mode. When Enter advanced a card and a Done task with its id
/// is on the board, the log entry for it is returned, to be appended to the daily log.
pub fn handle_normal_key(app: &mut AppState, key: Key) -> (logged: Option<DoneEntry>)
    requires
        normal_key_ok(*old(app), key),
    ensures
        match normal_action_spec(old(app).focus_area, key) {
            NormalAction::FocusMemo => {
                &&& final(app).focus_area == FocusArea::Memo
                &&& final(app).board == old(app).board
                &&& final(app).same_focus(*old(app))
                &&& final(app).mode == old(app).mode
                &&& final(app).input == old(app).input
                &&& final(app).status_msg == old(app).status_msg
                &&& final(app).focused_memo == old(app).focused_memo
                &&& final(app).same_regions(*old(app))
            },
            NormalAction::FocusKanban => {
                &&& final(app).focus_area == FocusArea::Kanban
                &&& final(app).board == old(app).board
                &&& final(app).same_focus(*old(app))
                &&& final(app).mode == old(app).mode
                &&& final(app).input == old(app).input
                &&& final(app).status_msg == old(app).status_msg
                &&& final(app).focused_memo == old(app).focused_memo
                &&& final(app).same_regions(*old(app))
            },
            NormalAction::MemoLeft => final(app).memo_left_from(*old(app)),
            NormalAction::MemoRight => final(app).memo_right_from(*old(app)),
            NormalAction::MemoUp => final(app).memo_up_from(*old(app)),
            NormalAction::MemoDown => final(app).memo_down_from(*old(app)),
            NormalAction::CreateMemo => final(app).input_opened(
                *old(app),
                Seq::empty(),
                true,
                true,
                AppMode::InputTitle,
            ),
            NormalAction::EditMemoTitle => if old(app).focused_memo < old(app).board.memos@.len() {
                final(app).input_opened(
                    *old(app),
                    old(app).board.memos@[old(app).focused_memo as int].title@,
                    false,
                    true,
                    AppMode::InputTitle,
                )
            } else {
                final(app).unchanged_from(*old(app))
            },
            NormalAction::EditMemoDetail => if old(app).focused_memo < old(app).board.memos@.len() {
                final(app).input_opened(
                    *old(app),
                    old(app).board.memos@[old(app).focused_memo as int].detail@,
                    false,
                    true,
                    AppMode::InputDetail,
                )
            } else {
                final(app).unchanged_from(*old(app))
            },
            NormalAction::DeleteMemo => final(app).memo_deleted_from(*old(app)),
            NormalAction::Left => final(app).moved_left_from(*old(app)),
            NormalAction::Right => final(app).moved_right_from(*old(app)),
            NormalAction::Up => final(app).moved_up_from(*old(app)),
            NormalAction::TryDown => final(app).tried_down_from(*old(app)),
            NormalAction::Create => final(app).input_opened(
                *old(app),
                Seq::empty(),
                true,
                false,
                AppMode::InputTitle,
            ),
            NormalAction::EditTitle => match old(app).focused_task_spec() {
                Some(t) => final(app).input_opened(*old(app), t.title@, false, false, AppMode::InputTitle),
                None => final(app).unchanged_from(*old(app)),
            },
            NormalAction::EditDetail => match old(app).focused_task_spec() {
                Some(t) => final(app).input_opened(*old(app), t.detail@, false, false, AppMode::InputDetail),
                None => final(app).unchanged_from(*old(app)),
            },
            NormalAction::ReorderDown => final(app).reordered_down_from(*old(app)),
            NormalAction::ReorderUp => final(app).reordered_up_from(*old(app)),
            NormalAction::Advance => {
                &&& exists|now: Timestamp| #[trigger] final(app).advanced_from(*old(app), now)
                &&& final(app).same_board_rest(*old(app))
                &&& final(app).same_ui(*old(app))
            },
            NormalAction::Retreat => {
                &&& final(app).retreated_from(*old(app))
                &&& final(app).same_board_rest(*old(app))
                &&& final(app).same_ui(*old(app))
            },
            NormalAction::DeleteCard => match old(app).focused_task_spec() {
                None => final(app).unchanged_from(*old(app)),
                Some(f) => {
                    &&& final(app).kept_from(*old(app), TaskFilter::WithoutId(f.id))
                    &&& final(app).focused_col == old(app).focused_col
                    &&& final(app).focused_card@ == clamped(old(app).focused_card@, final(app).board.tasks)
                    &&& final(app).same_board_rest(*old(app))
                    &&& final(app).mode == old(app).mode
                    &&& final(app).input == old(app).input
                    &&& final(app).same_panels(*old(app))
                    &&& final(app).board.tasks.column(final(app).focused_status()).len() == 0 ==> (
                    final(app).status_msg matches Some(m) && m@ == column_empty_message())
                    &&& final(app).board.tasks.column(final(app).focused_status()).len() > 0
                        ==> final(app).status_msg == old(app).status_msg
                },
            },
            NormalAction::Nothing => final(app).unchanged_from(*old(app)),
        },
        // A log entry comes back exactly when Enter moved the focused card from Checking to
        // Done: the entry of the first Done task with its id, which is that card when ids
        // are unique.
        match old(app).focused_task_spec() {
            Some(f) if normal_action_spec(old(app).focus_area, key) == NormalAction::Advance
                && f.status == Status::Checking => match first_done_in(
                final(app).board.tasks.flat(),
                f.id,
            ) {
                None => logged is None,
                Some(t) => logged matches Some(e) && e.title == t.title && e.detail == t.detail && (
                t.done_at matches Some(d) ==> e.completed_at == d),
            },
            _ => logged is None,
        },
{
    match normal_action(app.focus_area, key) {
        NormalAction::FocusMemo => {
            app.focus_area = FocusArea::Memo;
        },
        NormalAction::FocusKanban => {
            app.focus_area = FocusArea::Kanban;
        },
        NormalAction::MemoLeft => app.move_memo_left(),
        NormalAction::MemoRight => app.move_memo_right(),
        NormalAction::MemoUp => app.move_memo_up(),
        NormalAction::MemoDown => app.move_memo_down(),
        NormalAction::CreateMemo => app.open_create_memo(),
        NormalAction::EditMemoTitle => app.open_edit_memo_title(),
        NormalAction::EditMemoDetail => app.open_edit_memo_detail(),
        NormalAction::DeleteMemo => app.delete_focused_memo(),
        NormalAction::Left => app.move_left(),
        NormalAction::Right => app.move_right(),
        NormalAction::Up => app.move_up(),
        NormalAction::TryDown => app.kanban_try_move_down(),
        NormalAction::Create => app.open_create(),
        NormalAction::EditTitle => app.open_edit_title(),
        NormalAction::EditDetail => app.open_edit_detail(),
        NormalAction::ReorderDown => {
            app.reorder_task_down();
        },
        NormalAction::ReorderUp => {
            app.reorder_task_up();
        },
        NormalAction::Advance => {
            let reaching_done = match app.focused_task() {
                Some(t) => if t.status == Status::Checking {
                    Some(t.id)
                } else {
                    None
                },
                None => None,
            };
            app.advance_status();
            if let Some(id) = reaching_done {
                return app.make_done_entry_for(id);
            }
        },
        NormalAction::Retreat => app.retreat_status(),
        NormalAction::DeleteCard => {
            if app.focused_task().is_some() {
                app.delete_focused_card();
                let empty = app.tasks_for_column(
                    Status::from_col_index(app.focused_col),
                ).len() == 0;
                if empty {
                    app.status_msg = Some("Column empty".to_owned());
                }
            }
        },
        NormalAction::Nothing => {},
    }
    None
}

/// What a key press does in an input popup.
#[derive(Debug, Clone, Copy, PartialEq, Eq, Structural)]
pub enum InputAction {
    Newline,
    Confirm,
    Cancel,
    DeleteBack,
    Insert(char),
    CursorLeft,
    CursorRight,
    CursorHome,
    CursorEnd,
    Nothing,
}

/// The input-popup action of `key` (with Ctrl held when `ctrl`) in `mode`: Ctrl+J inserts a
/// line break in the detail popup only.
pub open spec fn input_action_spec(mode: AppMode, key: Key, ctrl: bool) -> InputAction {
    if key == Key::Char('j') && ctrl {
        if mode == AppMode::InputDetail {
            InputAction::Newline
        } else {
            InputAction::Nothing
        }
    } else {
        match key {
            Key::Enter => InputAction::Confirm,
            Key::Esc => InputAction::Cancel,
            Key::Backspace => InputAction::DeleteBack,
            Key::Char(c) => InputAction::Insert(c),
            Key::Left => InputAction::CursorLeft,
            Key::Right => InputAction::CursorRight,
            Key::Home => InputAction::CursorHome,
            Key::End => InputAction::CursorEnd,
            _ => InputAction::Nothing,
        }
    }
}

/// The input-popup action of `key` in `mode`.
pub fn input_action(mode: AppMode, key: Key, ctrl: bool) -> (a: InputAction)
    ensures
        a == input_action_spec(mode, key, ctrl),
{
    if key == Key::Char('j') && ctrl {
        if mode == AppMode::InputDetail {
            return InputAction::Newline;
        }
        return InputAction::Nothing;
    }
    match key {
        Key::Enter => InputAction::Confirm,
        Key::Esc => InputAction::Cancel,
        Key::Backspace => InputAction::DeleteBack,
        Key::Char(c) => InputAction::Insert(c),
        Key::Left => InputAction::CursorLeft,
        Key::Right => InputAction::CursorRight,
        Key::Home => InputAction::CursorHome,
        Key::End => InputAction::CursorEnd,
        _ => InputAction::Nothing,
    }
}

/// What `handle_input_key` needs of the state for the action of `key`: to confirm, a focused
/// column and room in the id counter that confirming advances; to edit or move the cursor, the
/// cursor on a character boundary of the buffer (or at an end it does not move past).
pub open spec fn input_key_ok(a: AppState, key: Key, ctrl: bool) -> bool {
    let cur = a.input.cursor;
    match input_action_spec(a.mode, key, ctrl) {
        InputAction::Confirm => a.focused_col < NUM_COLS && confirm_fits(a),
        InputAction::Newline | InputAction::Insert(_) => a.input.cursor_valid(),
        InputAction::DeleteBack | InputAction::CursorLeft => cur == 0 || a.input.cursor_valid(),
        InputAction::CursorRight => cur >= utf8_len(a.input.buffer@) || a.input.cursor_valid(),
        _ => true,
    }
}

/// Handle a key press in an input popup.
pub fn handle_input_key(app: &mut AppState, key: Key, ctrl: bool)
    requires
        input_key_ok(*old(app), key, ctrl),
    ensures
        ({
            let buf = old(app).input.buffer@;
            let cur = old(app).input.cursor as int;
            let edited = final(app).board == old(app).board && final(app).mode == old(app).mode
                && final(app).same_focus(*old(app)) && final(app).status_msg == old(app).status_msg
                && final(app).same_panels(*old(app)) && final(app).input.is_create
                == old(app).input.is_create && final(app).input.is_memo == old(app).input.is_memo;
            match input_action_spec(old(app).mode, key, ctrl) {
                InputAction::Newline => edited && (final(app).input.buffer@, final(app).input.cursor as int)
                    == after_insert(buf, cur, '\n'),
                InputAction::Insert(c) => edited && (final(app).input.buffer@, final(app).input.cursor as int)
                    == after_insert(buf, cur, c),
                InputAction::DeleteBack => edited && (final(app).input.buffer@, final(app).input.cursor as int)
                    == after_delete_back(buf, cur),
                InputAction::CursorLeft => edited && (final(app).input.buffer@, final(app).input.cursor as int)
                    == after_move_left(buf, cur),
                InputAction::CursorRight => edited && (final(app).input.buffer@, final(app).input.cursor as int)
                    == after_move_right(buf, cur),
                InputAction::CursorHome => edited && final(app).input.buffer == old(app).input.buffer
                    && final(app).input.cursor == 0,
                InputAction::CursorEnd => edited && final(app).input.buffer == old(app).input.buffer
                    && final(app).input.cursor == utf8_len(buf),
                InputAction::Confirm => exists|now: Timestamp| #[trigger] final(app).confirmed_from(*old(app), now),
                InputAction::Cancel => final(app).cancelled_from(*old(app)),
                InputAction::Nothing => final(app).unchanged_from(*old(app)),
            }
        }),
        final(app).same_regions(*old(app)),
{
    match input_action(app.mode, key, ctrl) {
        InputAction::Newline => app.input.insert_char('\n'),
        InputAction::Confirm => app.confirm_input(),
        InputAction::Cancel => app.cancel_input(),
        InputAction::DeleteBack => app.input.delete_char_back(),
        InputAction::Insert(c) => app.input.insert_char(c),
        InputAction::CursorLeft => app.input.move_left(),
        InputAction::CursorRight => app.input.move_right(),
        InputAction::CursorHome => app.input.move_home(),
        InputAction::CursorEnd => app.input.move_end(),
        InputAction::Nothing => {},
    }
}

/// Whether a key press ends the program: `q` in Normal mode, or Ctrl+C in any mode.
pub fn is_quit_key(mode: AppMode, key: Key, ctrl: bool) -> (b: bool)
    ensures
        b == ((key == Key::Char('q') && mode == AppMode::Normal) || (key == Key::Char('c') && ctrl)),
{
    (key == Key::Char('q') && mode == AppMode::Normal) || (key == Key::Char('c') && ctrl)
}

/// Whether a key press reorders cards, whose saving waits until the reordering pauses.
pub fn is_reorder_key(mode: AppMode, area: FocusArea, key: Key) -> (b: bool)
    ensures
        b == (mode == AppMode::Normal && area == FocusArea::Kanban && (key == Key::Char('J')
            || key == Key::Char('K'))),
{
    mode == AppMode::Normal && area == FocusArea::Kanban && (key == Key::Char('J') || key
        == Key::Char('K'))
}

/// The Normal-mode keymap. From either panel, `m` focuses the memo panel and `t` the kanban.
/// On the kanban: `h`/Left and `l`/Right move to the previous and next column, `k`/Up and
/// `j`/Down to the previous and next task, `a` adds a task, `e` and `E` edit its title and
/// detail, Enter advances it to the next status and Backspace moves it back, `D` deletes it,
/// `J` and `K` move it down and up within its column. On the memo panel the same letters and
/// arrows move, add, edit and delete memos. Every other key does nothing.
pub proof fn law_normal_keymap(c: char)
    ensures
        normal_action_spec(FocusArea::Kanban, Key::Char('m')) == NormalAction::FocusMemo,
        normal_action_spec(FocusArea::Memo, Key::Char('m')) == NormalAction::FocusMemo,
        normal_action_spec(FocusArea::Kanban, Key::Char('t')) == NormalAction::FocusKanban,
        normal_action_spec(FocusArea::Memo, Key::Char('t')) == NormalAction::FocusKanban,
        normal_action_spec(FocusArea::Kanban, Key::Char('h')) == NormalAction::Left,
        normal_action_spec(FocusArea::Kanban, Key::Left) == NormalAction::Left,
        normal_action_spec(FocusArea::Kanban, Key::Char('l')) == NormalAction::Right,
        normal_action_spec(FocusArea::Kanban, Key::Right) == NormalAction::Right,
        normal_action_spec(FocusArea::Kanban, Key::Char('k')) == NormalAction::Up,
        normal_action_spec(FocusArea::Kanban, Key::Up) == NormalAction::Up,
        normal_action_spec(FocusArea::Kanban, Key::Char('j')) == NormalAction::TryDown,
        normal_action_spec(FocusArea::Kanban, Key::Down) == NormalAction::TryDown,
        normal_action_spec(FocusArea::Kanban, Key::Char('a')) == NormalAction::Create,
        normal_action_spec(FocusArea::Kanban, Key::Char('e')) == NormalAction::EditTitle,
        normal_action_spec(FocusArea::Kanban, Key::Char('E')) == NormalAction::EditDetail,
        normal_action_spec(FocusArea::Kanban, Key::Enter) == NormalAction::Advance,
        normal_action_spec(FocusArea::Kanban, Key::Backspace) == NormalAction::Retreat,
        normal_action_spec(FocusArea::Kanban, Key::Char('D')) == NormalAction::DeleteCard,
        normal_action_spec(FocusArea::Kanban, Key::Char('J')) == NormalAction::ReorderDown,
        normal_action_spec(FocusArea::Kanban, Key::Char('K')) == NormalAction::ReorderUp,
        normal_action_spec(FocusArea::Memo, Key::Char('h')) == NormalAction::MemoLeft,
        normal_action_spec(FocusArea::Memo, Key::Left) == NormalAction::MemoLeft,
        normal_action_spec(FocusArea::Memo, Key::Char('l')) == NormalAction::MemoRight,
        normal_action_spec(FocusArea::Memo, Key::Right) == NormalAction::MemoRight,
        normal_action_spec(FocusArea::Memo, Key::Char('k')) == NormalAction::MemoUp,
        normal_action_spec(FocusArea::Memo, Key::Up) == NormalAction::MemoUp,
        normal_action_spec(FocusArea::Memo, Key::Char('j')) == NormalAction::MemoDown,
        normal_action_spec(FocusArea::Memo, Key::Down) == NormalAction::MemoDown,
        normal_action_spec(FocusArea::Memo, Key::Char('a')) == NormalAction::CreateMemo,
        normal_action_spec(FocusArea::Memo, Key::Char('e')) == NormalAction::EditMemoTitle,
        normal_action_spec(FocusArea::Memo, Key::Char('E')) == NormalAction::EditMemoDetail,
        normal_action_spec(FocusArea::Memo, Key::Char('D')) == NormalAction::DeleteMemo,
        !(c == 'm' || c == 't' || c == 'h' || c == 'l' || c == 'k' || c == 'j' || c == 'a' || c
            == 'e' || c == 'E' || c == 'D' || c == 'J' || c == 'K') ==> normal_action_spec(
            FocusArea::Kanban,
            Key::Char(c),
        ) == NormalAction::Nothing,
        !(c == 'm' || c == 't' || c == 'h' || c == 'l' || c == 'k' || c == 'j' || c == 'a' || c
            == 'e' || c == 'E' || c == 'D') ==> normal_action_spec(FocusArea::Memo, Key::Char(c))
            == NormalAction::Nothing,
        normal_action_spec(FocusArea::Memo, Key::Enter) == NormalAction::Nothing,
        normal_action_spec(FocusArea::Memo, Key::Backspace) == NormalAction::Nothing,
        normal_action_spec(FocusArea::Kanban, Key::Esc) == NormalAction::Nothing,
        normal_action_spec(FocusArea::Memo, Key::Esc) == NormalAction::Nothing,
        normal_action_spec(FocusArea::Kanban, Key::Home) == NormalAction::Nothing,
        normal_action_spec(FocusArea::Kanban, Key::End) == NormalAction::Nothing,
        normal_action_spec(FocusArea::Kanban, Key::Other) == NormalAction::Nothing,
{
}

/// The input popup's keymap: Enter confirms, Esc cancels, Backspace deletes the character
/// before the cursor, the arrows, Home and End move the cursor, any other character is
/// typed in (with Ctrl held, `j` inserts a line break in the detail popup and nothing in the
/// title popup), and every other key does nothing.
pub proof fn law_input_keymap(mode: AppMode, c: char, ctrl: bool)
    ensures
        input_action_spec(mode, Key::Enter, ctrl) == InputAction::Confirm,
        input_action_spec(mode, Key::Esc, ctrl) == InputAction::Cancel,
        input_action_spec(mode, Key::Backspace, ctrl) == InputAction::DeleteBack,
        input_action_spec(mode, Key::Left, ctrl) == InputAction::CursorLeft,
        input_action_spec(mode, Key::Right, ctrl) == InputAction::CursorRight,
        input_action_spec(mode, Key::Home, ctrl) == InputAction::CursorHome,
        input_action_spec(mode, Key::End, ctrl) == InputAction::CursorEnd,
        input_action_spec(AppMode::InputDetail, Key::Char('j'), true) == InputAction::Newline,
        input_action_spec(AppMode::InputTitle, Key::Char('j'), true) == InputAction::Nothing,
        !(c == 'j' && ctrl) ==> input_action_spec(mode, Key::Char(c), ctrl) == InputAction::Insert(c),
        input_action_spec(mode, Key::Up, ctrl) == InputAction::Nothing,
        input_action_spec(mode, Key::Down, ctrl) == InputAction::Nothing,
        input_action_spec(mode, Key::Other, ctrl) == InputAction::Nothing,
{
}

} // verus!
