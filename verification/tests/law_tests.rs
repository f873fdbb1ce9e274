use tudo::app::{AppState, NUM_COLS};
use tudo::clock::Timestamp;
use tudo::keys::{
    handle_input_key, handle_normal_key, input_action, is_quit_key, is_reorder_key, normal_action,
    InputAction, Key, NormalAction,
};
use tudo::model::{AppError, AppMode, BoardState, FocusArea, InputState, Status, StatusTaskMap, Task};
use tudo::text::{is_control, is_whitespace, trim};
use tudo::ui::{truncate_str, wrap_lines, wrap_str};
use tudo::url::{extract_url_spans, simulate_wrap};
use tudo::session::{data_dir_choice, save_step, LoopEvent, SaveAction};

fn task(id: u64, title: &str, status: Status) -> Task {
    let mut t = Task::new(id, title.to_string());
    t.status = status;
    t
}

fn app_with(tasks: Vec<Task>, next_id: u64) -> AppState {
    AppState::new(BoardState::with_tasks(tasks, next_id))
}

// ── Focus follows an advanced or retreated card ─────────────────────────────

#[test]
fn advance_puts_card_last_in_next_column_and_focuses_it() {
    let mut app = app_with(
        vec![
            task(1, "a", Status::Todo),
            task(2, "b", Status::Todo),
            task(3, "c", Status::Doing),
        ],
        4,
    );
    app.focused_col = 0;
    app.focused_card[0] = 1;
    app.advance_status();
    let doing = app.tasks_for_column(Status::Doing);
    assert_eq!(doing.len(), 2);
    assert_eq!(doing[1].id, 2);
    assert_eq!(doing[1].status, Status::Doing);
    assert_eq!(app.focused_col, 1);
    assert_eq!(app.focused_card[1], 1);
    assert_eq!(app.focused_task().unwrap().id, 2);
    // The source column keeps its other card, and its cursor is clamped onto it.
    assert_eq!(app.tasks_for_column(Status::Todo).len(), 1);
    assert_eq!(app.focused_card[0], 0);
}

#[test]
fn advance_to_done_stamps_completion_time() {
    let mut app = app_with(vec![task(1, "a", Status::Checking)], 2);
    app.focused_col = 2;
    let now = Timestamp { secs: 1_000_000, nanos: 5, offset_secs: 3600 };
    app.advance_status_at(now);
    let done = app.tasks_for_column(Status::Done);
    assert_eq!(done[0].done_at, Some(now));
    assert_eq!(app.focused_col, 3);
}

#[test]
fn retreat_from_done_clears_completion_time() {
    let mut t = task(1, "a", Status::Done);
    t.done_at = Some(Timestamp { secs: 10, nanos: 0, offset_secs: 0 });
    let mut app = app_with(vec![t], 2);
    app.focused_col = 3;
    app.retreat_status();
    let checking = app.tasks_for_column(Status::Checking);
    assert_eq!(checking.len(), 1);
    assert_eq!(checking[0].done_at, None);
    assert_eq!(app.focused_col, 2);
}

#[test]
fn advance_with_no_focused_card_changes_nothing() {
    let mut app = app_with(vec![task(1, "a", Status::Doing)], 2);
    app.focused_col = 0;
    app.advance_status();
    assert_eq!(app.focused_col, 0);
    assert_eq!(app.tasks_for_column(Status::Doing).len(), 1);
}

// ── Reorder down then up restores ───────────────────────────────────────────

#[test]
fn reorder_down_then_up_restores_column_and_cursor() {
    let mut app = app_with(
        vec![task(1, "a", Status::Todo), task(2, "b", Status::Todo), task(3, "c", Status::Todo)],
        4,
    );
    app.focused_card[0] = 1;
    assert!(app.reorder_task_down());
    assert!(app.reorder_task_up());
    let ids: Vec<u64> = app.tasks_for_column(Status::Todo).iter().map(|t| t.id).collect();
    assert_eq!(ids, vec![1, 2, 3]);
    assert_eq!(app.focused_card[0], 1);
}

// ── Creating keeps ids unique ────────────────────────────────────────────────

#[test]
fn created_tasks_get_fresh_ids() {
    let mut app = app_with(vec![task(1, "a", Status::Doing)], 2);
    for title in ["x", "y"] {
        app.open_create();
        app.input.buffer = title.to_string();
        app.confirm_input();
    }
    let ids: Vec<u64> = app.board.tasks.all_tasks().iter().map(|t| t.id).collect();
    assert_eq!(ids, vec![3, 2, 1]);
    assert_eq!(app.board.next_id, 4);
    assert_eq!(app.focused_task().unwrap().title, "y");
}

#[test]
fn confirm_trims_the_title() {
    let mut app = app_with(vec![], 1);
    app.open_create();
    app.input.buffer = "  spaced  ".to_string();
    app.confirm_input();
    assert_eq!(app.tasks_for_column(Status::Todo)[0].title, "spaced");
    assert_eq!(app.mode, AppMode::Normal);
    assert_eq!(app.input.buffer, "");
}

#[test]
fn confirm_empty_title_reports_it() {
    let mut app = app_with(vec![], 1);
    app.open_create();
    app.input.buffer = " \t ".to_string();
    app.confirm_input();
    assert_eq!(app.status_msg.as_deref(), Some("Title cannot be empty"));
    assert!(app.board.tasks.is_empty());
    assert_eq!(app.mode, AppMode::Normal);
}

#[test]
fn edit_task_title_and_detail() {
    let mut app = app_with(vec![task(1, "old", Status::Doing)], 2);
    app.focused_col = 1;
    app.open_edit_title();
    assert_eq!(app.input.buffer, "old");
    app.input.buffer = "new".to_string();
    app.confirm_input();
    app.open_edit_detail();
    app.input.buffer = "more".to_string();
    app.confirm_input();
    let t = app.focused_task().unwrap();
    assert_eq!(t.title, "new");
    assert_eq!(t.detail, "more");
    assert_eq!(t.status, Status::Doing);
}

// ── Deleting and filtering ───────────────────────────────────────────────────

#[test]
fn delete_removes_every_task_with_the_id() {
    let mut app = app_with(
        vec![task(7, "a", Status::Todo), task(8, "b", Status::Todo), task(7, "c", Status::Done)],
        9,
    );
    app.delete_focused_card();
    let ids: Vec<u64> = app.board.tasks.all_tasks().iter().map(|t| t.id).collect();
    assert_eq!(ids, vec![8]);
    assert_eq!(app.focused_card[0], 0);
}

#[test]
fn daily_filter_on_a_given_day() {
    let mut yesterday = task(1, "old", Status::Done);
    yesterday.done_at = Some(Timestamp { secs: 86_400 * 10 - 1, nanos: 0, offset_secs: 0 });
    let mut today = task(2, "new", Status::Done);
    today.done_at = Some(Timestamp { secs: 86_400 * 10, nanos: 0, offset_secs: 0 });
    let undated = task(3, "undated", Status::Done);
    let open = task(4, "open", Status::Doing);
    let mut app = app_with(vec![yesterday, today, undated, open], 5);
    app.focused_col = 3;
    app.focused_card[3] = 2;
    app.apply_daily_filter_on(10);
    let done: Vec<u64> = app.tasks_for_column(Status::Done).iter().map(|t| t.id).collect();
    assert_eq!(done, vec![2]);
    assert_eq!(app.tasks_for_column(Status::Doing).len(), 1);
    assert_eq!(app.focused_card[3], 0);
}

#[test]
fn local_day_counts_whole_days_in_the_offset() {
    assert_eq!(Timestamp { secs: 0, nanos: 0, offset_secs: 0 }.local_day(), 0);
    assert_eq!(Timestamp { secs: -1, nanos: 0, offset_secs: 0 }.local_day(), -1);
    assert_eq!(Timestamp { secs: 86_399, nanos: 0, offset_secs: 1 }.local_day(), 1);
    assert_eq!(Timestamp { secs: 0, nanos: 0, offset_secs: -3600 }.local_day(), -1);
}

// ── Storage round trip of the columns ────────────────────────────────────────

#[test]
fn from_flat_of_all_tasks_gives_back_the_columns() {
    let mut m = StatusTaskMap::new();
    m.insert_at_top(Status::Done, task(1, "d", Status::Done));
    m.insert_at_top(Status::Todo, task(2, "t1", Status::Todo));
    m.insert_at_top(Status::Todo, task(3, "t2", Status::Todo));
    m.insert_at_top(Status::Checking, task(4, "c", Status::Checking));
    let flat: Vec<Task> = m.all_tasks().into_iter().cloned().collect();
    let back = StatusTaskMap::from_flat(flat);
    for s in [Status::Todo, Status::Doing, Status::Checking, Status::Done] {
        let a: Vec<u64> = m.tasks_for(s).iter().map(|t| t.id).collect();
        let b: Vec<u64> = back.tasks_for(s).iter().map(|t| t.id).collect();
        assert_eq!(a, b);
    }
    assert_eq!(back.len(), 4);
}

// ── Errors and versions ──────────────────────────────────────────────────────

#[test]
fn error_messages() {
    assert_eq!(AppError::VersionMismatch(2).message(), "unsupported data version: 2");
    assert_eq!(AppError::VersionMismatch(1234).message(), "unsupported data version: 1234");
    assert_eq!(AppError::Other("boom".to_string()).message(), "boom");
    let io = AppError::Io(std::io::Error::new(std::io::ErrorKind::Other, "disk"));
    assert_eq!(io.message(), "I/O error: disk");
    let json_err = serde_json::from_str::<serde_json::Value>("{").unwrap_err();
    let text = json_err.to_string();
    assert_eq!(AppError::Json(json_err).message(), format!("JSON error: {}", text));
}

#[test]
fn set_error_shows_the_message() {
    let mut app = app_with(vec![], 1);
    app.set_error(AppError::VersionMismatch(7));
    assert_eq!(app.status_msg.as_deref(), Some("unsupported data version: 7"));
}

#[test]
fn check_version_accepts_only_version_one() {
    let board = BoardState::default();
    assert!(board.check_version().is_ok());
    let mut other = BoardState::default();
    other.version = 2;
    match other.check_version() {
        Err(AppError::VersionMismatch(v)) => assert_eq!(v, 2),
        _ => panic!("version 2 must be refused"),
    }
}

// ── Input editing ────────────────────────────────────────────────────────────

#[test]
fn insert_then_delete_restores_the_buffer() {
    let mut s = InputState::default();
    s.set_buffer("aあb".to_string());
    s.move_left();
    s.insert_char('ü');
    s.delete_char_back();
    assert_eq!(s.buffer, "aあb");
    assert_eq!(s.cursor, 4);
}

#[test]
fn move_right_then_left_restores_the_cursor() {
    let mut s = InputState::default();
    s.set_buffer("xあy".to_string());
    s.move_home();
    s.move_right();
    s.move_right();
    s.move_left();
    assert_eq!(s.cursor, 1);
}

// ── Keys ─────────────────────────────────────────────────────────────────────

#[test]
fn key_actions() {
    assert_eq!(normal_action(FocusArea::Kanban, Key::Char('J')), NormalAction::ReorderDown);
    assert_eq!(normal_action(FocusArea::Memo, Key::Char('J')), NormalAction::Nothing);
    assert_eq!(normal_action(FocusArea::Memo, Key::Down), NormalAction::MemoDown);
    assert_eq!(normal_action(FocusArea::Kanban, Key::Enter), NormalAction::Advance);
    assert_eq!(normal_action(FocusArea::Memo, Key::Char('m')), NormalAction::FocusMemo);
    assert_eq!(input_action(AppMode::InputDetail, Key::Char('j'), true), InputAction::Newline);
    assert_eq!(input_action(AppMode::InputTitle, Key::Char('j'), true), InputAction::Nothing);
    assert_eq!(input_action(AppMode::InputTitle, Key::Char('j'), false), InputAction::Insert('j'));
    assert!(is_quit_key(AppMode::Normal, Key::Char('q'), false));
    assert!(!is_quit_key(AppMode::InputTitle, Key::Char('q'), false));
    assert!(is_quit_key(AppMode::InputTitle, Key::Char('c'), true));
    assert!(is_reorder_key(AppMode::Normal, FocusArea::Kanban, Key::Char('K')));
    assert!(!is_reorder_key(AppMode::Normal, FocusArea::Memo, Key::Char('K')));
}

#[test]
fn enter_on_checking_card_returns_log_entry() {
    let mut app = app_with(vec![task(1, "ship", Status::Checking)], 2);
    app.focused_col = 2;
    let entry = handle_normal_key(&mut app, Key::Enter).expect("entry");
    assert_eq!(entry.title, "ship");
    assert_eq!(app.tasks_for_column(Status::Done).len(), 1);
    assert_eq!(
        app.tasks_for_column(Status::Done)[0].done_at,
        Some(entry.completed_at)
    );
}

#[test]
fn enter_on_todo_card_returns_no_log_entry() {
    let mut app = app_with(vec![task(1, "start", Status::Todo)], 2);
    assert!(handle_normal_key(&mut app, Key::Enter).is_none());
    assert_eq!(app.focused_col, 1);
}

#[test]
fn delete_key_reports_an_emptied_column() {
    let mut app = app_with(vec![task(1, "only", Status::Todo)], 2);
    handle_normal_key(&mut app, Key::Char('D'));
    assert!(app.board.tasks.is_empty());
    assert_eq!(app.status_msg.as_deref(), Some("Column empty"));
}

#[test]
fn typing_in_the_detail_popup() {
    let mut app = app_with(vec![task(1, "t", Status::Todo)], 2);
    handle_normal_key(&mut app, Key::Char('E'));
    assert_eq!(app.mode, AppMode::InputDetail);
    handle_input_key(&mut app, Key::Char('a'), false);
    handle_input_key(&mut app, Key::Char('j'), true);
    handle_input_key(&mut app, Key::Char('b'), false);
    handle_input_key(&mut app, Key::Left, false);
    handle_input_key(&mut app, Key::Backspace, false);
    assert_eq!(app.input.buffer, "ab");
    handle_input_key(&mut app, Key::Enter, false);
    assert_eq!(app.focused_task().unwrap().detail, "ab");
    assert_eq!(app.mode, AppMode::Normal);
}

#[test]
fn moving_right_stops_at_the_last_column() {
    let mut app = app_with(vec![], 1);
    for _ in 0..10 {
        app.move_right();
    }
    assert_eq!(app.focused_col, NUM_COLS - 1);
}

// ── Text helpers agree with std ──────────────────────────────────────────────

#[test]
fn char_classes_agree_with_std() {
    for u in 0u32..=0x10FFFF {
        if let Some(c) = char::from_u32(u) {
            assert_eq!(is_whitespace(c), c.is_whitespace(), "whitespace {:?}", c);
            assert_eq!(is_control(c), c.is_control(), "control {:?}", c);
        }
    }
}

#[test]
fn trim_agrees_with_std() {
    for s in ["", "  ", " a ", "\u{3000}x\u{2029}", "a b", "\n\tq\r\n", "\u{85}z\u{a0}"] {
        assert_eq!(trim(s), s.trim());
    }
}

// ── Wrapping keeps the text and fits the width ───────────────────────────────

#[test]
fn wrapping_keeps_the_text_and_fits_the_width() {
    let s = "aあいうbcdえおxyz";
    let lines = wrap_str(s, 5);
    assert_eq!(lines.concat(), s);
    assert_eq!(lines, vec!["aあい", "うbcd", "えおx", "yz"]);
    let multi = wrap_lines("ab\ncdef", 2);
    assert_eq!(multi, vec!["ab", "cd", "ef"]);
}

#[test]
fn truncation_with_control_characters() {
    assert_eq!(truncate_str("ab\u{7}cd", 3), "ab\u{7}c…");
    assert_eq!(truncate_str("abc", 0), "");
}

#[test]
fn url_spans_lie_inside_the_text_in_order() {
    let text = "x https://a.b y http://c.d/(e) z https://f";
    let spans = extract_url_spans(text);
    assert_eq!(spans, vec![(2, 13), (16, 30), (33, 42)]);
    for w in spans.windows(2) {
        assert!(w[0].1 <= w[1].0);
    }
}

#[test]
fn simulate_wrap_places_every_character() {
    let r = simulate_wrap("ab cd", 3);
    assert_eq!(r, vec![(0, 0, 0), (1, 1, 0), (3, 0, 1), (4, 1, 1)]);
}

// ── Labels, clearing, logging, saving and the data directory ────────────────

#[test]
fn column_labels_follow_the_workflow() {
    assert_eq!(Status::Todo.label(), "Todo");
    assert_eq!(Status::Doing.label(), "In Progress");
    assert_eq!(Status::Checking.label(), "Blocked");
    assert_eq!(Status::Done.label(), "Done");
}

#[test]
fn clear_resets_both_flags() {
    let mut s = InputState::default();
    s.set_buffer("x".to_string());
    s.is_create = true;
    s.is_memo = true;
    s.clear();
    assert!(!s.is_create);
    assert!(!s.is_memo);
    assert_eq!(s.buffer, "");
    assert_eq!(s.cursor, 0);
}

#[test]
fn enter_on_done_card_logs_nothing() {
    let mut app = app_with(vec![task(1, "finished", Status::Done)], 2);
    app.focused_col = 3;
    assert!(handle_normal_key(&mut app, Key::Enter).is_none());
    assert_eq!(app.tasks_for_column(Status::Done).len(), 1);
}

#[test]
fn reorder_key_keeps_other_columns() {
    let mut app = app_with(
        vec![task(1, "a", Status::Todo), task(2, "b", Status::Doing), task(3, "c", Status::Doing)],
        4,
    );
    app.focused_col = 1;
    handle_normal_key(&mut app, Key::Char('J'));
    assert_eq!(app.tasks_for_column(Status::Todo).len(), 1);
    let doing: Vec<u64> = app.tasks_for_column(Status::Doing).iter().map(|t| t.id).collect();
    assert_eq!(doing, vec![3, 2]);
    assert_eq!(app.focused_card[0], 0);
}

#[test]
fn escape_keeps_focus_and_message() {
    let mut app = app_with(vec![task(1, "a", Status::Doing)], 2);
    app.focused_col = 1;
    app.status_msg = Some("hello".to_string());
    handle_normal_key(&mut app, Key::Char('e'));
    app.status_msg = Some("hello".to_string());
    handle_input_key(&mut app, Key::Esc, false);
    assert_eq!(app.mode, AppMode::Normal);
    assert_eq!(app.focused_col, 1);
    assert_eq!(app.status_msg.as_deref(), Some("hello"));
    assert!(!app.input.is_create && !app.input.is_memo);
}

#[test]
fn save_policy() {
    assert_eq!(save_step(false, LoopEvent::Key { reorder: true, quit: false }), (true, SaveAction::Nothing));
    assert_eq!(save_step(true, LoopEvent::Key { reorder: false, quit: false }), (false, SaveAction::Save));
    assert_eq!(save_step(true, LoopEvent::Key { reorder: false, quit: true }), (false, SaveAction::SaveThenQuit));
    assert_eq!(save_step(false, LoopEvent::Key { reorder: false, quit: true }), (false, SaveAction::Quit));
    assert_eq!(save_step(true, LoopEvent::Click), (true, SaveAction::Save));
    assert_eq!(save_step(true, LoopEvent::Tick { since_reorder_ms: 999 }), (true, SaveAction::Nothing));
    assert_eq!(save_step(true, LoopEvent::Tick { since_reorder_ms: 1000 }), (false, SaveAction::Save));
    assert_eq!(save_step(false, LoopEvent::Tick { since_reorder_ms: 5000 }), (false, SaveAction::Nothing));
}

#[test]
fn data_directory_choice() {
    let d = |p: Option<&str>, h: Option<&str>, u: Option<&str>| {
        data_dir_choice(p.map(String::from), h.map(String::from), u.map(String::from), '/')
    };
    assert_eq!(d(Some("/data/tudo"), Some("/home/a"), None).ok(), Some("/data/tudo".to_string()));
    assert_eq!(d(None, Some("/home/a"), Some("/x")).ok(), Some("/home/a/.tudo".to_string()));
    assert_eq!(d(None, Some("/home/a/"), None).ok(), Some("/home/a/.tudo".to_string()));
    assert_eq!(d(None, None, Some("/u")).ok(), Some("/u/.tudo".to_string()));
    match d(None, None, None) {
        Err(AppError::Other(m)) => assert_eq!(
            m,
            "cannot determine application data directory: no valid home directory found"
        ),
        _ => panic!("expected an error"),
    }
}
