use chrono::{DateTime, Duration, Local};
use tudo::app::{handle_left_click, AppState};
use tudo::clock::Timestamp;
use tudo::keys::{handle_normal_key, Key};
use tudo::model::{AppMode, BoardState, FocusArea, Memo, Status, Task, UrlHitRegion};

/// Build an AppState with the given tasks placed at the specified statuses.
fn make_app_with_tasks(specs: &[(u64, &str, Status)]) -> AppState {
    let tasks: Vec<Task> = specs
        .iter()
        .map(|&(id, title, status)| {
            let mut t = Task::new(id, title.to_string());
            t.status = status;
            t
        })
        .collect();
    let next_id = specs.iter().map(|s| s.0).max().unwrap_or(0) + 1;
    AppState::new(BoardState::with_tasks(tasks, next_id))
}

fn make_app_with_memos(titles: &[&str]) -> AppState {
    let mut app = AppState::new(BoardState::default());
    for (i, &title) in titles.iter().enumerate() {
        app.board.memos.push(Memo::new(i as u64 + 1, title.to_string()));
    }
    app.board.next_memo_id = titles.len() as u64 + 1;
    app
}

fn stamp(dt: DateTime<Local>) -> Timestamp {
    Timestamp {
        secs: dt.timestamp(),
        nanos: dt.timestamp_subsec_nanos(),
        offset_secs: dt.offset().local_minus_utc(),
    }
}

// ── advance / retreat keep focus on the task ─────────────────────────────────

#[test]
fn test_advance_status_keeps_focus_on_task() {
    let mut app = make_app_with_tasks(&[(1, "task", Status::Doing)]);
    app.focused_col = Status::Doing.col_index();
    app.focused_card[Status::Doing.col_index()] = 0;

    app.advance_status();

    assert_eq!(app.focused_col, Status::Checking.col_index());
    assert_eq!(app.focused_card[Status::Checking.col_index()], 0);
}

#[test]
fn test_advance_moves_focus_across_all_statuses() {
    let mut app = make_app_with_tasks(&[(1, "task", Status::Todo)]);
    app.focused_col = Status::Todo.col_index();
    app.focused_card[Status::Todo.col_index()] = 0;

    app.advance_status();
    assert_eq!(app.focused_col, Status::Doing.col_index());
    assert_eq!(app.focused_card[Status::Doing.col_index()], 0);

    app.advance_status();
    assert_eq!(app.focused_col, Status::Checking.col_index());
    assert_eq!(app.focused_card[Status::Checking.col_index()], 0);

    app.advance_status();
    assert_eq!(app.focused_col, Status::Done.col_index());
    assert_eq!(app.focused_card[Status::Done.col_index()], 0);
}

#[test]
fn test_advance_at_done_boundary_preserves_focus() {
    let mut app = make_app_with_tasks(&[(1, "task", Status::Done)]);
    app.focused_col = Status::Done.col_index();
    app.focused_card[Status::Done.col_index()] = 0;

    app.advance_status();

    assert_eq!(app.focused_col, Status::Done.col_index());
    assert_eq!(app.focused_card[Status::Done.col_index()], 0);
}

#[test]
fn test_retreat_status_keeps_focus_on_task() {
    let mut app = make_app_with_tasks(&[(1, "task", Status::Doing)]);
    app.focused_col = Status::Doing.col_index();
    app.focused_card[Status::Doing.col_index()] = 0;

    app.retreat_status();

    assert_eq!(app.focused_col, Status::Todo.col_index());
    assert_eq!(app.focused_card[Status::Todo.col_index()], 0);
}

#[test]
fn test_retreat_moves_focus_across_all_statuses() {
    let mut app = make_app_with_tasks(&[(1, "task", Status::Done)]);
    app.focused_col = Status::Done.col_index();
    app.focused_card[Status::Done.col_index()] = 0;

    app.retreat_status();
    assert_eq!(app.focused_col, Status::Checking.col_index());
    assert_eq!(app.focused_card[Status::Checking.col_index()], 0);

    app.retreat_status();
    assert_eq!(app.focused_col, Status::Doing.col_index());
    assert_eq!(app.focused_card[Status::Doing.col_index()], 0);

    app.retreat_status();
    assert_eq!(app.focused_col, Status::Todo.col_index());
    assert_eq!(app.focused_card[Status::Todo.col_index()], 0);
}

#[test]
fn test_retreat_at_todo_boundary_preserves_focus() {
    let mut app = make_app_with_tasks(&[(1, "task", Status::Todo)]);
    app.focused_col = Status::Todo.col_index();
    app.focused_card[Status::Todo.col_index()] = 0;

    app.retreat_status();

    assert_eq!(app.focused_col, Status::Todo.col_index());
    assert_eq!(app.focused_card[Status::Todo.col_index()], 0);
}

#[test]
fn test_source_column_clamped_when_last_task_moves_out() {
    let mut app =
        make_app_with_tasks(&[(2, "other", Status::Checking), (1, "task", Status::Doing)]);
    app.focused_col = Status::Doing.col_index();
    app.focused_card[Status::Doing.col_index()] = 0;

    app.advance_status();

    assert_eq!(app.focused_col, Status::Checking.col_index());
    assert_eq!(app.focused_card[Status::Checking.col_index()], 1);
    assert_eq!(app.focused_card[Status::Doing.col_index()], 0);
}

// ── Reorder ──────────────────────────────────────────────────────────────────

#[test]
fn test_reorder_task_down_swaps_and_follows_focus() {
    let mut app =
        make_app_with_tasks(&[(1, "first", Status::Todo), (2, "second", Status::Todo)]);
    app.focused_col = Status::Todo.col_index();
    app.focused_card[Status::Todo.col_index()] = 0;

    let moved = app.reorder_task_down();

    assert!(moved);
    assert_eq!(app.focused_card[Status::Todo.col_index()], 1);
    let col = app.tasks_for_column(Status::Todo);
    assert_eq!(col[0].id, 2);
    assert_eq!(col[1].id, 1);
}

#[test]
fn test_reorder_task_down_at_last_is_noop() {
    let mut app = make_app_with_tasks(&[(1, "only", Status::Todo)]);
    app.focused_col = Status::Todo.col_index();
    app.focused_card[Status::Todo.col_index()] = 0;

    let moved = app.reorder_task_down();

    assert!(!moved);
    assert_eq!(app.focused_card[Status::Todo.col_index()], 0);
}

#[test]
fn test_reorder_does_not_affect_other_columns() {
    let mut app = make_app_with_tasks(&[
        (1, "todo-a", Status::Todo),
        (2, "todo-b", Status::Todo),
        (3, "doing-a", Status::Doing),
    ]);
    app.focused_col = Status::Todo.col_index();
    app.focused_card[Status::Todo.col_index()] = 0;
    app.focused_card[Status::Doing.col_index()] = 0;

    app.reorder_task_down();

    let doing = app.tasks_for_column(Status::Doing);
    assert_eq!(doing.len(), 1);
    assert_eq!(doing[0].id, 3);
}

#[test]
fn test_reorder_preserves_task_status() {
    let mut app =
        make_app_with_tasks(&[(1, "first", Status::Doing), (2, "second", Status::Doing)]);
    app.focused_col = Status::Doing.col_index();
    app.focused_card[Status::Doing.col_index()] = 0;

    app.reorder_task_down();

    for task in app.board.tasks.all_tasks() {
        assert_eq!(task.status, Status::Doing);
    }
}

#[test]
fn test_reorder_task_up_swaps_and_follows_focus() {
    let mut app =
        make_app_with_tasks(&[(1, "first", Status::Todo), (2, "second", Status::Todo)]);
    app.focused_col = Status::Todo.col_index();
    app.focused_card[Status::Todo.col_index()] = 1;

    let moved = app.reorder_task_up();

    assert!(moved);
    assert_eq!(app.focused_card[Status::Todo.col_index()], 0);
    let col = app.tasks_for_column(Status::Todo);
    assert_eq!(col[0].id, 2);
    assert_eq!(col[1].id, 1);
}

#[test]
fn test_reorder_task_up_at_first_is_noop() {
    let mut app = make_app_with_tasks(&[(1, "only", Status::Todo)]);
    app.focused_col = Status::Todo.col_index();
    app.focused_card[Status::Todo.col_index()] = 0;

    let moved = app.reorder_task_up();

    assert!(!moved);
    assert_eq!(app.focused_card[Status::Todo.col_index()], 0);
}

// ── Memo create / edit ───────────────────────────────────────────────────────

#[test]
fn memo_create_adds_to_board() {
    let mut app = make_app_with_tasks(&[]);
    app.open_create_memo();
    app.input.buffer = "Buy milk".to_string();
    app.confirm_input();
    assert_eq!(app.board.memos.len(), 1);
    assert_eq!(app.board.memos[0].title, "Buy milk");
}

#[test]
fn memo_create_focuses_new_memo() {
    let mut app = make_app_with_tasks(&[]);
    app.open_create_memo();
    app.input.buffer = "Buy milk".to_string();
    app.confirm_input();
    assert_eq!(app.focus_area, FocusArea::Memo);
    assert_eq!(app.focused_memo, 0);
}

#[test]
fn memo_create_empty_title_rejected() {
    let mut app = make_app_with_tasks(&[]);
    app.open_create_memo();
    app.input.buffer = "  ".to_string();
    app.confirm_input();
    assert!(app.board.memos.is_empty());
    assert!(app.status_msg.is_some());
}

#[test]
fn memo_edit_title() {
    let mut app = make_app_with_tasks(&[]);
    app.board.memos.push(Memo::new(1, "Original".to_string()));
    app.board.next_memo_id = 2;
    app.focus_area = FocusArea::Memo;
    app.focused_memo = 0;
    app.open_edit_memo_title();
    app.input.buffer = "Updated".to_string();
    app.confirm_input();
    assert_eq!(app.board.memos[0].title, "Updated");
}

#[test]
fn memo_edit_detail() {
    let mut app = make_app_with_tasks(&[]);
    app.board.memos.push(Memo::new(1, "A memo".to_string()));
    app.board.next_memo_id = 2;
    app.focus_area = FocusArea::Memo;
    app.focused_memo = 0;
    app.open_edit_memo_detail();
    app.input.buffer = "Some detail".to_string();
    app.confirm_input();
    assert_eq!(app.board.memos[0].detail, "Some detail");
}

// ── Memo navigation ──────────────────────────────────────────────────────────

#[test]
fn memo_enter_from_kanban_bottom() {
    let mut app = make_app_with_tasks(&[(1, "task", Status::Todo)]);
    app.focused_col = 0;
    app.focused_card[0] = 0;
    app.kanban_try_move_down();
    assert_eq!(app.focus_area, FocusArea::Memo);
    assert_eq!(app.focused_memo, 0);
}

#[test]
fn memo_enter_from_empty_kanban_column() {
    let mut app = make_app_with_tasks(&[]);
    app.focused_col = 0;
    app.kanban_try_move_down();
    assert_eq!(app.focus_area, FocusArea::Memo);
}

#[test]
fn memo_exit_to_kanban_from_first_row() {
    let mut app = make_app_with_memos(&["A"]);
    app.focus_area = FocusArea::Memo;
    app.focused_memo = 0;
    app.memo_cols = 4;
    app.move_memo_up();
    assert_eq!(app.focus_area, FocusArea::Kanban);
}

#[test]
fn memo_move_right_advances_index() {
    let mut app = make_app_with_memos(&["A", "B", "C"]);
    app.focus_area = FocusArea::Memo;
    app.focused_memo = 0;
    app.move_memo_right();
    assert_eq!(app.focused_memo, 1);
}

#[test]
fn memo_move_right_boundary_noop() {
    let mut app = make_app_with_memos(&["A", "B"]);
    app.focus_area = FocusArea::Memo;
    app.focused_memo = 1;
    app.move_memo_right();
    assert_eq!(app.focused_memo, 1);
}

#[test]
fn memo_move_left_decrements_index() {
    let mut app = make_app_with_memos(&["A", "B"]);
    app.focus_area = FocusArea::Memo;
    app.focused_memo = 1;
    app.move_memo_left();
    assert_eq!(app.focused_memo, 0);
}

#[test]
fn memo_move_left_boundary_noop() {
    let mut app = make_app_with_memos(&["A", "B"]);
    app.focus_area = FocusArea::Memo;
    app.focused_memo = 0;
    app.move_memo_left();
    assert_eq!(app.focused_memo, 0);
}

#[test]
fn memo_move_down_advances_by_memo_cols() {
    let mut app = make_app_with_memos(&["A", "B", "C", "D"]);
    app.focus_area = FocusArea::Memo;
    app.focused_memo = 0;
    app.memo_cols = 3;
    app.move_memo_down();
    assert_eq!(app.focused_memo, 3);
}

#[test]
fn memo_move_down_last_row_noop() {
    let mut app = make_app_with_memos(&["A", "B", "C"]);
    app.focus_area = FocusArea::Memo;
    app.focused_memo = 0;
    app.memo_cols = 3;
    app.move_memo_down();
    assert_eq!(app.focused_memo, 0);
}

#[test]
fn memo_move_up_row_subtracts_memo_cols() {
    let mut app = make_app_with_memos(&["A", "B", "C", "D"]);
    app.focus_area = FocusArea::Memo;
    app.focused_memo = 3;
    app.memo_cols = 3;
    app.move_memo_up();
    assert_eq!(app.focused_memo, 0);
}

// ── Memo delete ──────────────────────────────────────────────────────────────

#[test]
fn memo_delete_removes_correct_item() {
    let mut app = make_app_with_memos(&["A", "B"]);
    app.focus_area = FocusArea::Memo;
    app.focused_memo = 0;
    app.delete_focused_memo();
    assert_eq!(app.board.memos.len(), 1);
    assert_eq!(app.board.memos[0].id, 2);
}

#[test]
fn memo_delete_clamps_focus() {
    let mut app = make_app_with_memos(&["A", "B"]);
    app.focus_area = FocusArea::Memo;
    app.focused_memo = 1;
    app.delete_focused_memo();
    assert_eq!(app.focused_memo, 0);
}

#[test]
fn memo_delete_last_item_leaves_empty() {
    let mut app = make_app_with_memos(&["A"]);
    app.focus_area = FocusArea::Memo;
    app.focused_memo = 0;
    app.delete_focused_memo();
    assert!(app.board.memos.is_empty());
    assert_eq!(app.focused_memo, 0);
}

// ── Creating a task focuses it ───────────────────────────────────────────────

#[test]
fn test_create_task_focuses_new_task() {
    let mut app = make_app_with_tasks(&[]);
    app.focused_col = 2;
    app.open_create();
    app.input.buffer = "new task".to_string();
    app.confirm_input();

    assert_eq!(app.focused_col, Status::Todo.col_index());
    assert_eq!(app.focused_card[Status::Todo.col_index()], 0);
}

#[test]
fn test_create_task_focuses_new_task_at_top_of_column() {
    let mut app = make_app_with_tasks(&[(1, "existing", Status::Todo)]);
    app.open_create();
    app.input.buffer = "new task".to_string();
    app.confirm_input();

    assert_eq!(app.focused_col, Status::Todo.col_index());
    assert_eq!(app.focused_card[Status::Todo.col_index()], 0);
}

#[test]
fn test_create_task_placed_at_top_of_column_order() {
    let mut app = make_app_with_tasks(&[(1, "existing", Status::Todo)]);
    app.open_create();
    app.input.buffer = "new task".to_string();
    app.confirm_input();

    let col = app.tasks_for_column(Status::Todo);
    assert_eq!(col[0].title, "new task");
    assert_eq!(col[1].title, "existing");
}

#[test]
fn test_create_task_at_top_with_mixed_statuses() {
    let mut app = make_app_with_tasks(&[
        (1, "existing-todo", Status::Todo),
        (2, "doing-task", Status::Doing),
    ]);
    app.open_create();
    app.input.buffer = "newest".to_string();
    app.confirm_input();

    let col = app.tasks_for_column(Status::Todo);
    assert_eq!(col[0].title, "newest");
    assert_eq!(col[1].title, "existing-todo");
    let doing_col = app.tasks_for_column(Status::Doing);
    assert_eq!(doing_col.len(), 1);
    assert_eq!(doing_col[0].id, 2);
}

// ── Focus-switch keys ────────────────────────────────────────────────────────

fn make_app() -> AppState {
    AppState::new(BoardState::default())
}

#[test]
fn test_m_key_focuses_memo() {
    let mut app = make_app();
    app.focus_area = FocusArea::Kanban;
    handle_normal_key(&mut app, Key::Char('m'));
    assert_eq!(app.focus_area, FocusArea::Memo);
}

#[test]
fn test_m_key_idempotent_when_memo_focused() {
    let mut app = make_app();
    app.focus_area = FocusArea::Memo;
    handle_normal_key(&mut app, Key::Char('m'));
    assert_eq!(app.focus_area, FocusArea::Memo);
}

#[test]
fn test_t_key_focuses_kanban() {
    let mut app = make_app();
    app.focus_area = FocusArea::Memo;
    handle_normal_key(&mut app, Key::Char('t'));
    assert_eq!(app.focus_area, FocusArea::Kanban);
}

#[test]
fn test_t_key_idempotent_when_kanban_focused() {
    let mut app = make_app();
    app.focus_area = FocusArea::Kanban;
    handle_normal_key(&mut app, Key::Char('t'));
    assert_eq!(app.focus_area, FocusArea::Kanban);
}

// ── Daily Done filter ────────────────────────────────────────────────────────

#[test]
fn daily_filter_removes_done_tasks_from_previous_days() {
    let mut board = BoardState::default();

    let mut old_task = Task::new(1, "Old done".to_string());
    old_task.status = Status::Done;
    old_task.done_at = Some(stamp(Local::now() - Duration::days(1)));
    board.tasks.tasks_for_mut(Status::Done).push(old_task);

    let mut today_task = Task::new(2, "Today done".to_string());
    today_task.status = Status::Done;
    today_task.done_at = Some(stamp(Local::now()));
    board.tasks.tasks_for_mut(Status::Done).push(today_task);

    board.tasks.tasks_for_mut(Status::Todo).push(Task::new(3, "Active".to_string()));
    board.next_id = 4;

    let mut app = AppState::new(board);
    app.apply_daily_filter();

    let done = app.tasks_for_column(Status::Done);
    let todo = app.tasks_for_column(Status::Todo);

    assert_eq!(done.len(), 1, "only today's Done task should remain");
    assert_eq!(done[0].title, "Today done");
    assert_eq!(todo.len(), 1, "Todo task should be unaffected");
}

// ── Mouse clicks ─────────────────────────────────────────────────────────────

#[test]
fn handle_left_click_preserves_focused_col_and_card() {
    let mut app = AppState::new(BoardState::default());
    app.focused_col = 1;
    app.focused_card[1] = 2;
    app.clickable_urls.push(UrlHitRegion {
        row: 5,
        col_start: 4,
        col_end: 20,
        url: "https://x.com".to_string(),
    });
    handle_left_click(&mut app, 10, 5);
    assert_eq!(app.focused_col, 1, "focused_col must not change");
    assert_eq!(app.focused_card[1], 2, "focused_card must not change");
}

#[test]
fn handle_left_click_non_url_no_status_msg() {
    let mut app = AppState::new(BoardState::default());
    handle_left_click(&mut app, 5, 3);
    assert!(app.status_msg.is_none(), "no status_msg on non-URL click");
}

#[test]
fn handle_left_click_opens_url_on_hit() {
    let mut app = AppState::new(BoardState::default());
    app.clickable_urls.push(UrlHitRegion {
        row: 5,
        col_start: 4,
        col_end: 20,
        url: "https://x.com".to_string(),
    });
    handle_left_click(&mut app, 10, 5);
    assert!(app.status_msg.is_none());
}

#[test]
fn appstate_new_has_empty_clickable_urls() {
    let app = AppState::new(BoardState::default());
    assert!(app.clickable_urls.is_empty());
}

#[test]
fn tasks_for_column_returns_only_matching_status() {
    let mut app = AppState::new(BoardState::default());
    app.board
        .tasks
        .insert_at_top(Status::Todo, Task::new(1, "Todo task".to_string()));
    let mut doing = Task::new(2, "Doing task".to_string());
    doing.status = Status::Doing;
    app.board.tasks.insert_at_top(Status::Doing, doing);

    let todo_tasks = app.tasks_for_column(Status::Todo);
    assert_eq!(todo_tasks.len(), 1);
    assert_eq!(todo_tasks[0].title, "Todo task");

    let doing_tasks = app.tasks_for_column(Status::Doing);
    assert_eq!(doing_tasks.len(), 1);
    assert_eq!(doing_tasks[0].title, "Doing task");
}

#[test]
fn focused_task_returns_correct_task() {
    let mut app = AppState::new(BoardState::default());
    app.board
        .tasks
        .insert_at_top(Status::Todo, Task::new(2, "Second".to_string()));
    app.board
        .tasks
        .insert_at_top(Status::Todo, Task::new(1, "First".to_string()));
    app.focused_col = 0;
    app.focused_card[0] = 0;

    let task = app.focused_task();
    assert!(task.is_some());
    assert_eq!(task.unwrap().title, "First");
}

#[test]
fn focused_task_returns_none_on_empty_column() {
    let app = AppState::new(BoardState::default());
    assert!(app.focused_task().is_none());
}

#[test]
fn advance_status_todo_to_doing() {
    let mut app = AppState::new(BoardState::default());
    app.board
        .tasks
        .insert_at_top(Status::Todo, Task::new(1, "Task".to_string()));
    app.focused_col = 0;
    app.focused_card[0] = 0;

    app.advance_status();
    assert_eq!(app.board.tasks.tasks_for(Status::Doing)[0].status, Status::Doing);
}

#[test]
fn advance_status_done_is_noop() {
    let mut app = AppState::new(BoardState::default());
    let mut task = Task::new(1, "Task".to_string());
    task.status = Status::Done;
    app.board.tasks.insert_at_top(Status::Done, task);
    app.focused_col = 3;

    app.advance_status();
    assert_eq!(app.board.tasks.tasks_for(Status::Done)[0].status, Status::Done);
}

#[test]
fn retreat_status_doing_to_todo() {
    let mut app = AppState::new(BoardState::default());
    let mut task = Task::new(1, "Task".to_string());
    task.status = Status::Doing;
    app.board.tasks.insert_at_top(Status::Doing, task);
    app.focused_col = 1;

    app.retreat_status();
    assert_eq!(app.board.tasks.tasks_for(Status::Todo)[0].status, Status::Todo);
}

#[test]
fn retreat_status_todo_is_noop() {
    let mut app = AppState::new(BoardState::default());
    app.board
        .tasks
        .insert_at_top(Status::Todo, Task::new(1, "Task".to_string()));
    app.focused_col = 0;

    app.retreat_status();
    assert_eq!(app.board.tasks.tasks_for(Status::Todo)[0].status, Status::Todo);
}

#[test]
fn delete_focused_card_removes_task() {
    let mut app = AppState::new(BoardState::default());
    app.board
        .tasks
        .insert_at_top(Status::Todo, Task::new(1, "To delete".to_string()));
    app.focused_col = 0;
    app.focused_card[0] = 0;

    app.delete_focused_card();
    assert!(app.board.tasks.is_empty());
}

#[test]
fn input_mode_after_open_create_is_title() {
    let mut app = make_app();
    app.open_create();
    assert_eq!(app.mode, AppMode::InputTitle);
    assert!(app.input.is_create);
}
