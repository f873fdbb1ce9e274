use tudo::model::{BoardState, InputState, Memo, Status, StatusTaskMap, Task, UrlHitRegion};

// ── StatusTaskMap ────────────────────────────────────────────────────────────

#[test]
fn status_task_map_new_returns_empty_lists() {
    let map = StatusTaskMap::new();
    assert!(map.tasks_for(Status::Todo).is_empty());
    assert!(map.tasks_for(Status::Doing).is_empty());
    assert!(map.tasks_for(Status::Checking).is_empty());
    assert!(map.tasks_for(Status::Done).is_empty());
}

#[test]
fn status_task_map_insert_at_top_places_at_index_zero() {
    let mut map = StatusTaskMap::new();
    let t1 = Task::new(1, "first".to_string());
    let t2 = Task::new(2, "second".to_string());
    map.insert_at_top(Status::Todo, t1);
    map.insert_at_top(Status::Todo, t2);
    let tasks = map.tasks_for(Status::Todo);
    assert_eq!(tasks.len(), 2);
    assert_eq!(tasks[0].id, 2);
    assert_eq!(tasks[1].id, 1);
}

#[test]
fn status_task_map_remove_by_id_removes_correct_task() {
    let mut map = StatusTaskMap::new();
    map.insert_at_top(Status::Todo, Task::new(1, "a".to_string()));
    map.insert_at_top(Status::Todo, Task::new(2, "b".to_string()));
    let removed = map.remove_by_id(Status::Todo, 1);
    assert!(removed.is_some());
    assert_eq!(removed.unwrap().id, 1);
    assert_eq!(map.tasks_for(Status::Todo).len(), 1);
    assert_eq!(map.tasks_for(Status::Todo)[0].id, 2);
}

#[test]
fn status_task_map_remove_by_id_noop_when_not_found() {
    let mut map = StatusTaskMap::new();
    map.insert_at_top(Status::Todo, Task::new(1, "a".to_string()));
    let removed = map.remove_by_id(Status::Todo, 99);
    assert!(removed.is_none());
    assert_eq!(map.tasks_for(Status::Todo).len(), 1);
}

#[test]
fn status_task_map_from_flat_distributes_by_status() {
    let mut t1 = Task::new(1, "todo1".to_string());
    t1.status = Status::Todo;
    let mut t2 = Task::new(2, "doing1".to_string());
    t2.status = Status::Doing;
    let mut t3 = Task::new(3, "todo2".to_string());
    t3.status = Status::Todo;
    let map = StatusTaskMap::from_flat(vec![t1, t2, t3]);
    assert_eq!(map.tasks_for(Status::Todo).len(), 2);
    assert_eq!(map.tasks_for(Status::Doing).len(), 1);
    assert_eq!(map.tasks_for(Status::Checking).len(), 0);
    assert_eq!(map.tasks_for(Status::Todo)[0].id, 1);
    assert_eq!(map.tasks_for(Status::Todo)[1].id, 3);
}

// ── InputState cursor ────────────────────────────────────────────────────────

#[test]
fn cursor_starts_at_zero_on_default() {
    let state = InputState::default();
    assert_eq!(state.cursor, 0);
    assert!(state.cursor <= state.buffer.len());
    assert!(state.buffer.is_char_boundary(state.cursor));
}

#[test]
fn cursor_stays_on_char_boundary_after_insert() {
    let mut state = InputState::default();
    state.insert_char('あ');
    assert!(state.buffer.is_char_boundary(state.cursor));
    assert!(state.cursor <= state.buffer.len());
}

#[test]
fn cursor_stays_on_char_boundary_after_delete() {
    let mut state = InputState::default();
    state.insert_char('あ');
    state.delete_char_back();
    assert!(state.buffer.is_char_boundary(state.cursor));
    assert!(state.cursor <= state.buffer.len());
}

#[test]
fn move_left_at_start_is_noop() {
    let mut state = InputState::default();
    state.set_buffer("hello".to_string());
    state.move_home();
    state.move_left();
    assert_eq!(state.cursor, 0);
}

#[test]
fn move_right_at_end_is_noop() {
    let mut state = InputState::default();
    state.set_buffer("hello".to_string());
    state.move_right();
    assert_eq!(state.cursor, 5);
}

#[test]
fn move_left_ascii() {
    let mut state = InputState::default();
    state.set_buffer("hello".to_string());
    state.move_left();
    assert_eq!(state.cursor, 4);
    state.move_left();
    assert_eq!(state.cursor, 3);
}

#[test]
fn move_right_ascii() {
    let mut state = InputState::default();
    state.set_buffer("hello".to_string());
    state.move_home();
    state.move_right();
    assert_eq!(state.cursor, 1);
    state.move_right();
    assert_eq!(state.cursor, 2);
}

#[test]
fn move_home_goes_to_zero() {
    let mut state = InputState::default();
    state.set_buffer("hello".to_string());
    state.move_home();
    assert_eq!(state.cursor, 0);
}

#[test]
fn move_end_goes_to_buffer_len() {
    let mut state = InputState::default();
    state.set_buffer("hello".to_string());
    state.move_home();
    state.move_end();
    assert_eq!(state.cursor, 5);
}

#[test]
fn move_left_cjk() {
    let mut state = InputState::default();
    state.set_buffer("あい".to_string());
    state.move_left();
    assert_eq!(state.cursor, 3);
    state.move_left();
    assert_eq!(state.cursor, 0);
}

#[test]
fn move_right_cjk() {
    let mut state = InputState::default();
    state.set_buffer("あい".to_string());
    state.move_home();
    state.move_right();
    assert_eq!(state.cursor, 3);
    state.move_right();
    assert_eq!(state.cursor, 6);
}

#[test]
fn move_through_mixed_text() {
    let mut state = InputState::default();
    state.set_buffer("aあb".to_string());
    state.move_home();
    state.move_right();
    assert_eq!(state.cursor, 1);
    state.move_right();
    assert_eq!(state.cursor, 4);
    state.move_right();
    assert_eq!(state.cursor, 5);
    state.move_left();
    assert_eq!(state.cursor, 4);
    state.move_left();
    assert_eq!(state.cursor, 1);
}

#[test]
fn insert_char_at_end() {
    let mut state = InputState::default();
    state.insert_char('h');
    state.insert_char('i');
    assert_eq!(state.buffer, "hi");
    assert_eq!(state.cursor, 2);
}

#[test]
fn insert_char_at_beginning() {
    let mut state = InputState::default();
    state.set_buffer("ello".to_string());
    state.move_home();
    state.insert_char('h');
    assert_eq!(state.buffer, "hello");
    assert_eq!(state.cursor, 1);
}

#[test]
fn insert_char_in_middle() {
    let mut state = InputState::default();
    state.set_buffer("hllo".to_string());
    state.move_home();
    state.move_right();
    state.insert_char('e');
    assert_eq!(state.buffer, "hello");
    assert_eq!(state.cursor, 2);
}

#[test]
fn insert_cjk_char_advances_cursor_by_utf8_len() {
    let mut state = InputState::default();
    state.insert_char('あ');
    assert_eq!(state.buffer, "あ");
    assert_eq!(state.cursor, 3);
}

#[test]
fn delete_char_back_at_end() {
    let mut state = InputState::default();
    state.set_buffer("hello".to_string());
    state.delete_char_back();
    assert_eq!(state.buffer, "hell");
    assert_eq!(state.cursor, 4);
}

#[test]
fn delete_char_back_at_beginning_is_noop() {
    let mut state = InputState::default();
    state.set_buffer("hello".to_string());
    state.move_home();
    state.delete_char_back();
    assert_eq!(state.buffer, "hello");
    assert_eq!(state.cursor, 0);
}

#[test]
fn delete_char_back_in_middle() {
    let mut state = InputState::default();
    state.set_buffer("hello".to_string());
    state.move_home();
    state.move_right();
    state.move_right();
    state.delete_char_back();
    assert_eq!(state.buffer, "hllo");
    assert_eq!(state.cursor, 1);
}

#[test]
fn delete_cjk_char_back() {
    let mut state = InputState::default();
    state.set_buffer("あい".to_string());
    state.delete_char_back();
    assert_eq!(state.buffer, "あ");
    assert_eq!(state.cursor, 3);
}

#[test]
fn set_buffer_moves_cursor_to_end() {
    let mut state = InputState::default();
    state.set_buffer("hello".to_string());
    assert_eq!(state.cursor, 5);
    assert_eq!(state.buffer, "hello");
}

#[test]
fn set_buffer_cjk_cursor_at_end() {
    let mut state = InputState::default();
    state.set_buffer("あい".to_string());
    assert_eq!(state.cursor, 6);
}

#[test]
fn clear_resets_cursor_and_buffer() {
    let mut state = InputState::default();
    state.set_buffer("hello".to_string());
    state.clear();
    assert_eq!(state.cursor, 0);
    assert_eq!(state.buffer, "");
    assert!(!state.is_memo);
}

// ── Memo, hit regions, status and board ──────────────────────────────────────

#[test]
fn memo_new_has_correct_fields() {
    let m = Memo::new(1, "title".to_string());
    assert_eq!(m.id, 1);
    assert_eq!(m.title, "title");
    assert_eq!(m.detail, "");
}

#[test]
fn url_hit_region_fields_accessible() {
    let r = UrlHitRegion {
        row: 3,
        col_start: 10,
        col_end: 30,
        url: "https://example.com".to_string(),
    };
    assert_eq!(r.row, 3u16);
    assert_eq!(r.col_start, 10u16);
    assert_eq!(r.col_end, 30u16);
    assert_eq!(r.url, "https://example.com");
}

#[test]
fn url_hit_region_derives_debug_clone_partialeq() {
    let r = UrlHitRegion {
        row: 1,
        col_start: 0,
        col_end: 5,
        url: "http://x.com".to_string(),
    };
    let r2 = r.clone();
    assert_eq!(r, r2);
    let _ = format!("{:?}", r);
}

#[test]
fn status_next_todo_to_doing() {
    assert_eq!(Status::Todo.next(), Some(Status::Doing));
}

#[test]
fn status_next_doing_to_checking() {
    assert_eq!(Status::Doing.next(), Some(Status::Checking));
}

#[test]
fn status_next_checking_to_done() {
    assert_eq!(Status::Checking.next(), Some(Status::Done));
}

#[test]
fn status_next_done_is_none() {
    assert_eq!(Status::Done.next(), None);
}

#[test]
fn status_prev_done_to_checking() {
    assert_eq!(Status::Done.prev(), Some(Status::Checking));
}

#[test]
fn status_prev_checking_to_doing() {
    assert_eq!(Status::Checking.prev(), Some(Status::Doing));
}

#[test]
fn status_prev_doing_to_todo() {
    assert_eq!(Status::Doing.prev(), Some(Status::Todo));
}

#[test]
fn status_prev_todo_is_none() {
    assert_eq!(Status::Todo.prev(), None);
}

#[test]
fn boardstate_next_id_greater_than_all_task_ids() {
    let board = BoardState::with_tasks(
        vec![
            Task::new(1, "Alpha".to_string()),
            Task::new(2, "Beta".to_string()),
        ],
        3,
    );
    assert!(board.next_id > board.tasks.all_tasks().iter().map(|t| t.id).max().unwrap_or(0));
}

#[test]
fn boardstate_version_is_one() {
    let board = BoardState::default();
    assert_eq!(board.version, 1);
}

#[test]
fn task_title_must_not_be_empty() {
    let result = Task::try_new(1, "  ".to_string());
    assert!(result.is_err());
}

#[test]
fn task_title_valid_when_non_empty() {
    let task = Task::try_new(1, "  hello  ".to_string());
    assert!(task.is_ok());
    assert_eq!(task.unwrap().title, "hello");
}

#[test]
fn input_state_push_char_appends() {
    let mut input = InputState::default();
    input.push_char('h');
    input.push_char('i');
    assert_eq!(input.value(), "hi");
}

#[test]
fn input_state_pop_char_removes_last() {
    let mut input = InputState::default();
    input.push_char('a');
    input.push_char('b');
    input.pop_char();
    assert_eq!(input.value(), "a");
}

#[test]
fn input_state_pop_char_no_op_when_empty() {
    let mut input = InputState::default();
    input.pop_char();
    assert_eq!(input.value(), "");
}

#[test]
fn input_state_clear_resets_buffer() {
    let mut input = InputState::default();
    input.push_char('x');
    input.clear();
    assert_eq!(input.value(), "");
}
