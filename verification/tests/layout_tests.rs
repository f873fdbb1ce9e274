use tudo::app::AppState;
use tudo::layout::{
    centered_rect, memo_cell, memo_items_per_row, popup_title, popup_view, status_text,
    task_regions,
};
use tudo::model::{AppMode, BoardState, FocusArea, TaskError};

#[test]
fn centered_rect_takes_the_middle_share() {
    assert_eq!(centered_rect(60, 20, (0, 0, 100, 50)), (20, 20, 60, 10));
    assert_eq!(centered_rect(100, 100, (3, 4, 10, 10)), (3, 4, 10, 10));
}

#[test]
fn status_text_shows_message_or_hint() {
    let mut app = AppState::new(BoardState::default());
    assert_eq!(
        status_text(&app),
        "a:add  e:title  E:detail  Enter:→  BS:←  D:del  J/K:move  j:memo  q:quit"
    );
    app.focus_area = FocusArea::Memo;
    assert_eq!(status_text(&app), "a:add  e:title  E:detail  D:del  hjkl:nav  k:back  q:quit");
    app.status_msg = Some("oops".to_string());
    assert_eq!(status_text(&app), "oops");
}

#[test]
fn popup_titles() {
    assert_eq!(popup_title(AppMode::InputTitle, true, true), " Add Memo ");
    assert_eq!(popup_title(AppMode::InputTitle, true, false), " Edit Memo Title ");
    assert_eq!(popup_title(AppMode::InputDetail, true, true), " Edit Memo Detail ");
    assert_eq!(popup_title(AppMode::InputTitle, false, true), " Add Task ");
    assert_eq!(popup_title(AppMode::InputTitle, false, false), " Edit Title ");
    assert_eq!(popup_title(AppMode::InputDetail, false, false), " Edit Detail ");
}

#[test]
fn popup_scrolls_to_keep_the_cursor_visible() {
    assert_eq!(popup_view(2, 5), (0, Some(2)));
    assert_eq!(popup_view(7, 5), (3, Some(4)));
    assert_eq!(popup_view(0, 0), (0, None));
    assert_eq!(popup_view(3, 0), (0, None));
}

#[test]
fn memo_grid() {
    assert_eq!(memo_items_per_row(10), 1);
    assert_eq!(memo_items_per_row(50), 2);
    let c = memo_cell(3, 2, (1, 10, 46, 3)).expect("cell");
    assert_eq!((c.row, c.col_start, c.col_end, c.memo_index), (11, 25, 47, 3));
    let first = memo_cell(0, 2, (1, 10, 46, 3)).expect("cell");
    assert_eq!((first.row, first.col_start, first.col_end), (10, 1, 25));
    assert!(memo_cell(6, 2, (1, 10, 46, 3)).is_none());
}

#[test]
fn card_regions_stack_with_a_blank_row_between() {
    let r = task_regions(&vec![2, 1, 3], (5, 2, 20, 30), 1);
    let rows: Vec<(u16, u16)> = r.iter().map(|t| (t.row_start, t.row_end)).collect();
    assert_eq!(rows, vec![(3, 5), (6, 7), (8, 11)]);
    assert!(r.iter().all(|t| t.col_start == 5 && t.col_end == 25 && t.column == 1));
    assert_eq!(r[2].card_index, 2);
}

#[test]
fn task_error_message() {
    assert_eq!(TaskError("title must not be empty".to_string()).message(), "invalid task: title must not be empty");
}

#[test]
fn centered_shares_split_the_margins() {
    assert_eq!(tudo::layout::centered_shares(60), (20, 60, 20));
    assert_eq!(tudo::layout::centered_shares(25), (37, 25, 37));
}

#[test]
fn screen_areas_refuse_a_small_terminal() {
    assert!(tudo::layout::screen_areas((0, 0, 39, 30)).is_none());
    assert!(tudo::layout::screen_areas((0, 0, 100, 11)).is_none());
    assert!(tudo::layout::screen_areas((0, 0, 40, 12)).is_some());
}

#[test]
fn screen_areas_split_the_board() {
    let s = tudo::layout::screen_areas((0, 0, 80, 41)).unwrap();
    assert_eq!(s.board, (0, 0, 80, 40));
    assert_eq!(s.kanban, (0, 0, 60, 40));
    assert_eq!(s.status, (0, 40, 80, 1));
    assert_eq!(s.detail, (60, 0, 20, 40));
    assert_eq!(s.memo, (0, 32, 60, 8));
    assert_eq!(
        s.columns,
        vec![(0, 0, 15, 32), (15, 0, 15, 32), (30, 0, 15, 32), (45, 0, 15, 32)]
    );
}

#[test]
fn memo_cells_stop_when_the_panel_is_full() {
    let inner = (1, 10, 46, 3);
    let cells = tudo::layout::memo_cells(10, 2, inner);
    assert_eq!(cells.len(), 6);
    for (k, c) in cells.iter().enumerate() {
        assert_eq!(Some(c.clone()), memo_cell(k, 2, inner));
    }
    assert_eq!(cells[5].row, 12);
    assert_eq!(cells[5].col_start, 25);
    assert_eq!(cells[5].col_end, 47);
    assert_eq!(tudo::layout::memo_cells(4, 2, inner).len(), 4);
}
