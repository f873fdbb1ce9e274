use vstd::prelude::*;
use crate::app::{
    advanced_task, clamp_one, clamped, first_done_in, focus_target, keeps, kept, locate,
    relocated, retreated_task, task_at, AppState, TaskFilter, NUM_COLS,
};
use crate::clock::Timestamp;
use crate::model::{
    col_of, first_with_id, lemma_first_with_id, next_of, prev_of, status_at, Status,
    StatusTaskMap, Task,
};

verus! {

/// No two tasks of the board share an id.
pub open spec fn ids_unique(m: StatusTaskMap) -> bool {
    forall|s1: Status, i: int, s2: Status, j: int|
        0 <= i < m.column(s1).len() && 0 <= j < m.column(s2).len() && #[trigger] m.column(s1)[i].id
            == #[trigger] m.column(s2)[j].id ==> s1 == s2 && i == j
}

/// The task at `i` of column `s` is the only one with `id`.
pub open spec fn only_at(m: StatusTaskMap, id: u64, s: Status, i: int) -> bool {
    &&& 0 <= i < m.column(s).len()
    &&& m.column(s)[i].id == id
    &&& forall|x: Status, k: int| 0 <= k < m.column(x).len() && (#[trigger] m.column(x)[k]).id == id
        ==> x == s && k == i
}

proof fn lemma_none_with_id(ts: Seq<Task>, id: u64)
    requires
        forall|k: int| 0 <= k < ts.len() ==> (#[trigger] ts[k]).id != id,
    ensures
        first_with_id(ts, id) is None,
{
}

/// The only task with an id is the one `locate` finds.
proof fn lemma_locate_only(m: StatusTaskMap, id: u64, s: Status, i: int)
    requires
        only_at(m, id, s, i),
    ensures
        locate(m, id) == Some((s, i)),
        first_with_id(m.column(s), id) == Some(i),
{
    assert forall|j: int| 0 <= j < i implies (#[trigger] m.column(s)[j]).id != id by {
        if m.column(s)[j].id == id {
            assert(j == i);
        }
    }
    lemma_first_with_id(m.column(s), id, i);
    assert forall|x: Status| x != s implies first_with_id(#[trigger] m.column(x), id) is None by {
        assert forall|k: int| 0 <= k < m.column(x).len() implies (#[trigger] m.column(x)[k]).id != id by {
            if m.column(x)[k].id == id {
                assert(x == s);
            }
        }
        lemma_none_with_id(m.column(x), id);
    }
    assert(first_with_id(m.todo@, id) == first_with_id(m.column(Status::Todo), id));
    assert(first_with_id(m.doing@, id) == first_with_id(m.column(Status::Doing), id));
    assert(first_with_id(m.checking@, id) == first_with_id(m.column(Status::Checking), id));
    assert(first_with_id(m.done@, id) == first_with_id(m.column(Status::Done), id));
}

/// Where the only task with `id` is, the focus lands on it.
proof fn lemma_focus_target_only(m: StatusTaskMap, id: u64, s: Status, i: int)
    requires
        only_at(m, id, s, i),
        m.column(s)[i].status == s,
    ensures
        focus_target(m, id) == Some((col_of(s), i)),
{
    lemma_locate_only(m, id, s, i);
}

/// A column holds at most `usize::MAX` tasks.
pub proof fn lemma_column_len(m: StatusTaskMap, s: Status)
    ensures
        m.column(s).len() <= usize::MAX,
{
    match s {
        Status::Todo => assert(m.todo.len() == m.todo@.len()),
        Status::Doing => assert(m.doing.len() == m.doing@.len()),
        Status::Checking => assert(m.checking.len() == m.checking@.len()),
        Status::Done => assert(m.done.len() == m.done@.len()),
    }
}

proof fn lemma_status_col(s: Status)
    ensures
        status_at(col_of(s)) == s,
        0 <= col_of(s) < 4,
{
}

/// After the task at `loc` is taken out and `t` (with the same id) put last in the column
/// of its status, on a board whose ids were unique, `t` is the only task with that id.
proof fn lemma_relocated_only(m: StatusTaskMap, m2: StatusTaskMap, loc: (Status, int), t: Task)
    requires
        ids_unique(m),
        0 <= loc.1 < m.column(loc.0).len(),
        t.id == task_at(m, loc).id,
        forall|s: Status| #[trigger] m2.column(s) == relocated(m, loc, t, s),
    ensures
        only_at(m2, t.id, t.status, m2.column(t.status).len() - 1),
        m2.column(t.status)[m2.column(t.status).len() - 1] == t,
{
    let id = t.id;
    let n = t.status;
    assert(m2.column(n) == relocated(m, loc, t, n));
    assert forall|x: Status, k: int| 0 <= k < m2.column(x).len() && (#[trigger] m2.column(x)[k]).id == id
        implies x == n && k == m2.column(n).len() - 1 by {
        assert(m2.column(x) == relocated(m, loc, t, x));
        let rest = if x == loc.0 {
            m.column(x).remove(loc.1)
        } else {
            m.column(x)
        };
        if x == n && k == rest.len() {
        } else {
            assert(k < rest.len());
            assert(m2.column(x)[k] == rest[k]);
            if x == loc.0 {
                let ok = if k < loc.1 {
                    k
                } else {
                    k + 1
                };
                assert(rest[k] == m.column(x)[ok]);
                assert(m.column(x)[ok].id == m.column(loc.0)[loc.1].id);
            } else {
                assert(m.column(x)[k].id == m.column(loc.0)[loc.1].id);
            }
        }
    }
}

/// After a card advances on a board whose ids are unique, the focus is on that card in its
/// new column, and the card is the focused task as it was, moved on one stage (stamped with
/// `now` when it reaches Done).
pub proof fn law_advance_focus_follows(a: AppState, b: AppState, now: Timestamp)
    requires
        a.focused_col < NUM_COLS,
        ids_unique(a.board.tasks),
        b.advanced_from(a, now),
    ensures
        a.focused_task_spec() matches Some(f) ==> match next_of(f.status) {
            Some(n) => b.focused_col == col_of(n) && b.focused_task_spec() == Some(
                advanced_task(f, n, now),
            ),
            None => b.focused_col == col_of(a.focused_status()) ==> b.focused_task_spec() == Some(f),
        },
{
    if a.focused_task_spec() is Some {
        let f = a.focused_task_spec()->0;
        let m = a.board.tasks;
        let st = a.focused_status();
        let c = a.cursor() as int;
        assert(only_at(m, f.id, st, c));
        lemma_locate_only(m, f.id, st, c);
        let loc = (st, c);
        assert(task_at(m, loc) == f);
        match next_of(f.status) {
            Some(n) => {
                let t2 = advanced_task(f, n, now);
                let m2 = b.board.tasks;
                lemma_relocated_only(m, m2, loc, t2);
                let last = m2.column(n).len() - 1;
                lemma_focus_target_only(m2, f.id, n, last);
                lemma_status_col(n);
                lemma_column_len(m2, n);
                assert(b.focused_card@[col_of(n)] == clamp_one(last as usize, m2.column(n).len()));
                assert(b.cursor() == last);
                assert(m2.column(n)[last] == t2);
                assert(b.focused_task_spec() == Some(m2.column(n)[last]));
            },
            None => {
                let m2 = b.board.tasks;
                assert forall|s: Status| #[trigger] m2.column(s) == m.column(s) by {}
                assert(only_at(m2, f.id, st, c));
                lemma_locate_only(m2, f.id, st, c);
                lemma_status_col(st);
                if f.status == st {
                    lemma_focus_target_only(m2, f.id, st, c);
                }
            },
        }
    }
}

/// After a card moves back on a board whose ids are unique, the focus is on that card in
/// its new column, and the card is the focused task as it was, one stage back (without a
/// completion time).
pub proof fn law_retreat_focus_follows(a: AppState, b: AppState)
    requires
        a.focused_col < NUM_COLS,
        ids_unique(a.board.tasks),
        b.retreated_from(a),
    ensures
        a.focused_task_spec() matches Some(f) ==> (prev_of(f.status) matches Some(p) ==> b.focused_col
            == col_of(p) && b.focused_task_spec() == Some(retreated_task(f, p))),
{
    if a.focused_task_spec() is Some {
        let f = a.focused_task_spec()->0;
        let m = a.board.tasks;
        let st = a.focused_status();
        let c = a.cursor() as int;
        assert(only_at(m, f.id, st, c));
        lemma_locate_only(m, f.id, st, c);
        let loc = (st, c);
        assert(task_at(m, loc) == f);
        if prev_of(f.status) is Some {
            let p = prev_of(f.status)->0;
            let t2 = retreated_task(f, p);
            let m2 = b.board.tasks;
            lemma_relocated_only(m, m2, loc, t2);
            let last = m2.column(p).len() - 1;
            lemma_focus_target_only(m2, f.id, p, last);
            lemma_status_col(p);
            lemma_column_len(m2, p);
            assert(b.focused_card@[col_of(p)] == clamp_one(last as usize, m2.column(p).len()));
            assert(b.cursor() == last);
            assert(m2.column(p)[last] == t2);
            assert(b.focused_task_spec() == Some(m2.column(p)[last]));
        }
    }
}

/// Clamping keeps every card cursor inside its column: on a card when the column has one,
/// and at 0 when it is empty. Every operation that changes the board's columns ends so.
pub proof fn law_clamped_in_bounds(cards: Seq<usize>, m: StatusTaskMap)
    requires
        cards.len() == 4,
    ensures
        forall|c: int|
            0 <= c < 4 ==> {
                let len = m.column(status_at(c)).len();
                &&& len > 0 ==> #[trigger] clamped(cards, m)[c] < len
                &&& len == 0 ==> clamped(cards, m)[c] == 0
                &&& cards[c] < len ==> clamped(cards, m)[c] == cards[c]
            },
{
}

/// A filter pass keeps exactly the tasks it should, in their order: everything kept was on
/// the board and passes the filter, and every task that passes the filter is kept.
pub proof fn law_kept_exact(ts: Seq<Task>, f: TaskFilter)
    ensures
        forall|i: int| 0 <= i < kept(ts, f).len() ==> keeps(f, #[trigger] kept(ts, f)[i]) && ts.contains(
            kept(ts, f)[i],
        ),
        forall|i: int| 0 <= i < ts.len() && keeps(f, #[trigger] ts[i]) ==> kept(ts, f).contains(ts[i]),
        kept(ts, f).len() <= ts.len(),
    decreases ts.len(),
{
    if ts.len() > 0 {
        let d = ts.drop_last();
        law_kept_exact(d, f);
        let r = kept(d, f);
        assert forall|i: int| 0 <= i < kept(ts, f).len() implies keeps(f, #[trigger] kept(ts, f)[i]) && ts.contains(
            kept(ts, f)[i],
        ) by {
            if i < r.len() {
                assert(kept(ts, f)[i] == r[i]);
                let j = choose|j: int| 0 <= j < d.len() && d[j] == r[i];
                assert(ts[j] == d[j]);
            } else {
                assert(kept(ts, f)[i] == ts.last());
                assert(ts[ts.len() - 1] == ts.last());
            }
        }
        assert forall|i: int| 0 <= i < ts.len() && keeps(f, #[trigger] ts[i]) implies kept(ts, f).contains(ts[i]) by {
            if i < ts.len() - 1 {
                assert(ts[i] == d[i]);
                let j = choose|j: int| 0 <= j < r.len() && r[j] == d[i];
                assert(kept(ts, f)[j] == r[j]);
            } else {
                assert(kept(ts, f)[r.len() as int] == ts.last());
            }
        }
    }
}

/// Deleting a card leaves no task with its id on the board, and keeps every other task.
pub proof fn law_delete_removes_only_that_id(ts: Seq<Task>, id: u64)
    ensures
        forall|i: int| 0 <= i < kept(ts, TaskFilter::WithoutId(id)).len() ==> (#[trigger] kept(
            ts,
            TaskFilter::WithoutId(id),
        )[i]).id != id,
        forall|i: int| 0 <= i < ts.len() && (#[trigger] ts[i]).id != id ==> kept(
            ts,
            TaskFilter::WithoutId(id),
        ).contains(ts[i]),
{
    law_kept_exact(ts, TaskFilter::WithoutId(id));
    assert forall|i: int| 0 <= i < ts.len() && (#[trigger] ts[i]).id != id implies kept(
        ts,
        TaskFilter::WithoutId(id),
    ).contains(ts[i]) by {
        assert(keeps(TaskFilter::WithoutId(id), ts[i]));
    }
}

/// The daily filter never drops a task that is not Done, nor one finished on that day.
pub proof fn law_daily_filter_keeps_open_tasks(ts: Seq<Task>, day: i64)
    ensures
        forall|i: int|
            0 <= i < ts.len() && ((#[trigger] ts[i]).status != Status::Done || (ts[i].done_at matches Some(
                d,
            ) && crate::clock::local_day(d) == day)) ==> kept(ts, TaskFilter::DoneOnDay(day)).contains(
                ts[i],
            ),
        forall|i: int|
            0 <= i < kept(ts, TaskFilter::DoneOnDay(day)).len() ==> keeps(
                TaskFilter::DoneOnDay(day),
                #[trigger] kept(ts, TaskFilter::DoneOnDay(day))[i],
            ),
{
    law_kept_exact(ts, TaskFilter::DoneOnDay(day));
    assert forall|i: int|
        0 <= i < ts.len() && ((#[trigger] ts[i]).status != Status::Done || (ts[i].done_at matches Some(d)
            && crate::clock::local_day(d) == day)) implies kept(ts, TaskFilter::DoneOnDay(day)).contains(
        ts[i],
    ) by {
        assert(keeps(TaskFilter::DoneOnDay(day), ts[i]));
    }
}

/// Moving a card down and then up again restores its column and its cursor.
pub proof fn law_reorder_down_then_up_restores(col: Seq<Task>, c: int)
    requires
        0 <= c,
        c + 1 < col.len(),
    ensures
        ({
            let d = col.update(c, col[c + 1]).update(c + 1, col[c]);
            d.update(c, d[c + 1]).update(c + 1, d[c]) == col
        }),
{
    let d = col.update(c, col[c + 1]).update(c + 1, col[c]);
    assert(d.update(c, d[c + 1]).update(c + 1, d[c]) =~= col);
}

/// A task created from the input popup is put on top of the Todo column and focused there.
pub proof fn law_create_focuses_new_task(a: AppState, b: AppState, now: Timestamp)
    requires
        b.confirmed_from(a, now),
        a.input.is_create,
        !a.input.is_memo,
        crate::text::trim_spec(a.input.buffer@).len() > 0,
    ensures
        b.focused_col == 0,
        b.cursor() == 0,
        b.focused_task_spec() == Some(b.board.tasks.column(Status::Todo)[0]),
        b.board.tasks.column(Status::Todo)[0].id == a.board.next_id,
{
    let m = b.board.tasks;
    let t = m.column(Status::Todo)[0];
    lemma_first_with_id(m.column(Status::Todo), t.id, 0);
    assert(first_with_id(m.todo@, t.id) == Some(0int));
    assert(locate(m, t.id) == Some((Status::Todo, 0int)));
    assert(focus_target(m, t.id) == Some((0int, 0int)));
}


/// Every task id of the board is below `n`.
pub open spec fn ids_below(m: StatusTaskMap, n: u64) -> bool {
    forall|s: Status, i: int| 0 <= i < m.column(s).len() ==> (#[trigger] m.column(s)[i]).id < n
}

/// Creating a task keeps the ids of a board unique and below the id counter, when they were:
/// the new task takes the counter's id, and the counter moves past it.
pub proof fn law_create_keeps_ids_unique(a: AppState, b: AppState, now: Timestamp)
    requires
        b.confirmed_from(a, now),
        a.input.is_create,
        !a.input.is_memo,
        crate::text::trim_spec(a.input.buffer@).len() > 0,
        ids_unique(a.board.tasks),
        ids_below(a.board.tasks, a.board.next_id),
    ensures
        ids_unique(b.board.tasks),
        ids_below(b.board.tasks, b.board.next_id),
{
    let m = a.board.tasks;
    let m2 = b.board.tasks;
    let t = m2.column(Status::Todo)[0];
    // Position `i` of column `s` of the new board, as a position of the old board.
    assert forall|s: Status, i: int| 0 <= i < m2.column(s).len() && !(s == Status::Todo && i == 0)
        implies #[trigger] m2.column(s)[i] == m.column(s)[if s == Status::Todo { i - 1 } else { i }]
        && 0 <= (if s == Status::Todo { i - 1 } else { i }) < m.column(s).len() by {
        if s == Status::Todo {
            assert(m2.column(s) == seq![t] + m.column(s));
        }
    }
    assert forall|s: Status, i: int| 0 <= i < m2.column(s).len() implies (#[trigger] m2.column(s)[i]).id
        < b.board.next_id by {
        if !(s == Status::Todo && i == 0) {
            let k = if s == Status::Todo { i - 1 } else { i };
            assert(m.column(s)[k].id < a.board.next_id);
        }
    }
    assert forall|s1: Status, i: int, s2: Status, j: int|
        0 <= i < m2.column(s1).len() && 0 <= j < m2.column(s2).len() && #[trigger] m2.column(s1)[i].id
            == #[trigger] m2.column(s2)[j].id implies s1 == s2 && i == j by {
        let first = s1 == Status::Todo && i == 0;
        let second = s2 == Status::Todo && j == 0;
        let k1 = if s1 == Status::Todo { i - 1 } else { i };
        let k2 = if s2 == Status::Todo { j - 1 } else { j };
        if first && !second {
            assert(m.column(s2)[k2].id < a.board.next_id);
        } else if !first && second {
            assert(m.column(s1)[k1].id < a.board.next_id);
        } else if !first && !second {
            assert(m.column(s1)[k1].id == m.column(s2)[k2].id);
        }
    }
}

/// Relocating a card (keeping its id) on a board with unique ids keeps them unique.
proof fn lemma_relocated_unique(m: StatusTaskMap, m2: StatusTaskMap, loc: (Status, int), t: Task)
    requires
        ids_unique(m),
        0 <= loc.1 < m.column(loc.0).len(),
        t.id == task_at(m, loc).id,
        forall|s: Status| #[trigger] m2.column(s) == relocated(m, loc, t, s),
    ensures
        ids_unique(m2),
{
    lemma_relocated_only(m, m2, loc, t);
    let n = t.status;
    let (st, c) = loc;
    assert forall|x: Status, k: int| 0 <= k < m2.column(x).len() && !(x == n && k == m2.column(n).len() - 1)
        implies exists|y: int| 0 <= y < m.column(x).len() && #[trigger] m2.column(x)[k] == m.column(x)[y] by {
        assert(m2.column(x) == relocated(m, loc, t, x));
        if x == st {
            let y = if k < c { k } else { k + 1 };
            assert(m2.column(x)[k] == m.column(x)[y]);
        } else {
            assert(m2.column(x)[k] == m.column(x)[k]);
        }
    }
    assert forall|s1: Status, i: int, s2: Status, j: int|
        0 <= i < m2.column(s1).len() && 0 <= j < m2.column(s2).len() && #[trigger] m2.column(s1)[i].id
            == #[trigger] m2.column(s2)[j].id implies s1 == s2 && i == j by {
        let moved1 = s1 == n && i == m2.column(n).len() - 1;
        let moved2 = s2 == n && j == m2.column(n).len() - 1;
        if !moved1 && !moved2 {
            let y1 = choose|y: int| 0 <= y < m.column(s1).len() && #[trigger] m2.column(s1)[i] == m.column(s1)[y];
            let y2 = choose|y: int| 0 <= y < m.column(s2).len() && #[trigger] m2.column(s2)[j] == m.column(s2)[y];
            assert(m.column(s1)[y1].id == m.column(s2)[y2].id);
            assert(s1 == s2 && y1 == y2);
            if i != j {
                // Two different places of the new board never come from one old place.
                if s1 == st {
                    assert(m2.column(s1)[i] == m.column(s1)[if i < c { i } else { i + 1 }]);
                    assert(m2.column(s1)[j] == m.column(s1)[if j < c { j } else { j + 1 }]);
                } else {
                    assert(m2.column(s1)[i] == m.column(s1)[i]);
                    assert(m2.column(s1)[j] == m.column(s1)[j]);
                }
            }
        }
    }
}

/// Moving a card on to its next stage keeps the ids of the board unique.
pub proof fn law_advance_keeps_ids_unique(a: AppState, b: AppState, now: Timestamp)
    requires
        a.focused_col < NUM_COLS,
        ids_unique(a.board.tasks),
        b.advanced_from(a, now),
    ensures
        ids_unique(b.board.tasks),
{
    let m = a.board.tasks;
    let m2 = b.board.tasks;
    if a.focused_task_spec() is Some {
        let f = a.focused_task_spec()->0;
        let st = a.focused_status();
        let c = a.cursor() as int;
        assert(only_at(m, f.id, st, c));
        lemma_locate_only(m, f.id, st, c);
        if next_of(f.status) is Some {
            lemma_relocated_unique(m, m2, (st, c), advanced_task(f, next_of(f.status)->0, now));
        } else {
            assert forall|s: Status| #[trigger] m2.column(s) == m.column(s) by {}
        }
    } else {
        assert forall|s: Status| #[trigger] m2.column(s) == m.column(s) by {}
    }
}


/// Moving a card back to its previous stage keeps the ids of the board unique.
pub proof fn law_retreat_keeps_ids_unique(a: AppState, b: AppState)
    requires
        a.focused_col < NUM_COLS,
        ids_unique(a.board.tasks),
        b.retreated_from(a),
    ensures
        ids_unique(b.board.tasks),
{
    let m = a.board.tasks;
    let m2 = b.board.tasks;
    if a.focused_task_spec() is Some {
        let f = a.focused_task_spec()->0;
        let st = a.focused_status();
        let c = a.cursor() as int;
        assert(only_at(m, f.id, st, c));
        lemma_locate_only(m, f.id, st, c);
        if prev_of(f.status) is Some {
            lemma_relocated_unique(m, m2, (st, c), retreated_task(f, prev_of(f.status)->0));
        } else {
            assert forall|s: Status| #[trigger] m2.column(s) == m.column(s) by {}
        }
    } else {
        assert forall|s: Status| #[trigger] m2.column(s) == m.column(s) by {}
    }
}


proof fn lemma_first_done_only(s: Seq<Task>, id: u64, p: int)
    requires
        0 <= p < s.len(),
        s[p].id == id,
        s[p].status == Status::Done,
        forall|k: int| 0 <= k < s.len() && (#[trigger] s[k]).id == id ==> k == p,
    ensures
        first_done_in(s, id) == Some(s[p]),
    decreases p,
{
    if p > 0 {
        let d = s.drop_first();
        assert(s[0].id != id);
        assert forall|k: int| 0 <= k < d.len() && (#[trigger] d[k]).id == id implies k == p - 1 by {
            assert(d[k] == s[k + 1]);
        }
        assert(d[p - 1] == s[p]);
        lemma_first_done_only(d, id, p - 1);
    }
}

/// The only task with `id`, last in the Done column, is the first Done task with that id
/// when the board is listed column by column.
proof fn lemma_first_done_in_flat(m: StatusTaskMap, id: u64)
    requires
        m.column(Status::Done).len() > 0,
        only_at(m, id, Status::Done, m.column(Status::Done).len() - 1),
        m.column(Status::Done)[m.column(Status::Done).len() - 1].status == Status::Done,
    ensures
        first_done_in(m.flat(), id) == Some(m.column(Status::Done)[m.column(Status::Done).len() - 1]),
{
    let f = m.flat();
    let a = m.todo@.len();
    let b = m.doing@.len();
    let c = m.checking@.len();
    let d = m.done@.len();
    assert(f.len() == a + b + c + d);
    assert forall|k: int| 0 <= k < f.len() && (#[trigger] f[k]).id == id implies k == f.len() - 1 by {
        if k < a {
            assert(f[k] == m.column(Status::Todo)[k]);
        } else if k < a + b {
            assert(f[k] == m.column(Status::Doing)[k - a]);
        } else if k < a + b + c {
            assert(f[k] == m.column(Status::Checking)[k - a - b]);
        } else {
            assert(f[k] == m.column(Status::Done)[k - a - b - c]);
        }
    }
    assert(f[f.len() - 1] == m.column(Status::Done)[d - 1]);
    lemma_first_done_only(f, id, f.len() - 1);
}

/// On a board whose ids are unique, a card that advances from Checking reaches Done, and
/// the entry logged for it (the first Done task with its id) is that very card, stamped
/// with `now`: every card that reaches Done is logged once, as itself.
pub proof fn law_card_reaching_done_is_the_logged_one(a: AppState, b: AppState, now: Timestamp)
    requires
        a.focused_col < NUM_COLS,
        ids_unique(a.board.tasks),
        b.advanced_from(a, now),
        a.focused_task_spec() matches Some(f) && f.status == Status::Checking,
    ensures
        ({
            let f = a.focused_task_spec()->0;
            first_done_in(b.board.tasks.flat(), f.id) == Some(advanced_task(f, Status::Done, now))
        }),
{
    let f = a.focused_task_spec()->0;
    let m = a.board.tasks;
    let st = a.focused_status();
    let c = a.cursor() as int;
    assert(only_at(m, f.id, st, c));
    lemma_locate_only(m, f.id, st, c);
    assert(task_at(m, (st, c)) == f);
    let t2 = advanced_task(f, Status::Done, now);
    let m2 = b.board.tasks;
    lemma_relocated_only(m, m2, (st, c), t2);
    lemma_first_done_in_flat(m2, f.id);
}


/// No two tasks of `ts` share an id.
pub open spec fn seq_ids_distinct(ts: Seq<Task>) -> bool {
    forall|i: int, j: int| 0 <= i < ts.len() && 0 <= j < ts.len() && #[trigger] ts[i].id == #[trigger] ts[j].id ==> i == j
}

proof fn lemma_kept_distinct(ts: Seq<Task>, f: TaskFilter)
    requires
        seq_ids_distinct(ts),
    ensures
        seq_ids_distinct(kept(ts, f)),
    decreases ts.len(),
{
    if ts.len() > 0 {
        let d = ts.drop_last();
        assert forall|i: int, j: int| 0 <= i < d.len() && 0 <= j < d.len() && #[trigger] d[i].id == #[trigger] d[j].id implies i == j by {
            assert(d[i] == ts[i] && d[j] == ts[j]);
        }
        lemma_kept_distinct(d, f);
        law_kept_exact(d, f);
        let r = kept(d, f);
        if keeps(f, ts.last()) {
            let k = kept(ts, f);
            assert forall|i: int, j: int| 0 <= i < k.len() && 0 <= j < k.len() && #[trigger] k[i].id == #[trigger] k[j].id implies i == j by {
                if i < r.len() && j == r.len() {
                    assert(k[i] == r[i]);
                    let y = choose|y: int| 0 <= y < d.len() && d[y] == r[i];
                    assert(ts[y] == d[y]);
                    assert(ts[ts.len() - 1] == ts.last());
                } else if j < r.len() && i == r.len() {
                    assert(k[j] == r[j]);
                    let y = choose|y: int| 0 <= y < d.len() && d[y] == r[j];
                    assert(ts[y] == d[y]);
                    assert(ts[ts.len() - 1] == ts.last());
                } else if i < r.len() && j < r.len() {
                    assert(k[i] == r[i] && k[j] == r[j]);
                }
            }
        }
    }
}

/// A filter pass (deleting a card, the daily filter) keeps the ids of the board unique.
pub proof fn law_filter_keeps_ids_unique(m: StatusTaskMap, m2: StatusTaskMap, f: TaskFilter)
    requires
        ids_unique(m),
        forall|s: Status| #[trigger] m2.column(s) == kept(m.column(s), f),
    ensures
        ids_unique(m2),
{
    assert forall|s1: Status, i: int, s2: Status, j: int|
        0 <= i < m2.column(s1).len() && 0 <= j < m2.column(s2).len() && #[trigger] m2.column(s1)[i].id
            == #[trigger] m2.column(s2)[j].id implies s1 == s2 && i == j by {
        let c1 = m.column(s1);
        let c2 = m.column(s2);
        assert(m2.column(s1) == kept(c1, f));
        assert(m2.column(s2) == kept(c2, f));
        law_kept_exact(c1, f);
        law_kept_exact(c2, f);
        let y1 = choose|y: int| 0 <= y < c1.len() && c1[y] == kept(c1, f)[i];
        let y2 = choose|y: int| 0 <= y < c2.len() && c2[y] == kept(c2, f)[j];
        assert(m.column(s1)[y1].id == m.column(s2)[y2].id);
        assert(s1 == s2);
        assert forall|x: int, z: int| 0 <= x < c1.len() && 0 <= z < c1.len() && #[trigger] c1[x].id == #[trigger] c1[z].id implies x == z by {
            assert(m.column(s1)[x].id == m.column(s1)[z].id);
        }
        lemma_kept_distinct(c1, f);
    }
}

/// Clamping the memo focus keeps it on a memo when there is one, and at 0 otherwise.
pub proof fn law_memo_focus_in_bounds(x: usize, len: nat)
    ensures
        len > 0 ==> clamp_one(x, len) < len,
        len == 0 ==> clamp_one(x, len) == 0,
        x < len ==> clamp_one(x, len) == x,
{
}


proof fn lemma_relocated_wf(m: StatusTaskMap, m2: StatusTaskMap, loc: (Status, int), t: Task)
    requires
        m.wf(),
        0 <= loc.1 < m.column(loc.0).len(),
        forall|s: Status| #[trigger] m2.column(s) == relocated(m, loc, t, s),
    ensures
        m2.wf(),
{
    assert forall|s: Status, i: int| 0 <= i < m2.column(s).len() implies (#[trigger] m2.column(s)[i]).status == s by {
        assert(m2.column(s) == relocated(m, loc, t, s));
        let rest = if s == loc.0 {
            m.column(s).remove(loc.1)
        } else {
            m.column(s)
        };
        if i < rest.len() {
            if s == loc.0 {
                let k = if i < loc.1 { i } else { i + 1 };
                assert(rest[i] == m.column(s)[k]);
            }
            assert(m2.column(s)[i] == rest[i]);
        }
    }
}

/// Moving a card on to its next stage keeps every task in the column of its own status.
pub proof fn law_advance_keeps_columns_consistent(a: AppState, b: AppState, now: Timestamp)
    requires
        a.focused_col < NUM_COLS,
        a.board.tasks.wf(),
        b.advanced_from(a, now),
    ensures
        b.board.tasks.wf(),
{
    let m = a.board.tasks;
    let m2 = b.board.tasks;
    if a.focused_task_spec() is Some {
        let f = a.focused_task_spec()->0;
        crate::app::lemma_locate(m, f.id);
        crate::app::lemma_locate_some(m, a.focused_status(), a.cursor() as int);
        let loc = locate(m, f.id)->0;
        let t = task_at(m, loc);
        if next_of(t.status) is Some {
            lemma_relocated_wf(m, m2, loc, advanced_task(t, next_of(t.status)->0, now));
        } else {
            assert forall|s: Status| #[trigger] m2.column(s) == m.column(s) by {}
        }
    } else {
        assert forall|s: Status| #[trigger] m2.column(s) == m.column(s) by {}
    }
}

/// Moving a card back to its previous stage keeps every task in the column of its own status.
pub proof fn law_retreat_keeps_columns_consistent(a: AppState, b: AppState)
    requires
        a.focused_col < NUM_COLS,
        a.board.tasks.wf(),
        b.retreated_from(a),
    ensures
        b.board.tasks.wf(),
{
    let m = a.board.tasks;
    let m2 = b.board.tasks;
    if a.focused_task_spec() is Some {
        let f = a.focused_task_spec()->0;
        crate::app::lemma_locate(m, f.id);
        crate::app::lemma_locate_some(m, a.focused_status(), a.cursor() as int);
        let loc = locate(m, f.id)->0;
        let t = task_at(m, loc);
        if prev_of(t.status) is Some {
            lemma_relocated_wf(m, m2, loc, retreated_task(t, prev_of(t.status)->0));
        } else {
            assert forall|s: Status| #[trigger] m2.column(s) == m.column(s) by {}
        }
    } else {
        assert forall|s: Status| #[trigger] m2.column(s) == m.column(s) by {}
    }
}

/// A filter pass keeps every task in the column of its own status.
pub proof fn law_filter_keeps_columns_consistent(m: StatusTaskMap, m2: StatusTaskMap, f: TaskFilter)
    requires
        m.wf(),
        forall|s: Status| #[trigger] m2.column(s) == kept(m.column(s), f),
    ensures
        m2.wf(),
{
    assert forall|s: Status, i: int| 0 <= i < m2.column(s).len() implies (#[trigger] m2.column(s)[i]).status == s by {
        assert(m2.column(s) == kept(m.column(s), f));
        law_kept_exact(m.column(s), f);
        let y = choose|y: int| 0 <= y < m.column(s).len() && m.column(s)[y] == kept(m.column(s), f)[i];
        assert(m.column(s)[y].status == s);
    }
}

/// Creating a task from the input popup keeps every task in the column of its own status.
pub proof fn law_create_keeps_columns_consistent(a: AppState, b: AppState, now: Timestamp)
    requires
        b.confirmed_from(a, now),
        a.input.is_create,
        !a.input.is_memo,
        crate::text::trim_spec(a.input.buffer@).len() > 0,
        a.board.tasks.wf(),
    ensures
        b.board.tasks.wf(),
{
    let m = a.board.tasks;
    let m2 = b.board.tasks;
    let t = m2.column(Status::Todo)[0];
    assert forall|s: Status, i: int| 0 <= i < m2.column(s).len() implies (#[trigger] m2.column(s)[i]).status == s by {
        if s == Status::Todo {
            assert(m2.column(s) == seq![t] + m.column(s));
            if i > 0 {
                assert(m2.column(s)[i] == m.column(s)[i - 1]);
            }
        } else {
            assert(m2.column(s) == m.column(s));
        }
    }
}

} // verus!
