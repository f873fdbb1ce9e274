use vstd::prelude::*;
use crate::clock::{local_day, Timestamp};
use crate::text::{trim, trim_spec};
use crate::model::{
    col_of, first_with_id, next_of, prev_of, lemma_first_with_id_found, position_of_id, status_at, AppMode, BoardState,
    AppError, DoneEntry, FocusArea, InputState, error_text, Memo, MemoHitRegion, Status, StatusTaskMap, Task, TaskHitRegion,
    UrlHitRegion,
};

verus! {

/// The number of board columns.
pub const NUM_COLS: usize = 4;

/// The whole state of the running application.
pub struct AppState {
    pub board: BoardState,
    /// Index of the focused column (0 = Todo … 3 = Done).
    pub focused_col: usize,
    /// Per-column card cursor — index into that column's task list.
    pub focused_card: [usize; NUM_COLS],
    pub mode: AppMode,
    pub input: InputState,
    /// Transient message shown in the status bar (errors, hints).
    pub status_msg: Option<String>,
    /// URL hit regions computed during each render frame; cleared at frame start.
    pub clickable_urls: Vec<UrlHitRegion>,
    /// Task card hit regions computed during each render frame.
    pub clickable_tasks: Vec<TaskHitRegion>,
    /// Memo cell hit regions computed during each render frame.
    pub clickable_memos: Vec<MemoHitRegion>,
    /// Whether keyboard focus is in the kanban columns or the memo panel.
    pub focus_area: FocusArea,
    /// Flat index into `board.memos` for the focused memo item.
    pub focused_memo: usize,
    /// Cached items-per-row from the last render frame (default 4).
    pub memo_cols: usize,
}

/// A card cursor kept inside a column of `len` cards (0 for an empty column).
pub open spec fn clamp_one(x: usize, len: nat) -> usize {
    if len == 0 {
        0
    } else if x >= len {
        (len - 1) as usize
    } else {
        x
    }
}

/// Every card cursor of `cards` kept inside its column of `m`.
pub open spec fn clamped(cards: Seq<usize>, m: StatusTaskMap) -> Seq<usize> {
    Seq::new(4, |c: int| clamp_one(cards[c], m.column(status_at(c)).len()))
}

/// Where the first task with `id` lies: its column's status and its index there, looking
/// through the columns from Todo to Done.
pub open spec fn locate(m: StatusTaskMap, id: u64) -> Option<(Status, int)> {
    if first_with_id(m.todo@, id) is Some {
        Some((Status::Todo, first_with_id(m.todo@, id)->0))
    } else if first_with_id(m.doing@, id) is Some {
        Some((Status::Doing, first_with_id(m.doing@, id)->0))
    } else if first_with_id(m.checking@, id) is Some {
        Some((Status::Checking, first_with_id(m.checking@, id)->0))
    } else if first_with_id(m.done@, id) is Some {
        Some((Status::Done, first_with_id(m.done@, id)->0))
    } else {
        None
    }
}

/// The task at a located position.
pub open spec fn task_at(m: StatusTaskMap, loc: (Status, int)) -> Task {
    m.column(loc.0)[loc.1]
}

/// Where the focus goes to follow the task with `id`: the column of its status and its
/// position in that column (0 if it is not found there).
pub open spec fn focus_target(m: StatusTaskMap, id: u64) -> Option<(int, int)> {
    match locate(m, id) {
        None => None,
        Some(loc) => {
            let st = task_at(m, loc).status;
            Some(
                (
                    col_of(st),
                    match first_with_id(m.column(st), id) {
                        Some(p) => p,
                        None => 0,
                    },
                ),
            )
        },
    }
}

/// A located task lies inside its column and carries the id looked for.
pub proof fn lemma_locate(m: StatusTaskMap, id: u64)
    ensures
        locate(m, id) matches Some(loc) ==> 0 <= loc.1 < m.column(loc.0).len() && task_at(m, loc).id
            == id,
{
    lemma_first_with_id_found(m.todo@, id);
    lemma_first_with_id_found(m.doing@, id);
    lemma_first_with_id_found(m.checking@, id);
    lemma_first_with_id_found(m.done@, id);
}

/// A task with `id` at position `i` of column `st` means `locate` finds a task with that id.
pub proof fn lemma_locate_some(m: StatusTaskMap, st: Status, i: int)
    requires
        0 <= i < m.column(st).len(),
    ensures
        locate(m, m.column(st)[i].id) is Some,
{
    let id = m.column(st)[i].id;
    lemma_first_with_id_found(m.column(st), id);
}

/// Finds the first task with `id`, column by column from Todo to Done.
fn find_task(m: &StatusTaskMap, id: u64) -> (r: Option<(Status, usize)>)
    ensures
        match r {
            Some(loc) => locate(*m, id) == Some((loc.0, loc.1 as int)),
            None => locate(*m, id) is None,
        },
{
    proof {
        lemma_locate(*m, id);
    }
    let mut c: usize = 0;
    while c < 4
        invariant
            c <= 4,
            forall|k: int| 0 <= k < c ==> first_with_id(#[trigger] m.column(status_at(k)), id) is None,
        decreases 4 - c,
    {
        let st = Status::from_col_index(c);
        match position_of_id(m.tasks_for(st), id) {
            Some(i) => {
                proof {
                    if c >= 1 {
                        assert(first_with_id(m.column(status_at(0)), id) is None);
                    }
                    if c >= 2 {
                        assert(first_with_id(m.column(status_at(1)), id) is None);
                    }
                    if c >= 3 {
                        assert(first_with_id(m.column(status_at(2)), id) is None);
                    }
                }
                return Some((st, i));
            },
            None => {},
        }
        c += 1;
    }
    assert(first_with_id(m.column(status_at(0)), id) is None);
    assert(first_with_id(m.column(status_at(1)), id) is None);
    assert(first_with_id(m.column(status_at(2)), id) is None);
    assert(first_with_id(m.column(status_at(3)), id) is None);
    None
}

/// What a pass over the board keeps: every task but those with an id, or every task that is
/// not Done unless it was finished on a given local day.
pub enum TaskFilter {
    WithoutId(u64),
    DoneOnDay(i64),
}

/// Whether `f` keeps `t`.
pub open spec fn keeps(f: TaskFilter, t: Task) -> bool {
    match f {
        TaskFilter::WithoutId(id) => t.id != id,
        TaskFilter::DoneOnDay(day) => t.status != Status::Done || (t.done_at matches Some(d)
            && local_day(d) == day),
    }
}

/// The tasks of `ts` that `f` keeps, in their order.
pub open spec fn kept(ts: Seq<Task>, f: TaskFilter) -> Seq<Task>
    decreases ts.len(),
{
    if ts.len() == 0 {
        seq![]
    } else if keeps(f, ts.last()) {
        kept(ts.drop_last(), f).push(ts.last())
    } else {
        kept(ts.drop_last(), f)
    }
}

fn keeps_exec(f: &TaskFilter, t: &Task) -> (b: bool)
    ensures
        b == keeps(*f, *t),
{
    match f {
        TaskFilter::WithoutId(id) => t.id != *id,
        TaskFilter::DoneOnDay(day) => {
            if t.status != Status::Done {
                true
            } else {
                match t.done_at {
                    Some(d) => d.local_day() == *day,
                    None => false,
                }
            }
        },
    }
}

/// Keeps in `list` only the tasks that `f` keeps.
fn retain_tasks(list: &mut Vec<Task>, f: &TaskFilter)
    ensures
        final(list)@ == kept(old(list)@, *f),
{
    let mut all: Vec<Task> = Vec::new();
    std::mem::swap(&mut all, list);
    let ghost orig = all@;
    assert(orig.take(0) =~= Seq::<Task>::empty());
    for t in it: all.into_iter()
        invariant
            it.seq() == orig,
            list@ == kept(orig.take(it.index() as int), *f),
    {
        let ghost k = it.index() as int;
        assert(t == orig[k]);
        assert(orig.take(k + 1).drop_last() =~= orig.take(k));
        assert(orig.take(k + 1).last() == orig[k]);
        if keeps_exec(f, &t) {
            list.push(t);
        }
    }
    assert(orig.take(orig.len() as int) =~= orig);
}

/// Keeps in every column of `m` only the tasks that `f` keeps.
fn retain_board(m: &mut StatusTaskMap, f: &TaskFilter)
    ensures
        forall|s: Status| #[trigger] final(m).column(s) == kept(old(m).column(s), *f),
{
    retain_tasks(&mut m.todo, f);
    retain_tasks(&mut m.doing, f);
    retain_tasks(&mut m.checking, f);
    retain_tasks(&mut m.done, f);
}

/// `t` moved on to stage `to`; reaching Done stamps it with `now`.
pub open spec fn advanced_task(t: Task, to: Status, now: Timestamp) -> Task {
    Task {
        id: t.id,
        title: t.title,
        detail: t.detail,
        status: to,
        created_at: t.created_at,
        done_at: if to == Status::Done {
            Some(now)
        } else {
            t.done_at
        },
    }
}

/// `t` moved back to stage `to`; leaving Done clears its completion time.
pub open spec fn retreated_task(t: Task, to: Status) -> Task {
    Task {
        id: t.id,
        title: t.title,
        detail: t.detail,
        status: to,
        created_at: t.created_at,
        done_at: if to != Status::Done {
            None
        } else {
            t.done_at
        },
    }
}

/// Column `s` of `m` after the task at `loc` is taken out and `t` is put last in the column
/// of its status.
pub open spec fn relocated(m: StatusTaskMap, loc: (Status, int), t: Task, s: Status) -> Seq<Task> {
    let rest = if s == loc.0 {
        m.column(s).remove(loc.1)
    } else {
        m.column(s)
    };
    if s == t.status {
        rest.push(t)
    } else {
        rest
    }
}

/// The focused column after following the task with `id` in `m`.
pub open spec fn followed_col(col: usize, m: StatusTaskMap, id: u64) -> usize {
    match focus_target(m, id) {
        Some(p) => p.0 as usize,
        None => col,
    }
}

/// The card cursors after following the task with `id` in `m` and clamping every cursor.
pub open spec fn followed_cards(cards: Seq<usize>, m: StatusTaskMap, id: u64) -> Seq<usize> {
    clamped(
        match focus_target(m, id) {
            Some(p) => cards.update(p.0, p.1 as usize),
            None => cards,
        },
        m,
    )
}

/// Takes the task at `i` out of column `st`.
fn take_task(m: &mut StatusTaskMap, st: Status, i: usize) -> (t: Task)
    requires
        i < old(m).column(st).len(),
    ensures
        t == old(m).column(st)[i as int],
        final(m).column(st) == old(m).column(st).remove(i as int),
        forall|s: Status| s != st ==> #[trigger] final(m).column(s) == old(m).column(s),
{
    let list = m.tasks_for_mut(st);
    list.remove(i)
}

/// `ms` is `o` with the memo at `i` given `v` as its detail (`detail`) or as its title.
pub open spec fn memo_edited(ms: Seq<Memo>, o: Seq<Memo>, i: int, v: Seq<char>, detail: bool) -> bool {
    &&& ms.len() == o.len()
    &&& forall|j: int| 0 <= j < o.len() && j != i ==> #[trigger] ms[j] == o[j]
    &&& ms[i].id == o[i].id
    &&& if detail {
        ms[i].title == o[i].title && ms[i].detail@ == v
    } else {
        ms[i].detail == o[i].detail && ms[i].title@ == v
    }
}

/// `ts` is `o` with the task at `i` given `v` as its detail (`detail`) or as its title.
pub open spec fn task_edited(ts: Seq<Task>, o: Seq<Task>, i: int, v: Seq<char>, detail: bool) -> bool {
    &&& ts.len() == o.len()
    &&& forall|j: int| 0 <= j < o.len() && j != i ==> #[trigger] ts[j] == o[j]
    &&& ts[i].id == o[i].id
    &&& ts[i].status == o[i].status
    &&& ts[i].created_at == o[i].created_at
    &&& ts[i].done_at == o[i].done_at
    &&& if detail {
        ts[i].title == o[i].title && ts[i].detail@ == v
    } else {
        ts[i].detail == o[i].detail && ts[i].title@ == v
    }
}

/// The message shown when a confirmed title is empty.
pub open spec fn empty_title_message() -> Seq<char> {
    "Title cannot be empty"@
}

/// Confirming would allocate an id: the trimmed input is not empty and it creates an item.
pub open spec fn confirm_allocates(a: AppState) -> bool {
    a.input.is_create && trim_spec(a.input.buffer@).len() > 0
}

/// The id counter that confirming `a` would advance has room left.
pub open spec fn confirm_fits(a: AppState) -> bool {
    confirm_allocates(a) ==> if a.input.is_memo {
        a.board.next_memo_id < u64::MAX
    } else {
        a.board.next_id < u64::MAX
    }
}

/// Moves the task at `i` of column `st` on to its next stage, last in that stage's column;
/// reaching Done stamps it with `now`. A Done task stays.
fn advance_at(m: &mut StatusTaskMap, st: Status, i: usize, now: Timestamp)
    requires
        i < old(m).column(st).len(),
    ensures
        ({
            let t = old(m).column(st)[i as int];
            forall|s: Status| #[trigger] final(m).column(s) == match next_of(t.status) {
                Some(n) => relocated(*old(m), (st, i as int), advanced_task(t, n, now), s),
                None => old(m).column(s),
            }
        }),
{
    let cur = m.tasks_for(st)[i].status;
    match cur.next() {
        None => {},
        Some(next) => {
            let mut t = take_task(m, st, i);
            t.status = next;
            if next == Status::Done {
                t.done_at = Some(now);
            }
            m.tasks_for_mut(next).push(t);
        },
    }
}

/// Moves the task at `i` of column `st` back to its previous stage, last in that stage's
/// column, without a completion time. A Todo task stays.
fn retreat_at(m: &mut StatusTaskMap, st: Status, i: usize)
    requires
        i < old(m).column(st).len(),
    ensures
        ({
            let t = old(m).column(st)[i as int];
            forall|s: Status| #[trigger] final(m).column(s) == match prev_of(t.status) {
                Some(p) => relocated(*old(m), (st, i as int), retreated_task(t, p), s),
                None => old(m).column(s),
            }
        }),
{
    let cur = m.tasks_for(st)[i].status;
    match cur.prev() {
        None => {},
        Some(prev) => {
            let mut t = take_task(m, st, i);
            t.status = prev;
            if prev != Status::Done {
                t.done_at = None;
            }
            m.tasks_for_mut(prev).push(t);
        },
    }
}

impl AppState {
    /// The focused column's status.
    pub open spec fn focused_status(&self) -> Status {
        status_at(self.focused_col as int)
    }

    /// The card cursor of the focused column.
    pub open spec fn cursor(&self) -> usize {
        self.focused_card@[self.focused_col as int]
    }

    /// The focused task, if the cursor of the focused column is on a card.
    pub open spec fn focused_task_spec(&self) -> Option<Task> {
        let col = self.board.tasks.column(self.focused_status());
        if self.cursor() < col.len() {
            Some(col[self.cursor() as int])
        } else {
            None
        }
    }

    /// The parts of the board other than its tasks are those of `o`.
    pub open spec fn same_board_rest(&self, o: AppState) -> bool {
        &&& self.board.version == o.board.version
        &&& self.board.next_id == o.board.next_id
        &&& self.board.saved_at == o.board.saved_at
        &&& self.board.memos == o.board.memos
        &&& self.board.next_memo_id == o.board.next_memo_id
    }

    /// The interface state (mode, input, message, hit regions, memo focus) is that of `o`.
    pub open spec fn same_ui(&self, o: AppState) -> bool {
        &&& self.mode == o.mode
        &&& self.input == o.input
        &&& self.status_msg == o.status_msg
        &&& self.same_panels(o)
    }

    /// The hit regions, the focused area and the memo focus are those of `o`.
    pub open spec fn same_panels(&self, o: AppState) -> bool {
        &&& self.same_regions(o)
        &&& self.focus_area == o.focus_area
        &&& self.focused_memo == o.focused_memo
    }

    /// The hit regions and the memo grid width of the last frame are those of `o`.
    pub open spec fn same_regions(&self, o: AppState) -> bool {
        &&& self.clickable_urls == o.clickable_urls
        &&& self.clickable_tasks == o.clickable_tasks
        &&& self.clickable_memos == o.clickable_memos
        &&& self.memo_cols == o.memo_cols
    }

    /// `self` is `o` with the input popup opened in `mode` on `text` (cursor at its start),
    /// for creating (`create`) or editing, a memo (`memo`) or a task; nothing else changed.
    pub open spec fn input_opened(
        &self,
        o: AppState,
        text: Seq<char>,
        create: bool,
        memo: bool,
        mode: AppMode,
    ) -> bool {
        &&& self.input.buffer@ == text
        &&& self.input.cursor == 0
        &&& self.input.is_create == create
        &&& self.input.is_memo == memo
        &&& self.mode == mode
        &&& self.status_msg is None
        &&& self.board == o.board
        &&& self.same_focus(o)
        &&& self.same_panels(o)
    }

    /// The kanban focus (column and card cursors) is that of `o`.
    pub open spec fn same_focus(&self, o: AppState) -> bool {
        &&& self.focused_col == o.focused_col
        &&& self.focused_card == o.focused_card
    }

    /// The tasks of every column are those of `o`.
    pub open spec fn same_tasks(&self, o: AppState) -> bool {
        forall|s: Status| #[trigger] self.board.tasks.column(s) == o.board.tasks.column(s)
    }

    /// `self` is `o` after its focused card moved on one stage (a card reaching Done stamped
    /// with `now`) and the focus followed it; without a focused card, nothing moved.
    pub open spec fn advanced_from(&self, o: AppState, now: Timestamp) -> bool {
        &&& o.focused_task_spec() is None ==> self.same_tasks(o) && self.same_focus(o)
        &&& o.focused_task_spec() matches Some(f) ==> {
            let m = o.board.tasks;
            let loc = locate(m, f.id)->0;
            let t = task_at(m, loc);
            &&& forall|s: Status| #[trigger] self.board.tasks.column(s) == match next_of(t.status) {
                Some(n) => relocated(m, loc, advanced_task(t, n, now), s),
                None => m.column(s),
            }
            &&& self.focused_col == followed_col(o.focused_col, self.board.tasks, f.id)
            &&& self.focused_card@ == followed_cards(o.focused_card@, self.board.tasks, f.id)
        }
    }

    /// `self` is `o` after its focused card moved back one stage and the focus followed it;
    /// without a focused card, nothing moved.
    pub open spec fn retreated_from(&self, o: AppState) -> bool {
        &&& o.focused_task_spec() is None ==> self.same_tasks(o) && self.same_focus(o)
        &&& o.focused_task_spec() matches Some(f) ==> {
            let m = o.board.tasks;
            let loc = locate(m, f.id)->0;
            let t = task_at(m, loc);
            &&& forall|s: Status| #[trigger] self.board.tasks.column(s) == match prev_of(t.status) {
                Some(p) => relocated(m, loc, retreated_task(t, p), s),
                None => m.column(s),
            }
            &&& self.focused_col == followed_col(o.focused_col, self.board.tasks, f.id)
            &&& self.focused_card@ == followed_cards(o.focused_card@, self.board.tasks, f.id)
        }
    }

    /// Every column of `self` holds the tasks of that column of `o` that `f` keeps.
    pub open spec fn kept_from(&self, o: AppState, f: TaskFilter) -> bool {
        forall|s: Status| #[trigger] self.board.tasks.column(s) == kept(o.board.tasks.column(s), f)
    }

    /// `self` is `o` after its input popup was confirmed at time `now`: the trimmed text
    /// creates or edits a memo or a task, or, when it is empty, a message says so; then the
    /// popup closes.
    pub open spec fn confirmed_from(&self, o: AppState, now: Timestamp) -> bool {
        let v = trim_spec(o.input.buffer@);
        &&& self.input.buffer@ == Seq::<char>::empty()
        &&& self.input.cursor == 0
        &&& !self.input.is_create
        &&& !self.input.is_memo
        &&& self.mode == AppMode::Normal
        &&& self.board.version == o.board.version
        &&& self.board.saved_at == o.board.saved_at
        &&& self.clickable_urls == o.clickable_urls
        &&& self.clickable_tasks == o.clickable_tasks
        &&& self.clickable_memos == o.clickable_memos
        &&& self.memo_cols == o.memo_cols
        &&& if v.len() == 0 {
            &&& self.status_msg matches Some(m) && m@ == empty_title_message()
            &&& self.board == o.board
            &&& self.same_focus(o)
            &&& self.focus_area == o.focus_area
            &&& self.focused_memo == o.focused_memo
        } else {
            &&& self.status_msg == o.status_msg
            &&& if o.input.is_memo {
                &&& self.same_tasks(o)
                &&& self.board.next_id == o.board.next_id
                &&& self.same_focus(o)
                &&& if o.input.is_create {
                    let n = o.board.memos@.len();
                    &&& self.board.memos@.len() == n + 1
                    &&& self.board.memos@.take(n as int) == o.board.memos@
                    &&& self.board.memos@[n as int].id == o.board.next_memo_id
                    &&& self.board.memos@[n as int].title@ == v
                    &&& self.board.memos@[n as int].detail@ == Seq::<char>::empty()
                    &&& self.board.next_memo_id == o.board.next_memo_id + 1
                    &&& self.focused_memo == n
                    &&& self.focus_area == FocusArea::Memo
                } else {
                    &&& self.board.next_memo_id == o.board.next_memo_id
                    &&& self.focused_memo == o.focused_memo
                    &&& self.focus_area == o.focus_area
                    &&& if o.focused_memo < o.board.memos@.len() {
                        memo_edited(
                            self.board.memos@,
                            o.board.memos@,
                            o.focused_memo as int,
                            v,
                            o.mode == AppMode::InputDetail,
                        )
                    } else {
                        self.board.memos == o.board.memos
                    }
                }
            } else {
                &&& self.board.memos == o.board.memos
                &&& self.board.next_memo_id == o.board.next_memo_id
                &&& self.focused_memo == o.focused_memo
                &&& self.focus_area == o.focus_area
                &&& if o.input.is_create {
                    let t = self.board.tasks.column(Status::Todo)[0];
                    &&& self.board.next_id == o.board.next_id + 1
                    &&& self.board.tasks.column(Status::Todo) == seq![t] + o.board.tasks.column(Status::Todo)
                    &&& forall|s: Status| s != Status::Todo ==> #[trigger] self.board.tasks.column(s)
                        == o.board.tasks.column(s)
                    &&& t.id == o.board.next_id
                    &&& t.title@ == v
                    &&& t.detail@ == Seq::<char>::empty()
                    &&& t.status == Status::Todo
                    &&& t.created_at == now
                    &&& t.done_at is None
                    &&& match focus_target(self.board.tasks, t.id) {
                        Some(p) => self.focused_col == p.0 as usize && self.focused_card@
                            == o.focused_card@.update(p.0, p.1 as usize),
                        None => self.same_focus(o),
                    }
                } else {
                    &&& self.board.next_id == o.board.next_id
                    &&& self.same_focus(o)
                    &&& match o.focused_task_spec() {
                        None => self.same_tasks(o),
                        Some(f) => {
                            let loc = locate(o.board.tasks, f.id)->0;
                            &&& task_edited(
                                self.board.tasks.column(loc.0),
                                o.board.tasks.column(loc.0),
                                loc.1,
                                v,
                                o.mode == AppMode::InputDetail,
                            )
                            &&& forall|s: Status| s != loc.0 ==> #[trigger] self.board.tasks.column(s)
                                == o.board.tasks.column(s)
                        },
                    }
                }
            }
        }
    }

    /// Nothing of `o` changed: board, kanban focus and interface state.
    pub open spec fn unchanged_from(&self, o: AppState) -> bool {
        &&& self.board == o.board
        &&& self.same_focus(o)
        &&& self.same_ui(o)
    }

    /// Focus the column to the left; nothing else changes.
    pub open spec fn moved_left_from(&self, o: AppState) -> bool {
        &&& self.focused_col == if o.focused_col > 0 {
            (o.focused_col - 1) as usize
        } else {
            o.focused_col
        }
        &&& self.board == o.board
        &&& self.focused_card == o.focused_card
        &&& self.same_ui(o)
    }

    /// Focus the column to the right; nothing else changes.
    pub open spec fn moved_right_from(&self, o: AppState) -> bool {
        &&& self.focused_col == if o.focused_col < NUM_COLS - 1 {
            (o.focused_col + 1) as usize
        } else {
            o.focused_col
        }
        &&& self.board == o.board
        &&& self.focused_card == o.focused_card
        &&& self.same_ui(o)
    }

    /// Move the focused column's cursor one card up; nothing else changes.
    pub open spec fn moved_up_from(&self, o: AppState) -> bool {
        &&& self.focused_card@ == o.focused_card@.update(
            o.focused_col as int,
            if o.cursor() > 0 {
                (o.cursor() - 1) as usize
            } else {
                o.cursor()
            },
        )
        &&& self.focused_col == o.focused_col
        &&& self.board == o.board
        &&& self.same_ui(o)
    }

    /// Move down in the focused column, or into the memo panel from its last card (or an
    /// empty column); nothing else changes.
    pub open spec fn tried_down_from(&self, o: AppState) -> bool {
        let len = o.board.tasks.column(o.focused_status()).len();
        &&& if len == 0 || o.cursor() + 1 >= len {
            &&& self.focus_area == FocusArea::Memo
            &&& self.focused_memo == clamp_one(o.focused_memo, o.board.memos@.len())
            &&& self.same_focus(o)
        } else {
            &&& self.focus_area == o.focus_area
            &&& self.focused_memo == o.focused_memo
            &&& self.focused_col == o.focused_col
            &&& self.focused_card@ == o.focused_card@.update(
                o.focused_col as int,
                (o.cursor() + 1) as usize,
            )
        }
        &&& self.board == o.board
        &&& self.mode == o.mode
        &&& self.input == o.input
        &&& self.status_msg == o.status_msg
        &&& self.same_regions(o)
    }

    /// Move the memo focus one item left; nothing else changes.
    pub open spec fn memo_left_from(&self, o: AppState) -> bool {
        &&& self.focused_memo == if o.focused_memo > 0 {
            (o.focused_memo - 1) as usize
        } else {
            o.focused_memo
        }
        &&& self.focus_area == o.focus_area
        &&& self.board == o.board
        &&& self.same_focus(o)
        &&& self.mode == o.mode
        &&& self.input == o.input
        &&& self.status_msg == o.status_msg
        &&& self.same_regions(o)
    }

    /// Move the memo focus one item right; nothing else changes.
    pub open spec fn memo_right_from(&self, o: AppState) -> bool {
        &&& self.focused_memo == if o.focused_memo + 1 < o.board.memos@.len() {
            (o.focused_memo + 1) as usize
        } else {
            o.focused_memo
        }
        &&& self.focus_area == o.focus_area
        &&& self.board == o.board
        &&& self.same_focus(o)
        &&& self.mode == o.mode
        &&& self.input == o.input
        &&& self.status_msg == o.status_msg
        &&& self.same_regions(o)
    }

    /// Move the memo focus one row up, or back to the kanban from the first row; nothing else
    /// changes.
    pub open spec fn memo_up_from(&self, o: AppState) -> bool {
        &&& o.focused_memo < o.memo_cols ==> self.focus_area == FocusArea::Kanban
            && self.focused_memo == o.focused_memo
        &&& o.focused_memo >= o.memo_cols ==> self.focus_area == o.focus_area
            && self.focused_memo == o.focused_memo - o.memo_cols
        &&& self.board == o.board
        &&& self.same_focus(o)
        &&& self.mode == o.mode
        &&& self.input == o.input
        &&& self.status_msg == o.status_msg
        &&& self.same_regions(o)
    }

    /// Move the memo focus one row down; nothing else changes.
    pub open spec fn memo_down_from(&self, o: AppState) -> bool {
        &&& self.focused_memo == if o.focused_memo + o.memo_cols < o.board.memos@.len() {
            (o.focused_memo + o.memo_cols) as usize
        } else {
            o.focused_memo
        }
        &&& self.focus_area == o.focus_area
        &&& self.board == o.board
        &&& self.same_focus(o)
        &&& self.mode == o.mode
        &&& self.input == o.input
        &&& self.status_msg == o.status_msg
        &&& self.same_regions(o)
    }

    /// Delete the focused memo and clamp the memo focus; nothing else changes.
    pub open spec fn memo_deleted_from(&self, o: AppState) -> bool {
        &&& o.board.memos@.len() == 0 ==> self.board.memos == o.board.memos && self.focused_memo
            == o.focused_memo
        &&& o.board.memos@.len() > 0 ==> self.board.memos@ == o.board.memos@.remove(
            o.focused_memo as int,
        ) && self.focused_memo == clamp_one(o.focused_memo, self.board.memos@.len())
        &&& self.board.tasks == o.board.tasks
        &&& self.board.next_id == o.board.next_id
        &&& self.board.next_memo_id == o.board.next_memo_id
        &&& self.board.version == o.board.version
        &&& self.board.saved_at == o.board.saved_at
        &&& self.focus_area == o.focus_area
        &&& self.same_focus(o)
        &&& self.mode == o.mode
        &&& self.input == o.input
        &&& self.status_msg == o.status_msg
        &&& self.same_regions(o)
    }

    /// Delete every task with the focused card's id and clamp the cursors; nothing else
    /// changes.
    pub open spec fn card_deleted_from(&self, o: AppState) -> bool {
        &&& o.focused_task_spec() is None ==> self.same_tasks(o) && self.same_focus(o)
        &&& o.focused_task_spec() matches Some(f) ==> {
            &&& self.kept_from(o, TaskFilter::WithoutId(f.id))
            &&& self.focused_col == o.focused_col
            &&& self.focused_card@ == clamped(o.focused_card@, self.board.tasks)
        }
        &&& self.same_board_rest(o)
        &&& self.same_ui(o)
    }

    /// Close the input popup, emptying and resetting the input; nothing else changes.
    pub open spec fn cancelled_from(&self, o: AppState) -> bool {
        &&& self.input.buffer@ == Seq::<char>::empty()
        &&& self.input.cursor == 0
        &&& !self.input.is_create
        &&& !self.input.is_memo
        &&& self.mode == AppMode::Normal
        &&& self.status_msg == o.status_msg
        &&& self.board == o.board
        &&& self.same_focus(o)
        &&& self.same_panels(o)
    }

    /// Move the focused card one place down in its column, the cursor with it; at the last
    /// card nothing changes. Nothing else changes.
    pub open spec fn reordered_down_from(&self, o: AppState) -> bool {
        let st = o.focused_status();
        let col = o.board.tasks.column(st);
        let c = o.cursor() as int;
        &&& c + 1 < col.len() ==> self.board.tasks.column(st) == col.update(c, col[c + 1]).update(
            c + 1,
            col[c],
        ) && self.focused_card@ == o.focused_card@.update(o.focused_col as int, (c + 1) as usize)
        &&& c + 1 >= col.len() ==> self.board.tasks.column(st) == col && self.focused_card
            == o.focused_card
        &&& forall|s: Status| s != st ==> #[trigger] self.board.tasks.column(s) == o.board.tasks.column(s)
        &&& self.focused_col == o.focused_col
        &&& self.same_board_rest(o)
        &&& self.same_ui(o)
    }

    /// Move the focused card one place up in its column, the cursor with it; at the first
    /// card nothing changes. Nothing else changes.
    pub open spec fn reordered_up_from(&self, o: AppState) -> bool {
        let st = o.focused_status();
        let col = o.board.tasks.column(st);
        let c = o.cursor() as int;
        &&& c > 0 ==> self.board.tasks.column(st) == col.update(c - 1, col[c]).update(c, col[c - 1])
            && self.focused_card@ == o.focused_card@.update(o.focused_col as int, (c - 1) as usize)
        &&& c == 0 ==> self.board.tasks.column(st) == col && self.focused_card == o.focused_card
        &&& forall|s: Status| s != st ==> #[trigger] self.board.tasks.column(s) == o.board.tasks.column(s)
        &&& self.focused_col == o.focused_col
        &&& self.same_board_rest(o)
        &&& self.same_ui(o)
    }

    /// A fresh state showing `board`: focus on the first card of the Todo column.
    pub fn new(board: BoardState) -> (s: AppState)
        ensures
            s.board == board,
            s.focused_col == 0,
            forall|c: int| 0 <= c < 4 ==> s.focused_card@[c] == 0,
            s.mode == AppMode::Normal,
            s.input.buffer@.len() == 0,
            s.input.cursor == 0,
            !s.input.is_create,
            !s.input.is_memo,
            s.status_msg is None,
            s.clickable_urls@.len() == 0,
            s.clickable_tasks@.len() == 0,
            s.clickable_memos@.len() == 0,
            s.focus_area == FocusArea::Kanban,
            s.focused_memo == 0,
            s.memo_cols == 4,
    {
        AppState {
            board,
            focused_col: 0,
            focused_card: [0; NUM_COLS],
            mode: AppMode::Normal,
            input: InputState::default(),
            status_msg: None,
            clickable_urls: Vec::new(),
            clickable_tasks: Vec::new(),
            clickable_memos: Vec::new(),
            focus_area: FocusArea::Kanban,
            focused_memo: 0,
            memo_cols: 4,
        }
    }

    /// Return references to tasks belonging to the given column status.
    pub fn tasks_for_column(&self, status: Status) -> (r: Vec<&Task>)
        ensures
            r@.map_values(|t: &Task| *t) == self.board.tasks.column(status),
    {
        let list = self.board.tasks.tasks_for(status);
        let mut r: Vec<&Task> = Vec::new();
        let mut i: usize = 0;
        while i < list.len()
            invariant
                i <= list.len(),
                list@ == self.board.tasks.column(status),
                r@.map_values(|t: &Task| *t) == list@.take(i as int),
            decreases list.len() - i,
        {
            let ghost before = r@;
            r.push(&list[i]);
            assert(r@.map_values(|t: &Task| *t) =~= before.map_values(|t: &Task| *t).push(list@[i as int]));
            assert(list@.take(i + 1) =~= list@.take(i as int).push(list@[i as int]));
            i += 1;
        }
        assert(list@.take(list.len() as int) =~= list@);
        r
    }

    /// Return a reference to the currently focused task, if any.
    pub fn focused_task(&self) -> (r: Option<&Task>)
        requires
            self.focused_col < NUM_COLS,
        ensures
            match self.focused_task_spec() {
                Some(t) => r matches Some(x) && *x == t,
                None => r is None,
            },
    {
        let list = self.board.tasks.tasks_for(Status::from_col_index(self.focused_col));
        let i = self.focused_card[self.focused_col];
        if i < list.len() {
            Some(&list[i])
        } else {
            None
        }
    }

    /// ID of the focused task, if any.
    fn focused_task_id(&self) -> (r: Option<u64>)
        requires
            self.focused_col < NUM_COLS,
        ensures
            match self.focused_task_spec() {
                Some(t) => r == Some(t.id),
                None => r is None,
            },
    {
        match self.focused_task() {
            Some(t) => Some(t.id),
            None => None,
        }
    }

    /// Return a reference to the currently focused memo item, if any.
    pub fn focused_memo_item(&self) -> (r: Option<&Memo>)
        ensures
            self.focused_memo < self.board.memos@.len() ==> (r matches Some(m) && *m
                == self.board.memos@[self.focused_memo as int]),
            self.focused_memo >= self.board.memos@.len() ==> r is None,
    {
        if self.focused_memo < self.board.memos.len() {
            Some(&self.board.memos[self.focused_memo])
        } else {
            None
        }
    }

    /// Clamp `focused_memo` so it stays within valid bounds.
    pub fn clamp_memo_focus(&mut self)
        ensures
            final(self).focused_memo == clamp_one(old(self).focused_memo, old(self).board.memos@.len()),
            final(self).board == old(self).board,
            final(self).same_focus(*old(self)),
            final(self).focus_area == old(self).focus_area,
            final(self).mode == old(self).mode,
            final(self).input == old(self).input,
            final(self).status_msg == old(self).status_msg,
            final(self).clickable_urls == old(self).clickable_urls,
            final(self).clickable_tasks == old(self).clickable_tasks,
            final(self).clickable_memos == old(self).clickable_memos,
            final(self).memo_cols == old(self).memo_cols,
    {
        let len = self.board.memos.len();
        if len == 0 {
            self.focused_memo = 0;
        } else if self.focused_memo >= len {
            self.focused_memo = len - 1;
        }
    }

    /// Focus the column to the left (no-op at the first column).
    pub fn move_left(&mut self)
        ensures
            final(self).moved_left_from(*old(self)),
    {
        if self.focused_col > 0 {
            self.focused_col -= 1;
        }
    }

    /// Focus the column to the right (no-op at the last column).
    pub fn move_right(&mut self)
        ensures
            final(self).moved_right_from(*old(self)),
    {
        if self.focused_col < NUM_COLS - 1 {
            self.focused_col += 1;
        }
    }

    /// Move the focused column's cursor one card up (no-op at the top).
    pub fn move_up(&mut self)
        requires
            old(self).focused_col < NUM_COLS,
        ensures
            final(self).moved_up_from(*old(self)),
    {
        let col = self.focused_col;
        let idx = self.focused_card[col];
        if idx > 0 {
            self.focused_card[col] = idx - 1;
        }
        assert(self.focused_card@ =~= old(self).focused_card@.update(
            old(self).focused_col as int,
            if old(self).cursor() > 0 {
                (old(self).cursor() - 1) as usize
            } else {
                old(self).cursor()
            },
        ));
    }

    /// Move the focused column's cursor one card down (no-op at the last card).
    pub fn move_down(&mut self)
        requires
            old(self).focused_col < NUM_COLS,
        ensures
            final(self).focused_card@ == old(self).focused_card@.update(
                old(self).focused_col as int,
                if old(self).cursor() + 1 < old(self).board.tasks.column(old(self).focused_status()).len() {
                    (old(self).cursor() + 1) as usize
                } else {
                    old(self).cursor()
                },
            ),
            final(self).focused_col == old(self).focused_col,
            final(self).board == old(self).board,
            final(self).same_ui(*old(self)),
    {
        let col = self.focused_col;
        let len = self.board.tasks.tasks_for(Status::from_col_index(col)).len();
        let idx = self.focused_card[col];
        if len > 0 && idx < len - 1 {
            self.focused_card[col] = idx + 1;
        }
        assert(self.focused_card@ =~= old(self).focused_card@.update(
            old(self).focused_col as int,
            if old(self).cursor() + 1 < old(self).board.tasks.column(old(self).focused_status()).len() {
                (old(self).cursor() + 1) as usize
            } else {
                old(self).cursor()
            },
        ));
    }

    /// Move `focused_col` and `focused_card` to follow the task with the given
    /// id to its current (possibly new) column and position within that column.
    fn focus_task_by_id(&mut self, id: u64)
        ensures
            match focus_target(old(self).board.tasks, id) {
                Some(p) => final(self).focused_col == p.0 as usize && final(self).focused_card@
                    == old(self).focused_card@.update(p.0, p.1 as usize),
                None => final(self).same_focus(*old(self)),
            },
            final(self).board == old(self).board,
            final(self).same_ui(*old(self)),
    {
        proof {
            lemma_locate(self.board.tasks, id);
        }
        match find_task(&self.board.tasks, id) {
            None => {},
            Some((st, i)) => {
                let ghost m = self.board.tasks;
                assert(locate(m, id) == Some((st, i as int)));
                let status = self.board.tasks.tasks_for(st)[i].status;
                assert(status == task_at(m, (st, i as int)).status);
                let col = status.col_index();
                let pos = match position_of_id(self.board.tasks.tasks_for(status), id) {
                    Some(p) => p,
                    None => 0,
                };
                assert(focus_target(m, id) == Some((col as int, pos as int)));
                self.focused_col = col;
                self.focused_card[col] = pos;
                assert(self.focused_card@ =~= old(self).focused_card@.update(col as int, pos));
            },
        }
    }

    /// Advance the focused card to the next status, stamping it with `now` when it reaches
    /// Done; the focus follows the card.
    #[verifier::rlimit(40)]
    pub fn advance_status_at(&mut self, now: Timestamp)
        requires
            old(self).focused_col < NUM_COLS,
        ensures
            final(self).advanced_from(*old(self), now),
            final(self).same_board_rest(*old(self)),
            final(self).same_ui(*old(self)),
    {
        let id = match self.focused_task_id() {
            Some(id) => id,
            None => return,
        };
        proof {
            lemma_locate(self.board.tasks, id);
            lemma_locate_some(self.board.tasks, self.focused_status(), self.cursor() as int);
        }
        match find_task(&self.board.tasks, id) {
            None => {},
            Some((st, i)) => advance_at(&mut self.board.tasks, st, i, now),
        }
        self.focus_task_by_id(id);
        self.clamp_focus();
    }

    /// Advance the focused card to the next status (Enter key), stamping it with the current
    /// time when it reaches Done.
    pub fn advance_status(&mut self)
        requires
            old(self).focused_col < NUM_COLS,
        ensures
            exists|now: Timestamp| #[trigger] final(self).advanced_from(*old(self), now),
            final(self).same_board_rest(*old(self)),
            final(self).same_ui(*old(self)),
    {
        let now = Timestamp::now();
        self.advance_status_at(now);
    }

    /// Move the focused card back to the previous status (BackSpace key); leaving Done clears
    /// its completion time. The focus follows the card.
    #[verifier::rlimit(40)]
    pub fn retreat_status(&mut self)
        requires
            old(self).focused_col < NUM_COLS,
        ensures
            final(self).retreated_from(*old(self)),
            final(self).same_board_rest(*old(self)),
            final(self).same_ui(*old(self)),
    {
        let id = match self.focused_task_id() {
            Some(id) => id,
            None => return,
        };
        proof {
            lemma_locate(self.board.tasks, id);
            lemma_locate_some(self.board.tasks, self.focused_status(), self.cursor() as int);
        }
        match find_task(&self.board.tasks, id) {
            None => {},
            Some((st, i)) => retreat_at(&mut self.board.tasks, st, i),
        }
        self.focus_task_by_id(id);
        self.clamp_focus();
    }

    /// Permanently delete the focused card (D key): every task with its id goes, and the
    /// cursors are clamped.
    pub fn delete_focused_card(&mut self)
        requires
            old(self).focused_col < NUM_COLS,
        ensures
            final(self).card_deleted_from(*old(self)),
    {
        let id = match self.focused_task_id() {
            Some(id) => id,
            None => return,
        };
        retain_board(&mut self.board.tasks, &TaskFilter::WithoutId(id));
        self.clamp_focus();
    }

    /// Discard Done tasks whose completion day is not `today` (a local day number), then
    /// clamp the cursors.
    pub fn apply_daily_filter_on(&mut self, today: i64)
        ensures
            final(self).kept_from(*old(self), TaskFilter::DoneOnDay(today)),
            final(self).focused_col == old(self).focused_col,
            final(self).focused_card@ == clamped(old(self).focused_card@, final(self).board.tasks),
            final(self).same_board_rest(*old(self)),
            final(self).same_ui(*old(self)),
    {
        retain_board(&mut self.board.tasks, &TaskFilter::DoneOnDay(today));
        self.clamp_focus();
    }

    /// Discard Done tasks whose `done_at` date is not today.
    pub fn apply_daily_filter(&mut self)
        ensures
            exists|today: i64| #[trigger] final(self).kept_from(*old(self), TaskFilter::DoneOnDay(today)),
            final(self).focused_col == old(self).focused_col,
            final(self).focused_card@ == clamped(old(self).focused_card@, final(self).board.tasks),
            final(self).same_board_rest(*old(self)),
            final(self).same_ui(*old(self)),
    {
        let today = Timestamp::now().local_day();
        self.apply_daily_filter_on(today);
    }

    /// Open the title-input popup for creating a new task (a key).
    pub fn open_create(&mut self)
        ensures
            final(self).input_opened(*old(self), Seq::empty(), true, false, AppMode::InputTitle),
    {
        self.input.clear();
        self.input.is_create = true;
        self.mode = AppMode::InputTitle;
        self.status_msg = None;
    }

    /// Open the title-edit popup for the focused card (e key); without one, nothing changes.
    pub fn open_edit_title(&mut self)
        requires
            old(self).focused_col < NUM_COLS,
        ensures
            match old(self).focused_task_spec() {
                Some(t) => final(self).input_opened(*old(self), t.title@, false, false, AppMode::InputTitle)
                    && final(self).input.buffer == t.title,
                None => final(self).board == old(self).board && final(self).same_focus(*old(self))
                    && final(self).same_ui(*old(self)),
            },
    {
        let title = match self.focused_task() {
            Some(t) => t.title.clone(),
            None => return,
        };
        self.input.clear();
        self.input.buffer = title;
        self.input.is_create = false;
        self.mode = AppMode::InputTitle;
        self.status_msg = None;
    }

    /// Open the detail-edit popup for the focused card (E key); without one, nothing changes.
    pub fn open_edit_detail(&mut self)
        requires
            old(self).focused_col < NUM_COLS,
        ensures
            match old(self).focused_task_spec() {
                Some(t) => final(self).input_opened(*old(self), t.detail@, false, false, AppMode::InputDetail)
                    && final(self).input.buffer == t.detail,
                None => final(self).board == old(self).board && final(self).same_focus(*old(self))
                    && final(self).same_ui(*old(self)),
            },
    {
        let detail = match self.focused_task() {
            Some(t) => t.detail.clone(),
            None => return,
        };
        self.input.clear();
        self.input.buffer = detail;
        self.input.is_create = false;
        self.mode = AppMode::InputDetail;
        self.status_msg = None;
    }

    /// Open the title-input popup for creating a new memo (a key in Memo focus).
    pub fn open_create_memo(&mut self)
        ensures
            final(self).input_opened(*old(self), Seq::empty(), true, true, AppMode::InputTitle),
    {
        self.input.clear();
        self.input.is_create = true;
        self.input.is_memo = true;
        self.mode = AppMode::InputTitle;
        self.status_msg = None;
    }

    /// Open the title-edit popup for the focused memo (e key in Memo focus); without one,
    /// nothing changes.
    pub fn open_edit_memo_title(&mut self)
        ensures
            if old(self).focused_memo < old(self).board.memos@.len() {
                let m = old(self).board.memos@[old(self).focused_memo as int];
                final(self).input_opened(*old(self), m.title@, false, true, AppMode::InputTitle)
                    && final(self).input.buffer == m.title
            } else {
                final(self).board == old(self).board && final(self).same_focus(*old(self))
                    && final(self).same_ui(*old(self))
            },
    {
        let title = match self.focused_memo_item() {
            Some(m) => m.title.clone(),
            None => return,
        };
        self.input.clear();
        self.input.buffer = title;
        self.input.is_create = false;
        self.input.is_memo = true;
        self.mode = AppMode::InputTitle;
        self.status_msg = None;
    }

    /// Open the detail-edit popup for the focused memo (E key in Memo focus); without one,
    /// nothing changes.
    pub fn open_edit_memo_detail(&mut self)
        ensures
            if old(self).focused_memo < old(self).board.memos@.len() {
                let m = old(self).board.memos@[old(self).focused_memo as int];
                final(self).input_opened(*old(self), m.detail@, false, true, AppMode::InputDetail)
                    && final(self).input.buffer == m.detail
            } else {
                final(self).board == old(self).board && final(self).same_focus(*old(self))
                    && final(self).same_ui(*old(self))
            },
    {
        let detail = match self.focused_memo_item() {
            Some(m) => m.detail.clone(),
            None => return,
        };
        self.input.clear();
        self.input.buffer = detail;
        self.input.is_create = false;
        self.input.is_memo = true;
        self.mode = AppMode::InputDetail;
        self.status_msg = None;
    }

    /// Cancel the input popup (Esc key in Input mode): the buffer is emptied and the mode
    /// returns to Normal.
    pub fn cancel_input(&mut self)
        ensures
            final(self).cancelled_from(*old(self)),
    {
        self.input.clear();
        self.mode = AppMode::Normal;
    }

    /// Adds a memo titled `value` at the end of the memo list and focuses it.
    fn add_memo(&mut self, value: String)
        requires
            old(self).board.next_memo_id < u64::MAX,
        ensures
            ({
                let n = old(self).board.memos@.len();
                &&& final(self).board.memos@.len() == n + 1
                &&& final(self).board.memos@.take(n as int) == old(self).board.memos@
                &&& final(self).board.memos@[n as int].id == old(self).board.next_memo_id
                &&& final(self).board.memos@[n as int].title == value
                &&& final(self).board.memos@[n as int].detail@ == Seq::<char>::empty()
                &&& final(self).focused_memo == n
            }),
            final(self).board.next_memo_id == old(self).board.next_memo_id + 1,
            final(self).focus_area == FocusArea::Memo,
            final(self).board.tasks == old(self).board.tasks,
            final(self).board.next_id == old(self).board.next_id,
            final(self).board.version == old(self).board.version,
            final(self).board.saved_at == old(self).board.saved_at,
            final(self).same_focus(*old(self)),
            final(self).mode == old(self).mode,
            final(self).input == old(self).input,
            final(self).status_msg == old(self).status_msg,
            final(self).clickable_urls == old(self).clickable_urls,
            final(self).clickable_tasks == old(self).clickable_tasks,
            final(self).clickable_memos == old(self).clickable_memos,
            final(self).memo_cols == old(self).memo_cols,
    {
        let id = self.board.alloc_memo_id();
        let memo = Memo::new(id, value);
        self.board.memos.push(memo);
        self.focused_memo = self.board.memos.len() - 1;
        self.focus_area = FocusArea::Memo;
        assert(self.board.memos@.take(old(self).board.memos@.len() as int) =~= old(self).board.memos@);
    }

    /// Gives the focused memo `value` as its detail (`detail`) or its title; without a
    /// focused memo, nothing changes.
    fn edit_focused_memo(&mut self, value: String, detail: bool)
        ensures
            if old(self).focused_memo < old(self).board.memos@.len() {
                memo_edited(
                    final(self).board.memos@,
                    old(self).board.memos@,
                    old(self).focused_memo as int,
                    value@,
                    detail,
                )
            } else {
                final(self).board.memos == old(self).board.memos
            },
            final(self).board.tasks == old(self).board.tasks,
            final(self).board.next_id == old(self).board.next_id,
            final(self).board.next_memo_id == old(self).board.next_memo_id,
            final(self).board.version == old(self).board.version,
            final(self).board.saved_at == old(self).board.saved_at,
            final(self).same_focus(*old(self)),
            final(self).same_ui(*old(self)),
    {
        let idx = self.focused_memo;
        if idx < self.board.memos.len() {
            let mut memo = self.board.memos.remove(idx);
            if detail {
                memo.detail = value;
            } else {
                memo.title = value;
            }
            self.board.memos.insert(idx, memo);
        }
    }

    /// Puts a new Todo task titled `value`, created at `now`, on top of the Todo column and
    /// focuses it.
    fn add_task(&mut self, value: String, now: Timestamp)
        requires
            old(self).board.next_id < u64::MAX,
        ensures
            ({
                let t = final(self).board.tasks.column(Status::Todo)[0];
                &&& final(self).board.tasks.column(Status::Todo) == seq![t] + old(self).board.tasks.column(Status::Todo)
                &&& t.id == old(self).board.next_id
                &&& t.title == value
                &&& t.detail@ == Seq::<char>::empty()
                &&& t.status == Status::Todo
                &&& t.created_at == now
                &&& t.done_at is None
                &&& match focus_target(final(self).board.tasks, t.id) {
                    Some(p) => final(self).focused_col == p.0 as usize && final(self).focused_card@
                        == old(self).focused_card@.update(p.0, p.1 as usize),
                    None => final(self).same_focus(*old(self)),
                }
            }),
            forall|s: Status| s != Status::Todo ==> #[trigger] final(self).board.tasks.column(s)
                == old(self).board.tasks.column(s),
            final(self).board.next_id == old(self).board.next_id + 1,
            final(self).board.memos == old(self).board.memos,
            final(self).board.next_memo_id == old(self).board.next_memo_id,
            final(self).board.version == old(self).board.version,
            final(self).board.saved_at == old(self).board.saved_at,
            final(self).same_ui(*old(self)),
    {
        let id = self.board.alloc_id();
        let task = Task::new_at(id, value, now);
        self.board.tasks.insert_at_top(Status::Todo, task);
        self.focus_task_by_id(id);
    }

    /// Gives the first task with the focused task's id `value` as its detail (`detail`) or
    /// its title.
    #[verifier::rlimit(40)]
    fn edit_focused_task(&mut self, value: String, detail: bool)
        requires
            old(self).focused_col < NUM_COLS,
            old(self).focused_task_spec() is Some,
        ensures
            ({
                let f = old(self).focused_task_spec()->0;
                let loc = locate(old(self).board.tasks, f.id)->0;
                &&& task_edited(
                    final(self).board.tasks.column(loc.0),
                    old(self).board.tasks.column(loc.0),
                    loc.1,
                    value@,
                    detail,
                )
                &&& forall|s: Status| s != loc.0 ==> #[trigger] final(self).board.tasks.column(s)
                    == old(self).board.tasks.column(s)
            }),
            final(self).same_board_rest(*old(self)),
            final(self).same_focus(*old(self)),
            final(self).same_ui(*old(self)),
    {
        let id = match self.focused_task_id() {
            Some(id) => id,
            None => return,
        };
        proof {
            lemma_locate(self.board.tasks, id);
            lemma_locate_some(self.board.tasks, self.focused_status(), self.cursor() as int);
        }
        match find_task(&self.board.tasks, id) {
            None => {},
            Some((st, i)) => self.edit_task_at(st, i, value, detail),
        }
    }

    /// Gives the task at `i` of column `st` `value` as its detail (`detail`) or its title.
    fn edit_task_at(&mut self, st: Status, i: usize, value: String, detail: bool)
        requires
            i < old(self).board.tasks.column(st).len(),
        ensures
            task_edited(
                final(self).board.tasks.column(st),
                old(self).board.tasks.column(st),
                i as int,
                value@,
                detail,
            ),
            forall|s: Status| s != st ==> #[trigger] final(self).board.tasks.column(s)
                == old(self).board.tasks.column(s),
            final(self).same_board_rest(*old(self)),
            final(self).same_focus(*old(self)),
            final(self).same_ui(*old(self)),
    {
        let ghost o = self.board.tasks.column(st);
        let mut t = take_task(&mut self.board.tasks, st, i);
        if detail {
            t.detail = value;
        } else {
            t.title = value;
        }
        let ghost t2 = t;
        self.board.tasks.tasks_for_mut(st).insert(i, t);
        assert(self.board.tasks.column(st) =~= o.update(i as int, t2));
    }

    /// Confirm the input popup (Enter key in Input mode), a new task being created at `now`.
    #[verifier::rlimit(40)]
    pub fn confirm_input_at(&mut self, now: Timestamp)
        requires
            old(self).focused_col < NUM_COLS,
            confirm_fits(*old(self)),
        ensures
            final(self).confirmed_from(*old(self), now),
    {
        let value = trim(self.input.value());
        if value.as_str().is_empty() {
            self.status_msg = Some("Title cannot be empty".to_owned());
            self.cancel_input();
            return;
        }
        let is_detail = self.mode == AppMode::InputDetail;
        if self.input.is_memo {
            if self.input.is_create {
                self.add_memo(value);
            } else {
                self.edit_focused_memo(value, is_detail);
            }
        } else if self.input.is_create {
            self.add_task(value, now);
        } else {
            if self.focused_task().is_none() {
                self.cancel_input();
                return;
            }
            self.edit_focused_task(value, is_detail);
        }
        self.input.clear();
        self.mode = AppMode::Normal;
    }

    /// Confirm the input popup (Enter key in Input mode); a new task is stamped with the
    /// current time.
    pub fn confirm_input(&mut self)
        requires
            old(self).focused_col < NUM_COLS,
            confirm_fits(*old(self)),
        ensures
            exists|now: Timestamp| #[trigger] final(self).confirmed_from(*old(self), now),
    {
        let now = Timestamp::now();
        self.confirm_input_at(now);
    }

    /// Move down within the kanban column; if already at the bottom (or column
    /// is empty), switch focus to the memo panel.
    pub fn kanban_try_move_down(&mut self)
        requires
            old(self).focused_col < NUM_COLS,
        ensures
            final(self).tried_down_from(*old(self)),
    {
        let len = self.board.tasks.tasks_for(Status::from_col_index(self.focused_col)).len();
        let at_bottom = len == 0 || self.focused_card[self.focused_col] >= len - 1;
        if at_bottom {
            self.focus_area = FocusArea::Memo;
            self.clamp_memo_focus();
        } else {
            self.move_down();
        }
    }

    /// Move memo focus one item to the left (no-op at index 0).
    pub fn move_memo_left(&mut self)
        ensures
            final(self).memo_left_from(*old(self)),
    {
        if self.focused_memo > 0 {
            self.focused_memo -= 1;
        }
    }

    /// Move memo focus one item to the right (no-op at last item).
    pub fn move_memo_right(&mut self)
        ensures
            final(self).memo_right_from(*old(self)),
    {
        let len = self.board.memos.len();
        if len > 0 && self.focused_memo < len - 1 {
            self.focused_memo += 1;
        }
    }

    /// Move memo focus up by one row. If already on the first row, return to
    /// kanban focus.
    pub fn move_memo_up(&mut self)
        ensures
            final(self).memo_up_from(*old(self)),
    {
        if self.focused_memo < self.memo_cols {
            self.focus_area = FocusArea::Kanban;
        } else {
            self.focused_memo -= self.memo_cols;
        }
    }

    /// Move memo focus down by one row (no-op if already on the last row).
    pub fn move_memo_down(&mut self)
        ensures
            final(self).memo_down_from(*old(self)),
    {
        let len = self.board.memos.len();
        if self.memo_cols < len && self.focused_memo < len - self.memo_cols {
            self.focused_memo = self.focused_memo + self.memo_cols;
        }
    }

    /// Delete the focused memo (no-op if list is empty), then clamp focus.
    pub fn delete_focused_memo(&mut self)
        requires
            old(self).board.memos@.len() == 0 || old(self).focused_memo < old(self).board.memos@.len(),
        ensures
            final(self).memo_deleted_from(*old(self)),
    {
        if self.board.memos.is_empty() {
            return;
        }
        self.board.memos.remove(self.focused_memo);
        self.clamp_memo_focus();
    }

    /// Move the focused task one position down within its column (J key).
    /// Returns true if a swap occurred, false if already last (no-op).
    pub fn reorder_task_down(&mut self) -> (moved: bool)
        requires
            old(self).focused_col < NUM_COLS,
        ensures
            ({
                let col = old(self).board.tasks.column(old(self).focused_status());
                let c = old(self).cursor() as int;
                moved == (c + 1 < col.len())
            }),
            final(self).reordered_down_from(*old(self)),
    {
        let col = self.focused_col;
        let status = Status::from_col_index(col);
        let cursor = self.focused_card[col];
        let len = self.board.tasks.tasks_for(status).len();
        if len == 0 || cursor >= len - 1 {
            return false;
        }
        let list = self.board.tasks.tasks_for_mut(status);
        let t = list.remove(cursor + 1);
        list.insert(cursor, t);
        self.focused_card[col] = cursor + 1;
        proof {
            let o = old(self).board.tasks.column(status);
            let c = cursor as int;
            assert(self.board.tasks.column(status) =~= o.update(c, o[c + 1]).update(c + 1, o[c]));
            assert(self.focused_card@ =~= old(self).focused_card@.update(col as int, (c + 1) as usize));
        }
        true
    }

    /// Move the focused task one position up within its column (K key).
    /// Returns true if a swap occurred, false if already first (no-op).
    pub fn reorder_task_up(&mut self) -> (moved: bool)
        requires
            old(self).focused_col < NUM_COLS,
            old(self).cursor() == 0 || old(self).cursor() < old(self).board.tasks.column(
                old(self).focused_status(),
            ).len(),
        ensures
            ({
                let col = old(self).board.tasks.column(old(self).focused_status());
                let c = old(self).cursor() as int;
                moved == (c > 0)
            }),
            final(self).reordered_up_from(*old(self)),
    {
        let col = self.focused_col;
        let status = Status::from_col_index(col);
        let cursor = self.focused_card[col];
        if cursor == 0 {
            return false;
        }
        let list = self.board.tasks.tasks_for_mut(status);
        let t = list.remove(cursor);
        list.insert(cursor - 1, t);
        self.focused_card[col] = cursor - 1;
        proof {
            let o = old(self).board.tasks.column(status);
            let c = cursor as int;
            assert(self.board.tasks.column(status) =~= o.update(c - 1, o[c]).update(c, o[c - 1]));
            assert(self.focused_card@ =~= old(self).focused_card@.update(col as int, (c - 1) as usize));
        }
        true
    }

    /// The log entry for the first Done task with `id`, looking through the columns from Todo
    /// to Done. Call after `advance_status` when the status became Done.
    pub fn make_done_entry_for(&self, id: u64) -> (r: Option<DoneEntry>)
        ensures
            match first_done_in(self.board.tasks.flat(), id) {
                None => r is None,
                Some(t) => r matches Some(e) && e.title == t.title && e.detail == t.detail && (
                t.done_at matches Some(d) ==> e.completed_at == d),
            },
    {
        let all = self.board.tasks.all_tasks();
        let ghost flat = self.board.tasks.flat();
        let mut i: usize = 0;
        proof {
            assert(all@.map_values(|t: &Task| *t) == flat);
            assert(flat.skip(0) =~= flat);
        }
        while i < all.len()
            invariant
                i <= all.len(),
                flat == self.board.tasks.flat(),
                all@.map_values(|t: &Task| *t) == flat,
                first_done_in(flat.skip(i as int), id) == first_done_in(flat, id),
            decreases all.len() - i,
        {
            let t: &Task = all[i];
            assert(*t == flat[i as int]);
            assert(flat.skip(i as int)[0] == flat[i as int]);
            if t.id == id && t.status == Status::Done {
                assert(first_done_in(flat.skip(i as int), id) == Some(flat[i as int]));
                let e = DoneEntry::from_task(t);
                return Some(e);
            }
            assert(flat.skip(i as int).drop_first() =~= flat.skip(i + 1));
            i += 1;
        }
        assert(flat.skip(i as int) =~= Seq::<Task>::empty());
        None
    }

    /// Show `err` in the status bar.
    pub fn set_error(&mut self, err: AppError)
        ensures
            final(self).status_msg matches Some(m) && error_text(err, m@),
            final(self).board == old(self).board,
            final(self).same_focus(*old(self)),
            final(self).mode == old(self).mode,
            final(self).input == old(self).input,
            final(self).same_panels(*old(self)),
    {
        self.status_msg = Some(err.message());
    }

    /// Clamp all per-column cursors so they remain within valid bounds.
    pub fn clamp_focus(&mut self)
        ensures
            final(self).focused_card@ == clamped(old(self).focused_card@, old(self).board.tasks),
            final(self).board == old(self).board,
            final(self).focused_col == old(self).focused_col,
            final(self).same_ui(*old(self)),
    {
        let mut col: usize = 0;
        while col < NUM_COLS
            invariant
                col <= NUM_COLS,
                self.board == old(self).board,
                self.focused_col == old(self).focused_col,
                self.same_ui(*old(self)),
                forall|c: int|
                    0 <= c < 4 ==> #[trigger] self.focused_card@[c] == if c < col {
                        clamp_one(old(self).focused_card@[c], old(self).board.tasks.column(status_at(c)).len())
                    } else {
                        old(self).focused_card@[c]
                    },
            decreases NUM_COLS - col,
        {
            let len = self.board.tasks.tasks_for(Status::from_col_index(col)).len();
            if len == 0 {
                self.focused_card[col] = 0;
            } else if self.focused_card[col] >= len {
                self.focused_card[col] = len - 1;
            }
            col += 1;
        }
        assert(self.focused_card@ =~= clamped(old(self).focused_card@, old(self).board.tasks));
    }
}

/// The first task of `ts` with `id` that is Done.
pub open spec fn first_done_in(ts: Seq<Task>, id: u64) -> Option<Task>
    decreases ts.len(),
{
    if ts.len() == 0 {
        None
    } else if ts[0].id == id && ts[0].status == Status::Done {
        Some(ts[0])
    } else {
        first_done_in(ts.drop_first(), id)
    }
}

/// Whether the point (`col`, `row`) lies in region `r`.
pub open spec fn hits(r: UrlHitRegion, col: u16, row: u16) -> bool {
    row == r.row && r.col_start <= col < r.col_end
}

/// The first region of `rs` that the point (`col`, `row`) lies in.
pub open spec fn first_hit(rs: Seq<UrlHitRegion>, col: u16, row: u16) -> Option<int> {
    if exists|i: int| 0 <= i < rs.len() && hits(#[trigger] rs[i], col, row) {
        Some(choose|i: int| 0 <= i < rs.len() && hits(#[trigger] rs[i], col, row) && forall|j: int| 0 <= j < i ==> !hits(#[trigger] rs[j], col, row))
    } else {
        None
    }
}

proof fn lemma_first_hit(rs: Seq<UrlHitRegion>, col: u16, row: u16, i: int)
    requires
        0 <= i < rs.len(),
        hits(rs[i], col, row),
        forall|j: int| 0 <= j < i ==> !hits(#[trigger] rs[j], col, row),
    ensures
        first_hit(rs, col, row) == Some(i),
{
    assert(exists|k: int| 0 <= k < rs.len() && hits(#[trigger] rs[k], col, row));
    let c = choose|k: int| 0 <= k < rs.len() && hits(#[trigger] rs[k], col, row) && forall|j: int| 0 <= j < k ==> !hits(#[trigger] rs[j], col, row);
    assert(0 <= i < rs.len() && hits(rs[i], col, row) && forall|j: int| 0 <= j < i ==> !hits(#[trigger] rs[j], col, row));
    if c < i {
        assert(!hits(rs[c], col, row));
    } else if c > i {
        assert(!hits(rs[i], col, row));
    }
}

/// The URL to open for a left mouse click at terminal position `(col, row)`: that of the
/// first URL hit region the click falls in, if any. Navigation state is never touched.
pub fn handle_left_click(app: &AppState, col: u16, row: u16) -> (r: Option<String>)
    ensures
        match first_hit(app.clickable_urls@, col, row) {
            Some(i) => r == Some(app.clickable_urls@[i].url),
            None => r is None,
        },
{
    let rs = &app.clickable_urls;
    let mut i: usize = 0;
    while i < rs.len()
        invariant
            i <= rs.len(),
            rs == &app.clickable_urls,
            forall|j: int| 0 <= j < i ==> !hits(#[trigger] rs@[j], col, row),
        decreases rs.len() - i,
    {
        let r = &rs[i];
        if row == r.row && col >= r.col_start && col < r.col_end {
            proof {
                lemma_first_hit(rs@, col, row, i as int);
            }
            return Some(r.url.clone());
        }
        i += 1;
    }
    proof {
        if exists|k: int| 0 <= k < rs@.len() && hits(#[trigger] rs@[k], col, row) {
            let k = choose|k: int| 0 <= k < rs@.len() && hits(#[trigger] rs@[k], col, row);
            assert(!hits(rs@[k], col, row));
        }
    }
    None
}

/// A click opens the URL of the region under the pointer: where some region lies on the
/// clicked row with the clicked column in its half-open column range, the click picks the
/// first such region of the list; where none does, it picks nothing.
pub proof fn law_click_picks_region_under_pointer(rs: Seq<UrlHitRegion>, col: u16, row: u16, i: int)
    ensures
        0 <= i < rs.len() && row == rs[i].row && rs[i].col_start <= col && col < rs[i].col_end
            && (forall|j: int|
            0 <= j < i ==> !(row == (#[trigger] rs[j]).row && rs[j].col_start <= col && col
                < rs[j].col_end)) ==> first_hit(rs, col, row) == Some(i),
        first_hit(rs, col, row) == Some(i) ==> 0 <= i < rs.len() && row == rs[i].row
            && rs[i].col_start <= col && col < rs[i].col_end,
        (forall|j: int|
            0 <= j < rs.len() ==> !(row == (#[trigger] rs[j]).row && rs[j].col_start <= col && col
                < rs[j].col_end)) <==> first_hit(rs, col, row) is None,
{
    if 0 <= i < rs.len() && row == rs[i].row && rs[i].col_start <= col && col < rs[i].col_end
        && (forall|j: int|
        0 <= j < i ==> !(row == (#[trigger] rs[j]).row && rs[j].col_start <= col && col
            < rs[j].col_end)) {
        assert forall|j: int| 0 <= j < i implies !hits(#[trigger] rs[j], col, row) by {}
        lemma_first_hit(rs, col, row, i);
    }
    if exists|k: int| 0 <= k < rs.len() && hits(#[trigger] rs[k], col, row) {
        let k = choose|k: int| 0 <= k < rs.len() && hits(#[trigger] rs[k], col, row);
        lemma_min_hit(rs, col, row, k);
        let m = choose|m: int|
            0 <= m < rs.len() && hits(#[trigger] rs[m], col, row) && forall|j: int|
                0 <= j < m ==> !hits(#[trigger] rs[j], col, row);
        lemma_first_hit(rs, col, row, m);
        assert(!(forall|j: int|
            0 <= j < rs.len() ==> !(row == (#[trigger] rs[j]).row && rs[j].col_start <= col && col
                < rs[j].col_end)));
    } else {
        assert forall|j: int| 0 <= j < rs.len() implies !(row == (#[trigger] rs[j]).row
            && rs[j].col_start <= col && col < rs[j].col_end) by {
            if row == rs[j].row && rs[j].col_start <= col && col < rs[j].col_end {
                assert(hits(rs[j], col, row));
            }
        }
    }
}

/// Where some region is hit, a first one is.
proof fn lemma_min_hit(rs: Seq<UrlHitRegion>, col: u16, row: u16, k: int)
    requires
        0 <= k < rs.len(),
        hits(rs[k], col, row),
    ensures
        exists|m: int|
            0 <= m < rs.len() && hits(#[trigger] rs[m], col, row) && forall|j: int|
                0 <= j < m ==> !hits(#[trigger] rs[j], col, row),
    decreases k,
{
    if exists|j: int| 0 <= j < k && hits(#[trigger] rs[j], col, row) {
        let j = choose|j: int| 0 <= j < k && hits(#[trigger] rs[j], col, row);
        lemma_min_hit(rs, col, row, j);
    } else {
        assert(0 <= k < rs.len() && hits(rs[k], col, row) && forall|j: int|
            0 <= j < k ==> !hits(#[trigger] rs[j], col, row));
    }
}

} // verus!
