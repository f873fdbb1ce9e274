use vstd::prelude::*;
use crate::clock::Timestamp;
use crate::text::{
    trim, trim_spec,
    byte_len, char_index_at, char_index_of_byte, char_len_utf8, char_utf8_len, chars_of,
    is_char_boundary_at, push_char, string_from_chars, utf8_len,
};

verus! {

// ── Status ───────────────────────────────────────────────────────────────────

/// The workflow stage of a task; each stage is one board column.
#[derive(Debug, Clone, Copy, PartialEq, Eq, Structural)]
pub enum Status {
    Todo,
    Doing,
    Checking,
    Done,
}

/// The stage after `s`, if any.
pub open spec fn next_of(s: Status) -> Option<Status> {
    match s {
        Status::Todo => Some(Status::Doing),
        Status::Doing => Some(Status::Checking),
        Status::Checking => Some(Status::Done),
        Status::Done => None,
    }
}

/// The stage before `s`, if any.
pub open spec fn prev_of(s: Status) -> Option<Status> {
    match s {
        Status::Todo => None,
        Status::Doing => Some(Status::Todo),
        Status::Checking => Some(Status::Doing),
        Status::Done => Some(Status::Checking),
    }
}

/// The column of `s`: 0 for Todo, 1 for Doing, 2 for Checking, 3 for Done.
pub open spec fn col_of(s: Status) -> int {
    match s {
        Status::Todo => 0,
        Status::Doing => 1,
        Status::Checking => 2,
        Status::Done => 3,
    }
}

/// The stage shown in column `i` (for `i` below 4).
pub open spec fn status_at(i: int) -> Status {
    if i == 0 {
        Status::Todo
    } else if i == 1 {
        Status::Doing
    } else if i == 2 {
        Status::Checking
    } else {
        Status::Done
    }
}

/// The column header text of `s`.
pub open spec fn label_of(s: Status) -> Seq<char> {
    match s {
        Status::Todo => "Todo"@,
        Status::Doing => "In Progress"@,
        Status::Checking => "Blocked"@,
        Status::Done => "Done"@,
    }
}

impl Status {
    /// Returns the next status in the workflow, or None if already Done.
    pub fn next(self) -> (r: Option<Status>)
        ensures
            r == next_of(self),
    {
        match self {
            Status::Todo => Some(Status::Doing),
            Status::Doing => Some(Status::Checking),
            Status::Checking => Some(Status::Done),
            Status::Done => None,
        }
    }

    /// Returns the previous status in the workflow, or None if already Todo.
    pub fn prev(self) -> (r: Option<Status>)
        ensures
            r == prev_of(self),
    {
        match self {
            Status::Todo => None,
            Status::Doing => Some(Status::Todo),
            Status::Checking => Some(Status::Doing),
            Status::Done => Some(Status::Checking),
        }
    }

    /// Index of the status (0 = Todo, 1 = Doing, 2 = Checking, 3 = Done).
    pub fn col_index(self) -> (r: usize)
        ensures
            r == col_of(self),
    {
        match self {
            Status::Todo => 0,
            Status::Doing => 1,
            Status::Checking => 2,
            Status::Done => 3,
        }
    }

    /// Display label for the column header.
    pub fn label(self) -> (r: &'static str)
        ensures
            r@ == label_of(self),
    {
        match self {
            Status::Todo => "Todo",
            Status::Doing => "In Progress",
            Status::Checking => "Blocked",
            Status::Done => "Done",
        }
    }

    /// The status shown in column `i`.
    pub fn from_col_index(i: usize) -> (r: Status)
        requires
            i < 4,
        ensures
            r == status_at(i as int),
    {
        if i == 0 {
            Status::Todo
        } else if i == 1 {
            Status::Doing
        } else if i == 2 {
            Status::Checking
        } else {
            Status::Done
        }
    }
}

/// Moving a stage forward and moving the next stage back are inverse: `s.next()` is `t`
/// exactly when `t.prev()` is `s`, and a forward move goes one column to the right.
pub proof fn law_next_prev_inverse(s: Status, t: Status)
    ensures
        next_of(s) == Some(t) <==> prev_of(t) == Some(s),
        next_of(s) == Some(t) ==> col_of(t) == col_of(s) + 1,
{
}

/// Every stage has a column below 4, and the column of a stage shows that stage.
pub proof fn law_columns_match_statuses(s: Status)
    ensures
        0 <= col_of(s) < 4,
        status_at(col_of(s)) == s,
{
}

/// Only Done has no next stage, and only Todo has no previous one.
pub proof fn law_workflow_ends(s: Status)
    ensures
        next_of(s) is None <==> s == Status::Done,
        prev_of(s) is None <==> s == Status::Todo,
{
}

/// The statuses in column order.
pub const ALL_STATUSES: [Status; 4] = [Status::Todo, Status::Doing, Status::Checking, Status::Done];

// ── Memo ─────────────────────────────────────────────────────────────────────

/// A free-form note shown in the memo panel.
#[derive(Debug, Clone)]
pub struct Memo {
    pub id: u64,
    pub title: String,
    pub detail: String,
}

impl Memo {
    /// A memo with the given id and title and an empty detail.
    pub fn new(id: u64, title: String) -> (m: Memo)
        ensures
            m.id == id,
            m.title == title,
            m.detail@ == Seq::<char>::empty(),
    {
        Memo { id, title, detail: String::new() }
    }
}

// ── FocusArea / AppMode ──────────────────────────────────────────────────────

/// Whether keyboard focus is in the kanban columns or in the memo panel.
#[derive(Debug, Clone, Copy, PartialEq, Eq, Structural)]
pub enum FocusArea {
    Kanban,
    Memo,
}

/// The interaction mode of the application.
#[derive(Debug, Clone, Copy, PartialEq, Eq, Structural)]
pub enum AppMode {
    Normal,
    InputTitle,
    InputDetail,
}

/// Error returned when task construction fails validation.
#[derive(Debug)]
pub struct TaskError(pub String);

// ── Task ─────────────────────────────────────────────────────────────────────

/// A card on the board.
#[derive(Debug, Clone)]
pub struct Task {
    pub id: u64,
    pub title: String,
    pub detail: String,
    pub status: Status,
    pub created_at: Timestamp,
    pub done_at: Option<Timestamp>,
}

impl Task {
    /// A new Todo task with the given id and title, created at `created_at`, with no detail.
    pub fn new_at(id: u64, title: String, created_at: Timestamp) -> (t: Task)
        ensures
            t.id == id,
            t.title == title,
            t.detail@ == Seq::<char>::empty(),
            t.status == Status::Todo,
            t.created_at == created_at,
            t.done_at is None,
    {
        Task { id, title, detail: String::new(), status: Status::Todo, created_at, done_at: None }
    }

    /// Create a new Todo task with the given id and title (no validation), created now.
    pub fn new(id: u64, title: String) -> (t: Task)
        ensures
            t.id == id,
            t.title == title,
            t.detail@ == Seq::<char>::empty(),
            t.status == Status::Todo,
            t.done_at is None,
    {
        Task::new_at(id, title, Timestamp::now())
    }

    /// Create a new Todo task, validating that the title is non-empty after trimming
    /// white space; the task's title is the trimmed title.
    pub fn try_new(id: u64, title: String) -> (r: Result<Task, TaskError>)
        ensures
            trim_spec(title@).len() == 0 <==> r is Err,
            r matches Err(e) ==> e.0@ == "title must not be empty"@,
            r matches Ok(t) ==> {
                &&& t.id == id
                &&& t.title@ == trim_spec(title@)
                &&& t.detail@ == Seq::<char>::empty()
                &&& t.status == Status::Todo
                &&& t.done_at is None
            },
    {
        let trimmed = trim(title.as_str());
        if byte_len(trimmed.as_str()) == 0 {
            proof {
                crate::text::lemma_utf8_len_zero(trimmed@);
            }
            return Err(TaskError("title must not be empty".to_owned()));
        }
        proof {
            crate::text::lemma_utf8_len_zero(trimmed@);
        }
        Ok(Task::new(id, trimmed))
    }
}

// ── StatusTaskMap ────────────────────────────────────────────────────────────

/// The tasks of `ts` that have status `s`, in their order in `ts`.
pub open spec fn with_status(ts: Seq<Task>, s: Status) -> Seq<Task>
    decreases ts.len(),
{
    if ts.len() == 0 {
        seq![]
    } else {
        let rest = with_status(ts.drop_last(), s);
        if ts.last().status == s {
            rest.push(ts.last())
        } else {
            rest
        }
    }
}

/// The index of the first task in `ts` with the given id.
pub open spec fn first_with_id(ts: Seq<Task>, id: u64) -> Option<int> {
    if exists|i: int| 0 <= i < ts.len() && (#[trigger] ts[i]).id == id {
        Some(choose|i: int| 0 <= i < ts.len() && (#[trigger] ts[i]).id == id && forall|j: int| 0 <= j < i ==> (#[trigger] ts[j]).id != id)
    } else {
        None
    }
}

pub proof fn lemma_first_with_id(ts: Seq<Task>, id: u64, i: int)
    requires
        0 <= i < ts.len(),
        ts[i].id == id,
        forall|j: int| 0 <= j < i ==> (#[trigger] ts[j]).id != id,
    ensures
        first_with_id(ts, id) == Some(i),
{
    assert(exists|k: int| 0 <= k < ts.len() && (#[trigger] ts[k]).id == id);
    let c = choose|k: int| 0 <= k < ts.len() && (#[trigger] ts[k]).id == id && forall|j: int| 0 <= j < k ==> (#[trigger] ts[j]).id != id;
    if c < i {
        assert(ts[c].id != id);
    } else if c > i {
        assert(ts[i].id != id);
    }
}

proof fn lemma_first_exists(ts: Seq<Task>, id: u64, j: int)
    requires
        0 <= j < ts.len(),
        ts[j].id == id,
    ensures
        exists|i: int| 0 <= i < ts.len() && (#[trigger] ts[i]).id == id && forall|k: int| 0 <= k < i ==> (#[trigger] ts[k]).id != id,
    decreases j,
{
    if exists|k: int| 0 <= k < j && (#[trigger] ts[k]).id == id {
        let k = choose|k: int| 0 <= k < j && (#[trigger] ts[k]).id == id;
        lemma_first_exists(ts, id, k);
    } else {
        assert(0 <= j < ts.len() && ts[j].id == id && forall|k: int| 0 <= k < j ==> (#[trigger] ts[k]).id != id);
    }
}

/// The first task with an id is a task of `ts` with that id, and no earlier one has it.
pub proof fn lemma_first_with_id_found(ts: Seq<Task>, id: u64)
    ensures
        first_with_id(ts, id) matches Some(i) ==> 0 <= i < ts.len() && ts[i].id == id && forall|k: int| 0 <= k < i ==> (#[trigger] ts[k]).id != id,
        first_with_id(ts, id) is None ==> forall|k: int| 0 <= k < ts.len() ==> (#[trigger] ts[k]).id != id,
{
    if exists|i: int| 0 <= i < ts.len() && (#[trigger] ts[i]).id == id {
        let j = choose|i: int| 0 <= i < ts.len() && (#[trigger] ts[i]).id == id;
        lemma_first_exists(ts, id, j);
    }
}

/// The index of the first task in `ts` with the given id, if any.
pub fn position_of_id(ts: &Vec<Task>, id: u64) -> (r: Option<usize>)
    ensures
        match r {
            Some(i) => first_with_id(ts@, id) == Some(i as int),
            None => first_with_id(ts@, id) is None,
        },
{
    let mut i: usize = 0;
    while i < ts.len()
        invariant
            i <= ts.len(),
            forall|j: int| 0 <= j < i ==> (#[trigger] ts@[j]).id != id,
        decreases ts.len() - i,
    {
        if ts[i].id == id {
            proof {
                lemma_first_with_id(ts@, id, i as int);
            }
            return Some(i);
        }
        i += 1;
    }
    proof {
        if exists|j: int| 0 <= j < ts@.len() && (#[trigger] ts@[j]).id == id {
            let j = choose|j: int| 0 <= j < ts@.len() && (#[trigger] ts@[j]).id == id;
            assert(ts@[j].id != id);
        }
    }
    None
}

/// Tasks kept per status column, each column in display order.
#[derive(Debug, Clone)]
pub struct StatusTaskMap {
    pub todo: Vec<Task>,
    pub doing: Vec<Task>,
    pub checking: Vec<Task>,
    pub done: Vec<Task>,
}

impl StatusTaskMap {
    /// The column for status `s`.
    pub open spec fn column(&self, s: Status) -> Seq<Task> {
        match s {
            Status::Todo => self.todo@,
            Status::Doing => self.doing@,
            Status::Checking => self.checking@,
            Status::Done => self.done@,
        }
    }

    /// All tasks, column by column from Todo to Done.
    pub open spec fn flat(&self) -> Seq<Task> {
        self.todo@ + self.doing@ + self.checking@ + self.done@
    }

    /// Every task sits in the column of its own status.
    pub open spec fn wf(&self) -> bool {
        forall|s: Status, i: int|
            0 <= i < self.column(s).len() ==> (#[trigger] self.column(s)[i]).status == s
    }

    /// All four columns empty.
    pub fn new() -> (m: StatusTaskMap)
        ensures
            forall|s: Status| (#[trigger] m.column(s)).len() == 0,
    {
        StatusTaskMap { todo: Vec::new(), doing: Vec::new(), checking: Vec::new(), done: Vec::new() }
    }

    /// The column of `status`.
    pub fn tasks_for(&self, status: Status) -> (r: &Vec<Task>)
        ensures
            r@ == self.column(status),
    {
        match status {
            Status::Todo => &self.todo,
            Status::Doing => &self.doing,
            Status::Checking => &self.checking,
            Status::Done => &self.done,
        }
    }

    /// The column of `status`, for changing it.
    pub fn tasks_for_mut(&mut self, status: Status) -> (r: &mut Vec<Task>)
        ensures
            r@ == old(self).column(status),
            final(self).column(status) == final(r)@,
            forall|s: Status| s != status ==> #[trigger] final(self).column(s) == old(self).column(s),
    {
        match status {
            Status::Todo => &mut self.todo,
            Status::Doing => &mut self.doing,
            Status::Checking => &mut self.checking,
            Status::Done => &mut self.done,
        }
    }

    /// Puts `task` first in the column of `status`.
    pub fn insert_at_top(&mut self, status: Status, task: Task)
        ensures
            final(self).column(status) == seq![task] + old(self).column(status),
            forall|s: Status| s != status ==> #[trigger] final(self).column(s) == old(self).column(s),
    {
        let list = self.tasks_for_mut(status);
        list.insert(0, task);
        assert(list@ =~= seq![task] + old(self).column(status));
    }

    /// Removes and returns the first task with the given id from the column of `status`.
    pub fn remove_by_id(&mut self, status: Status, id: u64) -> (r: Option<Task>)
        ensures
            match first_with_id(old(self).column(status), id) {
                Some(i) => r == Some(old(self).column(status)[i]) && final(self).column(status)
                    == old(self).column(status).remove(i),
                None => r is None && final(self).column(status) == old(self).column(status),
            },
            forall|s: Status| s != status ==> #[trigger] final(self).column(s) == old(self).column(s),
    {
        let ghost col = old(self).column(status);
        let pos = position_of_id(self.tasks_for(status), id);
        proof {
            lemma_first_with_id_found(col, id);
        }
        match pos {
            Some(i) => {
                let list = self.tasks_for_mut(status);
                let t = list.remove(i);
                Some(t)
            },
            None => None,
        }
    }

    /// All tasks, column by column from Todo to Done.
    pub fn all_tasks(&self) -> (r: Vec<&Task>)
        ensures
            r@.map_values(|t: &Task| *t) == self.flat(),
    {
        let mut r: Vec<&Task> = Vec::new();
        let ghost mut acc: Seq<Task> = seq![];
        let mut c: usize = 0;
        while c < 4
            invariant
                c <= 4,
                acc == if c == 0 {
                    seq![]
                } else if c == 1 {
                    self.todo@
                } else if c == 2 {
                    self.todo@ + self.doing@
                } else if c == 3 {
                    self.todo@ + self.doing@ + self.checking@
                } else {
                    self.flat()
                },
                r@.map_values(|t: &Task| *t) == acc,
            decreases 4 - c,
        {
            let list = self.tasks_for(Status::from_col_index(c));
            let mut i: usize = 0;
            let ghost start = acc;
            while i < list.len()
                invariant
                    i <= list.len(),
                    r@.map_values(|t: &Task| *t) == start + list@.take(i as int),
                decreases list.len() - i,
            {
                let ghost before = r@;
                r.push(&list[i]);
                assert(r@.map_values(|t: &Task| *t) =~= before.map_values(|t: &Task| *t).push(list@[i as int]));
                assert(list@.take(i + 1) =~= list@.take(i as int).push(list@[i as int]));
                i += 1;
            }
            assert(list@.take(list.len() as int) =~= list@);
            proof {
                acc = start + list@;
            }
            c += 1;
        }
        r
    }

    /// Distributes `tasks` into columns by status, keeping their relative order.
    pub fn from_flat(tasks: Vec<Task>) -> (m: StatusTaskMap)
        ensures
            forall|s: Status| #[trigger] m.column(s) == with_status(tasks@, s),
    {
        let mut map = StatusTaskMap::new();
        let ghost all = tasks@;
        assert(forall|s: Status| #[trigger] map.column(s) =~= with_status(all.take(0), s));
        for task in it: tasks.into_iter()
            invariant
                it.seq() == all,
                forall|s: Status| #[trigger] map.column(s) == with_status(all.take(it.index() as int), s),
        {
            let ghost k = it.index() as int;
            assert(task == all[k]);
            let st = task.status;
            let list = map.tasks_for_mut(st);
            list.push(task);
            assert(all.take(k + 1).drop_last() =~= all.take(k));
            assert(all.take(k + 1).last() == all[k]);
            assert forall|s: Status| #[trigger] map.column(s) == with_status(all.take(k + 1), s) by {
                assert(with_status(all.take(k + 1), s) == if all[k].status == s {
                    with_status(all.take(k), s).push(all[k])
                } else {
                    with_status(all.take(k), s)
                });
            }
        }
        assert(all.take(all.len() as int) =~= all);
        map
    }

    /// The number of tasks in all columns.
    pub fn len(&self) -> (n: usize)
        requires
            self.flat().len() <= usize::MAX,
        ensures
            n == self.flat().len(),
    {
        self.todo.len() + self.doing.len() + self.checking.len() + self.done.len()
    }

    /// Whether no column holds a task.
    pub fn is_empty(&self) -> (b: bool)
        requires
            self.flat().len() <= usize::MAX,
        ensures
            b == (self.flat().len() == 0),
    {
        self.len() == 0
    }
}

impl Default for StatusTaskMap {
    fn default() -> (m: StatusTaskMap)
        ensures
            forall|s: Status| (#[trigger] m.column(s)).len() == 0,
    {
        StatusTaskMap::new()
    }
}

proof fn lemma_with_status_concat(a: Seq<Task>, b: Seq<Task>, s: Status)
    ensures
        with_status(a + b, s) == with_status(a, s) + with_status(b, s),
    decreases b.len(),
{
    if b.len() == 0 {
        assert(a + b =~= a);
        assert(with_status(a, s) + with_status(b, s) =~= with_status(a, s));
    } else {
        lemma_with_status_concat(a, b.drop_last(), s);
        assert((a + b).drop_last() =~= a + b.drop_last());
        assert((a + b).last() == b.last());
        if b.last().status == s {
            assert(with_status(a, s) + with_status(b, s) =~= (with_status(a, s) + with_status(b.drop_last(), s)).push(b.last()));
        }
    }
}

proof fn lemma_with_status_uniform(c: Seq<Task>, t: Status, s: Status)
    requires
        forall|i: int| 0 <= i < c.len() ==> (#[trigger] c[i]).status == t,
    ensures
        with_status(c, s) == if s == t {
            c
        } else {
            seq![]
        },
    decreases c.len(),
{
    if c.len() > 0 {
        let d = c.drop_last();
        assert forall|i: int| 0 <= i < d.len() implies (#[trigger] d[i]).status == t by {
            assert(d[i] == c[i]);
        }
        lemma_with_status_uniform(d, t, s);
        assert(c.last().status == t);
        if s == t {
            assert(d.push(c.last()) =~= c);
        }
    }
}

/// Splitting a well-formed board into columns after listing it column by column gives back
/// the same columns: saving the board as one flat task list and loading it again is lossless.
pub proof fn law_from_flat_round_trip(m: StatusTaskMap, s: Status)
    requires
        m.wf(),
    ensures
        with_status(m.flat(), s) == m.column(s),
{
    assert forall|i: int| 0 <= i < m.todo@.len() implies (#[trigger] m.todo@[i]).status == Status::Todo by {
        assert(m.column(Status::Todo)[i] == m.todo@[i]);
    }
    assert forall|i: int| 0 <= i < m.doing@.len() implies (#[trigger] m.doing@[i]).status == Status::Doing by {
        assert(m.column(Status::Doing)[i] == m.doing@[i]);
    }
    assert forall|i: int| 0 <= i < m.checking@.len() implies (#[trigger] m.checking@[i]).status == Status::Checking by {
        assert(m.column(Status::Checking)[i] == m.checking@[i]);
    }
    assert forall|i: int| 0 <= i < m.done@.len() implies (#[trigger] m.done@[i]).status == Status::Done by {
        assert(m.column(Status::Done)[i] == m.done@[i]);
    }
    lemma_with_status_uniform(m.todo@, Status::Todo, s);
    lemma_with_status_uniform(m.doing@, Status::Doing, s);
    lemma_with_status_uniform(m.checking@, Status::Checking, s);
    lemma_with_status_uniform(m.done@, Status::Done, s);
    lemma_with_status_concat(m.todo@ + m.doing@ + m.checking@, m.done@, s);
    lemma_with_status_concat(m.todo@ + m.doing@, m.checking@, s);
    lemma_with_status_concat(m.todo@, m.doing@, s);
    match s {
        Status::Todo => {
            assert(with_status(m.flat(), s) =~= m.todo@);
        },
        Status::Doing => {
            assert(with_status(m.flat(), s) =~= m.doing@);
        },
        Status::Checking => {
            assert(with_status(m.flat(), s) =~= m.checking@);
        },
        Status::Done => {
            assert(with_status(m.flat(), s) =~= m.done@);
        },
    }
}

/// Distributing tasks into columns keeps every task exactly once: each column holds only
/// tasks of its status, and the columns together hold as many tasks as the list.
pub proof fn law_from_flat_partitions(ts: Seq<Task>)
    ensures
        forall|s: Status, i: int|
            0 <= i < with_status(ts, s).len() ==> (#[trigger] with_status(ts, s)[i]).status == s,
        with_status(ts, Status::Todo).len() + with_status(ts, Status::Doing).len() + with_status(
            ts,
            Status::Checking,
        ).len() + with_status(ts, Status::Done).len() == ts.len(),
    decreases ts.len(),
{
    if ts.len() > 0 {
        law_from_flat_partitions(ts.drop_last());
        assert forall|s: Status, i: int|
            0 <= i < with_status(ts, s).len() implies (#[trigger] with_status(ts, s)[i]).status == s by {
            let r = with_status(ts.drop_last(), s);
            if ts.last().status == s && i == r.len() {
            } else {
                assert(with_status(ts, s)[i] == r[i]);
            }
        }
    }
}

/// Removing a task by id right after putting it on top of a column returns that task and
/// leaves the column as it was.
pub proof fn law_insert_then_remove(col: Seq<Task>, t: Task)
    ensures
        first_with_id(seq![t] + col, t.id) == Some(0int),
        (seq![t] + col).remove(0) == col,
{
    lemma_first_with_id(seq![t] + col, t.id, 0);
    assert((seq![t] + col).remove(0) =~= col);
}

// ── BoardState ───────────────────────────────────────────────────────────────

/// The memo id counter of a board saved before memos existed.
pub fn default_next_memo_id() -> (r: u64)
    ensures
        r == 1,
{
    1
}

/// Everything that is saved: tasks, memos and the id counters.
#[derive(Debug, Clone)]
pub struct BoardState {
    pub version: u32,
    pub next_id: u64,
    pub tasks: StatusTaskMap,
    pub saved_at: Timestamp,
    pub memos: Vec<Memo>,
    pub next_memo_id: u64,
}

impl Default for BoardState {
    /// An empty board of format version 1, stamped with the current time.
    fn default() -> (b: BoardState)
        ensures
            b.version == 1,
            b.next_id == 1,
            forall|s: Status| (#[trigger] b.tasks.column(s)).len() == 0,
            b.memos@.len() == 0,
            b.next_memo_id == 1,
    {
        BoardState {
            version: 1,
            next_id: 1,
            tasks: StatusTaskMap::new(),
            saved_at: Timestamp::now(),
            memos: Vec::new(),
            next_memo_id: 1,
        }
    }
}

impl BoardState {
    /// Construct a board with the given tasks (flat list) and next_id.
    pub fn with_tasks(tasks: Vec<Task>, next_id: u64) -> (b: BoardState)
        ensures
            b.version == 1,
            b.next_id == next_id,
            forall|s: Status| #[trigger] b.tasks.column(s) == with_status(tasks@, s),
            b.memos@.len() == 0,
            b.next_memo_id == 1,
    {
        BoardState {
            version: 1,
            next_id,
            tasks: StatusTaskMap::from_flat(tasks),
            saved_at: Timestamp::now(),
            memos: Vec::new(),
            next_memo_id: 1,
        }
    }

    /// Allocate a new unique task ID and advance the counter.
    pub fn alloc_id(&mut self) -> (id: u64)
        requires
            old(self).next_id < u64::MAX,
        ensures
            id == old(self).next_id,
            final(self).next_id == old(self).next_id + 1,
            final(self).version == old(self).version,
            final(self).tasks == old(self).tasks,
            final(self).saved_at == old(self).saved_at,
            final(self).memos == old(self).memos,
            final(self).next_memo_id == old(self).next_memo_id,
    {
        let id = self.next_id;
        self.next_id = self.next_id + 1;
        id
    }

    /// Allocate a new unique memo ID and advance the counter.
    pub fn alloc_memo_id(&mut self) -> (id: u64)
        requires
            old(self).next_memo_id < u64::MAX,
        ensures
            id == old(self).next_memo_id,
            final(self).next_memo_id == old(self).next_memo_id + 1,
            final(self).version == old(self).version,
            final(self).next_id == old(self).next_id,
            final(self).tasks == old(self).tasks,
            final(self).saved_at == old(self).saved_at,
            final(self).memos == old(self).memos,
    {
        let id = self.next_memo_id;
        self.next_memo_id = self.next_memo_id + 1;
        id
    }

    /// Accepts a loaded board of format version 1 and refuses any other version.
    pub fn check_version(self) -> (r: Result<BoardState, AppError>)
        ensures
            self.version == 1 ==> r == Ok::<BoardState, AppError>(self),
            self.version != 1 ==> (r matches Err(AppError::VersionMismatch(v)) && v == self.version),
    {
        if self.version != 1 {
            return Err(AppError::VersionMismatch(self.version));
        }
        Ok(self)
    }
}

// ── DoneEntry ────────────────────────────────────────────────────────────────

/// A line of the daily log of finished tasks.
#[derive(Debug, Clone)]
pub struct DoneEntry {
    pub title: String,
    pub detail: String,
    pub completed_at: Timestamp,
}

impl DoneEntry {
    /// The log entry of `task`: its title, detail and completion time (the current time when
    /// the task carries none).
    pub fn from_task(task: &Task) -> (e: DoneEntry)
        ensures
            e.title == task.title,
            e.detail == task.detail,
            task.done_at matches Some(t) ==> e.completed_at == t,
    {
        let completed_at = match task.done_at {
            Some(t) => t,
            None => Timestamp::now(),
        };
        DoneEntry { title: task.title.clone(), detail: task.detail.clone(), completed_at }
    }
}

// ── AppError ─────────────────────────────────────────────────────────────────

#[verifier::external_type_specification]
#[verifier::external_body]
pub struct ExIoError(std::io::Error);

#[verifier::external_type_specification]
#[verifier::external_body]
pub struct ExJsonError(serde_json::Error);

/// Errors of loading and saving the board.
#[derive(Debug)]
pub enum AppError {
    Io(std::io::Error),
    Json(serde_json::Error),
    VersionMismatch(u32),
    Other(String),
}

/// The `Display` text of an I/O error, as the standard library writes it. It comes from the
/// operating system, so nothing is stated of it.
#[verifier::external_body]
fn io_error_text(e: &std::io::Error) -> String {
    e.to_string()
}

/// The `Display` text of a `serde_json::Error` (message, line and column). Nothing is stated
/// of it: the error value is opaque here.
#[verifier::external_body]
fn json_error_text(e: &serde_json::Error) -> String {
    e.to_string()
}

/// The decimal digits of `n`.
pub open spec fn decimal(n: nat) -> Seq<char>
    decreases n,
{
    if n < 10 {
        seq![digit_char(n)]
    } else {
        decimal(n / 10).push(digit_char(n % 10))
    }
}

/// The digit character for `d` below 10.
pub open spec fn digit_char(d: nat) -> char {
    if d == 0 {
        '0'
    } else if d == 1 {
        '1'
    } else if d == 2 {
        '2'
    } else if d == 3 {
        '3'
    } else if d == 4 {
        '4'
    } else if d == 5 {
        '5'
    } else if d == 6 {
        '6'
    } else if d == 7 {
        '7'
    } else if d == 8 {
        '8'
    } else {
        '9'
    }
}

fn digit(d: u32) -> (c: char)
    requires
        d < 10,
    ensures
        c == digit_char(d as nat),
{
    if d == 0 {
        '0'
    } else if d == 1 {
        '1'
    } else if d == 2 {
        '2'
    } else if d == 3 {
        '3'
    } else if d == 4 {
        '4'
    } else if d == 5 {
        '5'
    } else if d == 6 {
        '6'
    } else if d == 7 {
        '7'
    } else if d == 8 {
        '8'
    } else {
        '9'
    }
}

/// Appends the decimal digits of `n` to `s`.
fn push_decimal(s: &mut String, n: u32)
    ensures
        final(s)@ == old(s)@ + decimal(n as nat),
    decreases n,
{
    if n >= 10 {
        push_decimal(s, n / 10);
    }
    push_char(s, digit(n % 10));
    assert(final(s)@ =~= old(s)@ + decimal(n as nat)) by {
        if n >= 10 {
            assert(decimal(n as nat) == decimal((n / 10) as nat).push(digit_char((n % 10) as nat)));
        }
    }
}

/// Appends the characters of `t` to `s`.
pub(crate) fn push_str(s: &mut String, t: &str)
    ensures
        final(s)@ == old(s)@ + t@,
{
    let cs = chars_of(t);
    let ghost start = s@;
    let mut i: usize = 0;
    while i < cs.len()
        invariant
            i <= cs.len(),
            s@ == start + cs@.take(i as int),
        decreases cs.len() - i,
    {
        assert(cs@.take(i + 1) =~= cs@.take(i as int).push(cs@[i as int]));
        push_char(s, cs[i]);
        i += 1;
    }
    assert(cs@.take(cs.len() as int) =~= cs@);
}

/// `t` is a text that shows `e`: the version for a version mismatch, the message itself for
/// another error, and the source error's own text behind a prefix for I/O and JSON errors.
pub open spec fn error_text(e: AppError, t: Seq<char>) -> bool {
    match e {
        AppError::VersionMismatch(v) => t == "unsupported data version: "@ + decimal(v as nat),
        AppError::Other(m) => t == m@,
        AppError::Io(_) => exists|x: Seq<char>| t == "I/O error: "@ + x,
        AppError::Json(_) => exists|x: Seq<char>| t == "JSON error: "@ + x,
    }
}

impl AppError {
    /// The text shown for this error.
    pub fn message(&self) -> (r: String)
        ensures
            error_text(*self, r@),
    {
        match self {
            AppError::Io(e) => {
                let mut s = "I/O error: ".to_owned();
                let t = io_error_text(e);
                push_str(&mut s, t.as_str());
                s
            },
            AppError::Json(e) => {
                let mut s = "JSON error: ".to_owned();
                let t = json_error_text(e);
                push_str(&mut s, t.as_str());
                s
            },
            AppError::VersionMismatch(v) => {
                let mut s = "unsupported data version: ".to_owned();
                push_decimal(&mut s, *v);
                s
            },
            AppError::Other(m) => m.clone(),
        }
    }
}

impl From<std::io::Error> for AppError {
    fn from(e: std::io::Error) -> (r: AppError) {
        AppError::Io(e)
    }
}

impl vstd::std_specs::convert::FromSpecImpl<std::io::Error> for AppError {
    open spec fn obeys_from_spec() -> bool {
        true
    }

    open spec fn from_spec(e: std::io::Error) -> AppError {
        AppError::Io(e)
    }
}

impl From<serde_json::Error> for AppError {
    fn from(e: serde_json::Error) -> (r: AppError) {
        AppError::Json(e)
    }
}

impl vstd::std_specs::convert::FromSpecImpl<serde_json::Error> for AppError {
    open spec fn obeys_from_spec() -> bool {
        true
    }

    open spec fn from_spec(e: serde_json::Error) -> AppError {
        AppError::Json(e)
    }
}

impl TaskError {
    /// The text shown for this error.
    pub fn message(&self) -> (r: String)
        ensures
            r@ == "invalid task: "@ + self.0@,
    {
        let mut s = "invalid task: ".to_owned();
        push_str(&mut s, self.0.as_str());
        s
    }
}

// ── InputState ───────────────────────────────────────────────────────────────

/// The text being edited in the input popup.
pub struct InputState {
    pub buffer: String,
    /// Cursor position as a byte offset into `buffer`: on a character boundary,
    /// within `0..=buffer.len()`.
    pub cursor: usize,
    pub is_create: bool,
    pub is_memo: bool,
}

/// `(buffer, cursor)` after moving the cursor one character left.
pub open spec fn after_move_left(buf: Seq<char>, cur: int) -> (Seq<char>, int) {
    if cur == 0 {
        (buf, cur)
    } else {
        (buf, utf8_len(buf.take(char_index_at(buf, cur) - 1)) as int)
    }
}

/// `(buffer, cursor)` after moving the cursor one character right.
pub open spec fn after_move_right(buf: Seq<char>, cur: int) -> (Seq<char>, int) {
    if cur >= utf8_len(buf) {
        (buf, cur)
    } else {
        (buf, utf8_len(buf.take(char_index_at(buf, cur) + 1)) as int)
    }
}

/// `(buffer, cursor)` after inserting `c` at the cursor.
pub open spec fn after_insert(buf: Seq<char>, cur: int, c: char) -> (Seq<char>, int) {
    let k = char_index_at(buf, cur);
    (buf.take(k).push(c) + buf.skip(k), cur + char_len_utf8(c))
}

/// `(buffer, cursor)` after deleting the character before the cursor.
pub open spec fn after_delete_back(buf: Seq<char>, cur: int) -> (Seq<char>, int) {
    if cur == 0 {
        (buf, cur)
    } else {
        let k = char_index_at(buf, cur);
        (buf.take(k - 1) + buf.skip(k), utf8_len(buf.take(k - 1)) as int)
    }
}

/// Editing keeps the cursor on a character boundary: moving left or right, inserting a
/// character, and deleting the one before the cursor all leave it on a boundary of the new text.
pub proof fn law_cursor_stays_on_boundary(buf: Seq<char>, cur: int, c: char)
    requires
        is_char_boundary_at(buf, cur),
    ensures
        is_char_boundary_at(after_move_left(buf, cur).0, after_move_left(buf, cur).1),
        is_char_boundary_at(after_move_right(buf, cur).0, after_move_right(buf, cur).1),
        is_char_boundary_at(after_insert(buf, cur, c).0, after_insert(buf, cur, c).1),
        is_char_boundary_at(after_delete_back(buf, cur).0, after_delete_back(buf, cur).1),
{
    let k = char_index_at(buf, cur);
    assert(0 <= k <= buf.len() && utf8_len(buf.take(k)) == cur);
    if cur != 0 {
        if k == 0 {
            assert(buf.take(0) =~= Seq::<char>::empty());
        }
        crate::text::lemma_char_index_at(buf, k - 1);
        let nb = buf.take(k - 1) + buf.skip(k);
        assert(nb.take(k - 1) =~= buf.take(k - 1));
        crate::text::lemma_char_index_at(nb, k - 1);
    }
    if cur < utf8_len(buf) {
        if k == buf.len() {
            crate::text::lemma_take_full(buf);
        }
        crate::text::lemma_char_index_at(buf, k + 1);
    }
    let ib = buf.take(k).push(c) + buf.skip(k);
    assert(ib.take(k + 1) =~= buf.take(k).push(c));
    assert(buf.take(k).push(c).drop_last() =~= buf.take(k));
    crate::text::lemma_char_index_at(ib, k + 1);
}

/// Deleting the character before the cursor undoes inserting one there.
pub proof fn law_insert_then_delete_restores(buf: Seq<char>, cur: int, c: char)
    requires
        is_char_boundary_at(buf, cur),
    ensures
        after_delete_back(after_insert(buf, cur, c).0, after_insert(buf, cur, c).1) == (buf, cur),
{
    let k = char_index_at(buf, cur);
    assert(0 <= k <= buf.len() && utf8_len(buf.take(k)) == cur);
    let ib = buf.take(k).push(c) + buf.skip(k);
    assert(ib.take(k + 1) =~= buf.take(k).push(c));
    assert(buf.take(k).push(c).drop_last() =~= buf.take(k));
    crate::text::lemma_char_index_at(ib, k + 1);
    assert(ib.take(k) =~= buf.take(k));
    assert(ib.skip(k + 1) =~= buf.skip(k));
    assert(ib.take(k) + ib.skip(k + 1) =~= buf) by {
        assert(buf =~= buf.take(k) + buf.skip(k));
    }
}

/// Moving left undoes moving right, away from the end of the text.
pub proof fn law_move_right_then_left_restores(buf: Seq<char>, cur: int)
    requires
        is_char_boundary_at(buf, cur),
        cur < utf8_len(buf),
    ensures
        after_move_left(after_move_right(buf, cur).0, after_move_right(buf, cur).1) == (buf, cur),
{
    let k = char_index_at(buf, cur);
    assert(0 <= k <= buf.len() && utf8_len(buf.take(k)) == cur);
    if k == buf.len() {
        crate::text::lemma_take_full(buf);
    }
    crate::text::lemma_char_index_at(buf, k + 1);
    crate::text::lemma_utf8_len_take_step(buf, k);
}

impl Default for InputState {
    fn default() -> (s: InputState)
        ensures
            s.buffer@ == Seq::<char>::empty(),
            s.cursor == 0,
            !s.is_create,
            !s.is_memo,
    {
        InputState { buffer: String::new(), cursor: 0, is_create: false, is_memo: false }
    }
}

impl InputState {
    /// The cursor is on a character boundary of the buffer.
    pub open spec fn cursor_valid(&self) -> bool {
        is_char_boundary_at(self.buffer@, self.cursor as int)
    }

    /// Move cursor one character to the left (no-op at beginning).
    pub fn move_left(&mut self)
        requires
            old(self).cursor == 0 || old(self).cursor_valid(),
        ensures
            (final(self).buffer@, final(self).cursor as int) == after_move_left(
                old(self).buffer@,
                old(self).cursor as int,
            ),
            final(self).buffer == old(self).buffer,
            final(self).is_create == old(self).is_create,
            final(self).is_memo == old(self).is_memo,
    {
        if self.cursor == 0 {
            return;
        }
        let cs = chars_of(self.buffer.as_str());
        let k = char_index_of_byte(&cs, self.cursor);
        proof {
            if k == 0 {
                assert(cs@.take(0) =~= Seq::<char>::empty());
            }
            crate::text::lemma_utf8_len_take_step(cs@, k - 1);
        }
        self.cursor = self.cursor - char_utf8_len(cs[k - 1]);
    }

    /// Move cursor one character to the right (no-op at end).
    pub fn move_right(&mut self)
        requires
            old(self).cursor >= utf8_len(old(self).buffer@) || old(self).cursor_valid(),
        ensures
            (final(self).buffer@, final(self).cursor as int) == after_move_right(
                old(self).buffer@,
                old(self).cursor as int,
            ),
            final(self).buffer == old(self).buffer,
            final(self).is_create == old(self).is_create,
            final(self).is_memo == old(self).is_memo,
    {
        let total = byte_len(self.buffer.as_str());
        if self.cursor >= total {
            return;
        }
        let cs = chars_of(self.buffer.as_str());
        let k = char_index_of_byte(&cs, self.cursor);
        proof {
            if k == cs.len() {
                crate::text::lemma_take_full(cs@);
            }
            crate::text::lemma_utf8_len_take_step(cs@, k as int);
            crate::text::lemma_utf8_len_take_mono(cs@, k + 1, cs@.len() as int);
            crate::text::lemma_take_full(cs@);
        }
        self.cursor = self.cursor + char_utf8_len(cs[k]);
    }

    /// Move cursor to the beginning of the buffer.
    pub fn move_home(&mut self)
        ensures
            final(self).cursor == 0,
            final(self).buffer == old(self).buffer,
            final(self).is_create == old(self).is_create,
            final(self).is_memo == old(self).is_memo,
    {
        self.cursor = 0;
    }

    /// Move cursor to the end of the buffer.
    pub fn move_end(&mut self)
        ensures
            final(self).cursor == utf8_len(old(self).buffer@),
            final(self).buffer == old(self).buffer,
            final(self).is_create == old(self).is_create,
            final(self).is_memo == old(self).is_memo,
    {
        self.cursor = byte_len(self.buffer.as_str());
    }

    /// Insert a character at the cursor position and advance the cursor.
    pub fn insert_char(&mut self, c: char)
        requires
            old(self).cursor_valid(),
        ensures
            (final(self).buffer@, final(self).cursor as int) == after_insert(
                old(self).buffer@,
                old(self).cursor as int,
                c,
            ),
            final(self).is_create == old(self).is_create,
            final(self).is_memo == old(self).is_memo,
    {
        let cs = chars_of(self.buffer.as_str());
        let k = char_index_of_byte(&cs, self.cursor);
        let mut nb = string_from_chars(&cs, 0, k);
        push_char(&mut nb, c);
        let mut i = k;
        while i < cs.len()
            invariant
                k <= i <= cs.len(),
                nb@ == cs@.take(k as int).push(c) + cs@.subrange(k as int, i as int),
            decreases cs.len() - i,
        {
            assert(cs@.subrange(k as int, i + 1) =~= cs@.subrange(k as int, i as int).push(cs@[i as int]));
            push_char(&mut nb, cs[i]);
            i += 1;
        }
        assert(cs@.subrange(0, k as int) =~= cs@.take(k as int));
        assert(cs@.subrange(k as int, cs.len() as int) =~= cs@.skip(k as int));
        // The new buffer's byte length bounds the new cursor.
        let _new_len = byte_len(nb.as_str());
        proof {
            let pre = cs@.take(k as int).push(c);
            crate::text::lemma_utf8_len_concat(pre, cs@.skip(k as int));
            assert(pre.drop_last() =~= cs@.take(k as int));
        }
        self.buffer = nb;
        self.cursor = self.cursor + char_utf8_len(c);
    }

    /// Delete the character immediately before the cursor (backspace). No-op at start.
    pub fn delete_char_back(&mut self)
        requires
            old(self).cursor == 0 || old(self).cursor_valid(),
        ensures
            (final(self).buffer@, final(self).cursor as int) == after_delete_back(
                old(self).buffer@,
                old(self).cursor as int,
            ),
            final(self).is_create == old(self).is_create,
            final(self).is_memo == old(self).is_memo,
    {
        if self.cursor == 0 {
            return;
        }
        let cs = chars_of(self.buffer.as_str());
        let k = char_index_of_byte(&cs, self.cursor);
        proof {
            if k == 0 {
                assert(cs@.take(0) =~= Seq::<char>::empty());
            }
            crate::text::lemma_utf8_len_take_step(cs@, k - 1);
        }
        let mut nb = string_from_chars(&cs, 0, k - 1);
        let mut i = k;
        while i < cs.len()
            invariant
                1 <= k <= i <= cs.len(),
                nb@ == cs@.take(k - 1) + cs@.subrange(k as int, i as int),
            decreases cs.len() - i,
        {
            assert(cs@.subrange(k as int, i + 1) =~= cs@.subrange(k as int, i as int).push(cs@[i as int]));
            push_char(&mut nb, cs[i]);
            i += 1;
        }
        assert(cs@.subrange(0, k - 1) =~= cs@.take(k - 1));
        assert(cs@.subrange(k as int, cs.len() as int) =~= cs@.skip(k as int));
        self.buffer = nb;
        self.cursor = self.cursor - char_utf8_len(cs[k - 1]);
    }

    /// Set the buffer to `s` and move the cursor to the end.
    pub fn set_buffer(&mut self, s: String)
        ensures
            final(self).buffer == s,
            final(self).cursor == utf8_len(s@),
            final(self).is_create == old(self).is_create,
            final(self).is_memo == old(self).is_memo,
    {
        self.cursor = byte_len(s.as_str());
        self.buffer = s;
    }

    /// Append a character to the buffer (does not update cursor).
    pub fn push_char(&mut self, c: char)
        ensures
            final(self).buffer@ == old(self).buffer@.push(c),
            final(self).cursor == old(self).cursor,
            final(self).is_create == old(self).is_create,
            final(self).is_memo == old(self).is_memo,
    {
        push_char(&mut self.buffer, c);
    }

    /// Remove the last character from the buffer (does not update cursor; no-op if empty).
    pub fn pop_char(&mut self)
        ensures
            final(self).buffer@ == if old(self).buffer@.len() == 0 {
                old(self).buffer@
            } else {
                old(self).buffer@.drop_last()
            },
            final(self).cursor == old(self).cursor,
            final(self).is_create == old(self).is_create,
            final(self).is_memo == old(self).is_memo,
    {
        let cs = chars_of(self.buffer.as_str());
        if cs.len() == 0 {
            return;
        }
        let nb = string_from_chars(&cs, 0, cs.len() - 1);
        assert(cs@.subrange(0, cs.len() - 1) =~= cs@.drop_last());
        self.buffer = nb;
    }

    /// Return the current buffer contents.
    pub fn value(&self) -> (r: &str)
        ensures
            r@ == self.buffer@,
    {
        self.buffer.as_str()
    }

    /// Reset the buffer, cursor, and flags to defaults.
    pub fn clear(&mut self)
        ensures
            final(self).buffer@ == Seq::<char>::empty(),
            final(self).cursor == 0,
            !final(self).is_create,
            !final(self).is_memo,
    {
        self.buffer = String::new();
        self.cursor = 0;
        self.is_create = false;
        self.is_memo = false;
    }
}

/// A clickable URL on screen: the row and the half-open column range it covers.
#[derive(Debug, Clone, PartialEq)]
pub struct UrlHitRegion {
    pub row: u16,
    pub col_start: u16,
    pub col_end: u16,
    pub url: String,
}

/// A clickable task card on screen.
#[derive(Debug, Clone, PartialEq)]
pub struct TaskHitRegion {
    pub row_start: u16,
    pub row_end: u16,
    pub col_start: u16,
    pub col_end: u16,
    pub column: usize,
    pub card_index: usize,
}

/// A clickable memo cell on screen.
#[derive(Debug, Clone, PartialEq)]
pub struct MemoHitRegion {
    pub row: u16,
    pub col_start: u16,
    pub col_end: u16,
    pub memo_index: usize,
}

} // verus!
