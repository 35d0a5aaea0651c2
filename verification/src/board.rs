//! The Kanban board: its three columns, and what each drag, drop and menu
//! click does to the board's state and asks of the project.
use crate::listing::tasks_with_status;
use crate::models::{count_status, Task, TaskStatus};
use crate::text::same_text;
use vstd::prelude::*;

verus! {

/// A column of the board: its status, its title, and the positions of its
/// tasks in the project's list.
pub struct Column {
    pub status: TaskStatus,
    pub title: &'static str,
    pub tasks: Vec<usize>,
}

/// The board's statuses, left to right.
pub open spec fn column_status(k: int) -> TaskStatus {
    if k == 0 {
        TaskStatus::Todo
    } else if k == 1 {
        TaskStatus::InProgress
    } else {
        TaskStatus::Done
    }
}

fn column_of(tasks: &Vec<Task>, status: TaskStatus) -> (r: Column)
    ensures
        r.status == status,
        r.title@ == status.label_spec(),
        r.tasks@ == tasks_with_status(tasks@, Some(status), tasks@.len()),
{
    let n = tasks.len();
    let mut v: Vec<usize> = Vec::new();
    let mut i: usize = 0;
    while i < n
        invariant
            n == tasks@.len(),
            i <= n,
            v@ == tasks_with_status(tasks@, Some(status), i as nat),
        decreases n - i,
    {
        if tasks[i].status == status {
            v.push(i);
        }
        i = i + 1;
    }
    Column { status, title: status.label(), tasks: v }
}

/// The columns "Por hacer", "En progreso" and "Completado", each with the
/// project's tasks of its status in list order.
pub fn kanban_columns(tasks: &Vec<Task>) -> (r: Vec<Column>)
    ensures
        r@.len() == 3,
        forall|k: int|
            0 <= k < 3 ==> {
                let c = #[trigger] r@[k];
                &&& c.status == column_status(k)
                &&& c.title@ == c.status.label_spec()
                &&& c.tasks@ == tasks_with_status(tasks@, Some(c.status), tasks@.len())
            },
{
    let mut r: Vec<Column> = Vec::new();
    r.push(column_of(tasks, TaskStatus::Todo));
    r.push(column_of(tasks, TaskStatus::InProgress));
    r.push(column_of(tasks, TaskStatus::Done));
    r
}

proof fn lemma_with_status_len(ts: Seq<Task>, s: TaskStatus, n: nat)
    requires
        n <= ts.len(),
        n <= usize::MAX,
    ensures
        tasks_with_status(ts, Some(s), n).len() == count_status(ts.subrange(0, n as int), s),
        forall|i: int|
            0 <= i < tasks_with_status(ts, Some(s), n).len() ==> {
                let p = #[trigger] tasks_with_status(ts, Some(s), n)[i];
                p < n && ts[p as int].status == s
            },
    decreases n,
{
    if n > 0 {
        lemma_with_status_len(ts, s, (n - 1) as nat);
        assert(ts.subrange(0, n as int).drop_last() =~= ts.subrange(0, n - 1));
        let rest = tasks_with_status(ts, Some(s), (n - 1) as nat);
        let all = tasks_with_status(ts, Some(s), n);
        assert forall|i: int| 0 <= i < all.len() implies (#[trigger] all[i]) < n && ts[all[i] as int].status == s by {
            if i < rest.len() {
                assert(all[i] == rest[i]);
            }
        }
    } else {
        assert(ts.subrange(0, 0) =~= Seq::<Task>::empty());
    }
}

/// Every task has exactly one status.
proof fn lemma_counts_add_up(ts: Seq<Task>)
    ensures
        count_status(ts, TaskStatus::Todo) + count_status(ts, TaskStatus::InProgress)
            + count_status(ts, TaskStatus::Done) == ts.len(),
    decreases ts.len(),
{
    if ts.len() > 0 {
        lemma_counts_add_up(ts.drop_last());
    }
}

/// The board's columns follow the work: to do, in progress, done, left to
/// right.
pub proof fn law_columns_in_workflow_order()
    ensures
        column_status(0) == TaskStatus::Todo,
        column_status(1) == TaskStatus::InProgress,
        column_status(2) == TaskStatus::Done,
{
}

/// The board shows every task of the project once: each column holds only
/// tasks of its status, and the columns together hold as many tasks as the
/// project has.
pub proof fn law_columns_partition_tasks(ts: Seq<Task>)
    requires
        ts.len() <= usize::MAX,
    ensures
        tasks_with_status(ts, Some(TaskStatus::Todo), ts.len()).len() + tasks_with_status(
            ts,
            Some(TaskStatus::InProgress),
            ts.len(),
        ).len() + tasks_with_status(ts, Some(TaskStatus::Done), ts.len()).len() == ts.len(),
        forall|s: TaskStatus, i: int|
            0 <= i < tasks_with_status(ts, Some(s), ts.len()).len() ==> {
                let p = #[trigger] tasks_with_status(ts, Some(s), ts.len())[i];
                p < ts.len() && ts[p as int].status == s
            },
{
    lemma_with_status_len(ts, TaskStatus::Todo, ts.len());
    lemma_with_status_len(ts, TaskStatus::InProgress, ts.len());
    lemma_with_status_len(ts, TaskStatus::Done, ts.len());
    assert(ts.subrange(0, ts.len() as int) =~= ts);
    lemma_counts_add_up(ts);
    assert forall|s: TaskStatus, i: int|
        0 <= i < tasks_with_status(ts, Some(s), ts.len()).len() implies {
            let p = #[trigger] tasks_with_status(ts, Some(s), ts.len())[i];
            p < ts.len() && ts[p as int].status == s
        } by {
        lemma_with_status_len(ts, s, ts.len());
    }
}

// ── Drag and drop, and the card menu ─────────────────────────────────────────
/// What the board remembers between events.
pub struct BoardState {
    /// The card being dragged.
    pub dragged: Option<String>,
    /// The column the drag is over (highlighted).
    pub drag_over: Option<TaskStatus>,
    /// The card whose menu is open.
    pub open_menu: Option<String>,
}

/// What happens on the board.
pub enum BoardEvent {
    /// A card starts being dragged.
    DragStart(String),
    /// The drag of a card ends, dropped or not.
    DragEnd,
    /// The drag passes over a column.
    DragOver(TaskStatus),
    /// The drag leaves a column.
    DragLeave(TaskStatus),
    /// Something is dropped on a column.
    Drop(TaskStatus),
    /// A card's menu button is clicked.
    ToggleMenu(String),
    /// "Editar" in a card's menu.
    Edit(String),
    /// "Eliminar" in a card's menu.
    Delete(String),
}

/// What the board asks of the project after an event.
pub enum BoardAction {
    Nothing,
    /// Give the task this status.
    MoveTask(String, TaskStatus),
    /// Edit the task.
    EditTask(String),
    /// Delete the task once the user confirms.
    ConfirmDelete(String),
}

impl BoardState {
    /// A board with nothing dragged and no menu open.
    pub fn new() -> (r: BoardState)
        ensures
            r.dragged is None,
            r.drag_over is None,
            r.open_menu is None,
    {
        BoardState { dragged: None, drag_over: None, open_menu: None }
    }
}

/// The board's next state, and what it asks for, after `event`:
/// - starting a drag remembers the card and closes any menu;
/// - ending a drag forgets the card;
/// - passing over a column highlights it, leaving the highlighted column
///   clears the highlight;
/// - a drop clears the highlight, forgets the card and, if a card was being
///   dragged, moves it to the column's status;
/// - a menu button opens that card's menu, or closes it if it was the open
///   one;
/// - "Editar" and "Eliminar" close the menu and ask for the edit or for a
///   confirmed delete.
pub fn board_step(state: BoardState, event: BoardEvent) -> (r: (BoardState, BoardAction))
    ensures
        match event {
            BoardEvent::DragStart(id) => r.0.dragged == Some(id) && r.0.drag_over
                == state.drag_over && r.0.open_menu is None && r.1 is Nothing,
            BoardEvent::DragEnd => r.0.dragged is None && r.0.drag_over == state.drag_over
                && r.0.open_menu == state.open_menu && r.1 is Nothing,
            BoardEvent::DragOver(s) => r.0.dragged == state.dragged && r.0.drag_over == Some(s)
                && r.0.open_menu == state.open_menu && r.1 is Nothing,
            BoardEvent::DragLeave(s) => r.0.dragged == state.dragged && r.0.drag_over == (if state.drag_over
                == Some(s) {
                None
            } else {
                state.drag_over
            }) && r.0.open_menu == state.open_menu && r.1 is Nothing,
            BoardEvent::Drop(s) => r.0.dragged is None && r.0.drag_over is None && r.0.open_menu
                == state.open_menu && match state.dragged {
                Some(id) => r.1 matches BoardAction::MoveTask(m, t) && m == id && t == s,
                None => r.1 is Nothing,
            },
            BoardEvent::ToggleMenu(id) => r.0.dragged == state.dragged && r.0.drag_over
                == state.drag_over && (if state.open_menu is Some && state.open_menu->0@ == id@ {
                r.0.open_menu is None
            } else {
                r.0.open_menu == Some(id)
            }) && r.1 is Nothing,
            BoardEvent::Edit(id) => r.0.dragged == state.dragged && r.0.drag_over
                == state.drag_over && r.0.open_menu is None && r.1 == BoardAction::EditTask(id),
            BoardEvent::Delete(id) => r.0.dragged == state.dragged && r.0.drag_over
                == state.drag_over && r.0.open_menu is None && r.1 == BoardAction::ConfirmDelete(
                id,
            ),
        },
{
    let BoardState { dragged, drag_over, open_menu } = state;
    match event {
        BoardEvent::DragStart(id) => (
            BoardState { dragged: Some(id), drag_over, open_menu: None },
            BoardAction::Nothing,
        ),
        BoardEvent::DragEnd => (BoardState { dragged: None, drag_over, open_menu }, BoardAction::Nothing),
        BoardEvent::DragOver(s) => (
            BoardState { dragged, drag_over: Some(s), open_menu },
            BoardAction::Nothing,
        ),
        BoardEvent::DragLeave(s) => {
            let over = match drag_over {
                Some(o) => if o == s {
                    None
                } else {
                    Some(o)
                },
                None => None,
            };
            (BoardState { dragged, drag_over: over, open_menu }, BoardAction::Nothing)
        },
        BoardEvent::Drop(s) => {
            let action = match dragged {
                Some(id) => BoardAction::MoveTask(id, s),
                None => BoardAction::Nothing,
            };
            (BoardState { dragged: None, drag_over: None, open_menu }, action)
        },
        BoardEvent::ToggleMenu(id) => {
            let close = match &open_menu {
                Some(cur) => same_text(cur.as_str(), id.as_str()),
                None => false,
            };
            let menu = if close {
                None
            } else {
                Some(id)
            };
            (BoardState { dragged, drag_over, open_menu: menu }, BoardAction::Nothing)
        },
        BoardEvent::Edit(id) => (
            BoardState { dragged, drag_over, open_menu: None },
            BoardAction::EditTask(id),
        ),
        BoardEvent::Delete(id) => (
            BoardState { dragged, drag_over, open_menu: None },
            BoardAction::ConfirmDelete(id),
        ),
    }
}

/// The position of the first task with id `id`.
pub fn find_task(tasks: &Vec<Task>, id: &str) -> (r: Option<usize>)
    ensures
        match r {
            Some(i) => i < tasks@.len() && tasks@[i as int].id@ == id@ && forall|j: int|
                0 <= j < i ==> tasks@[j].id@ != id@,
            None => forall|j: int| 0 <= j < tasks@.len() ==> tasks@[j].id@ != id@,
        },
{
    let mut i: usize = 0;
    while i < tasks.len()
        invariant
            i <= tasks@.len(),
            forall|j: int| 0 <= j < i ==> tasks@[j].id@ != id@,
        decreases tasks@.len() - i,
    {
        if same_text(tasks[i].id.as_str(), id) {
            return Some(i);
        }
        i = i + 1;
    }
    None
}

/// A task moved to another column: the same task with the column's status.
pub fn with_status(task: Task, status: TaskStatus) -> (r: Task)
    ensures
        r == (Task { status, ..task }),
{
    Task { status, ..task }
}

} // verus!
