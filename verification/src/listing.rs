//! The project grid and the task table: their counts, the search, the
//! status filter, and the order their rows are shown in.
//!
//! Row orders are given as positions into the list the view was handed:
//! the view shows `items[r[0]]`, `items[r[1]]`, and so on.
use crate::models::{count_status, Priority, Project, ProjectStatus, Task, TaskStatus};
use crate::ordering::{
    is_sorted_by, key_order, lemma_key_order_strict_weak, lemma_stable_sort_multiset,
    lemma_stable_sort_sorted, sort_positions, stable_sort,
};
use crate::text::{
    contains_text, lowercase, lowercase_of, push_decimal, push_text, text_contains, text_lt,
    decimal, views_of,
};
use vstd::prelude::*;

verus! {

/// The text of an optional field, empty when there is none.
pub open spec fn text_or_empty(o: Option<String>) -> Seq<char> {
    match o {
        Some(s) => s@,
        None => Seq::empty(),
    }
}

fn text_or_empty_exec(o: &Option<String>) -> (r: String)
    ensures
        r@ == text_or_empty(*o),
{
    match o {
        Some(s) => s.clone(),
        None => String::new(),
    }
}

/// A priority as the digit it sorts by: low `0`, medium `1`, high `2`.
pub open spec fn rank_text(p: Priority) -> Seq<char> {
    match p {
        Priority::Low => "0"@,
        Priority::Medium => "1"@,
        Priority::High => "2"@,
    }
}

fn rank_text_exec(p: Priority) -> (r: String)
    ensures
        r@ == rank_text(p),
{
    match p {
        Priority::Low => "0".to_string(),
        Priority::Medium => "1".to_string(),
        Priority::High => "2".to_string(),
    }
}

/// `s` for every count but one.
pub open spec fn plural(n: nat) -> Seq<char> {
    if n != 1 {
        "s"@
    } else {
        ""@
    }
}

/// The plural ending for `n` things.
pub fn plural_suffix(n: usize) -> (r: &'static str)
    ensures
        r@ == plural(n as nat),
{
    if n != 1 {
        "s"
    } else {
        ""
    }
}

// ── The project grid ─────────────────────────────────────────────────────────
/// The columns the project grid sorts by.
#[derive(Clone, Copy, PartialEq, Eq, Debug, Structural)]
pub enum SortField {
    Name,
    Status,
    StartDate,
    EndDate,
    Priority,
}

/// The text a project sorts by in a column (missing dates sort as empty
/// text, so first).
pub open spec fn project_sort_key(p: Project, f: SortField) -> Seq<char> {
    match f {
        SortField::Name => p.name@,
        SortField::Status => p.status.name(),
        SortField::StartDate => text_or_empty(p.start_date),
        SortField::EndDate => text_or_empty(p.end_date),
        SortField::Priority => rank_text(p.priority),
    }
}

impl SortField {
    /// The text `p` sorts by in this column.
    pub fn value(self, p: &Project) -> (r: String)
        ensures
            r@ == project_sort_key(*p, self),
    {
        match self {
            SortField::Name => p.name.clone(),
            SortField::Status => p.status.as_str().to_string(),
            SortField::StartDate => text_or_empty_exec(&p.start_date),
            SortField::EndDate => text_or_empty_exec(&p.end_date),
            SortField::Priority => rank_text_exec(p.priority),
        }
    }
}

/// Every project's key in a column, in list order.
pub open spec fn project_keys(ps: Seq<Project>, f: SortField) -> Seq<Seq<char>> {
    ps.map_values(|p: Project| project_sort_key(p, f))
}

/// A project matches a (lowercased) search when its lowercased name, or
/// its lowercased description, contains it.
pub open spec fn project_matches(p: Project, query: Seq<char>) -> bool {
    text_contains(lowercase_of(p.name@), query) || (p.description is Some && text_contains(
        lowercase_of(p.description->0@),
        query,
    ))
}

/// The positions, among the first `n`, of the projects the search keeps
/// (all of them for an empty search), in list order.
pub open spec fn matching_projects(ps: Seq<Project>, query: Seq<char>, n: nat) -> Seq<usize>
    decreases n,
{
    if n == 0 {
        Seq::empty()
    } else {
        let rest = matching_projects(ps, query, (n - 1) as nat);
        if query.len() == 0 || project_matches(ps[n - 1], query) {
            rest.push((n - 1) as usize)
        } else {
            rest
        }
    }
}

proof fn lemma_matching_in_range(ps: Seq<Project>, query: Seq<char>, n: nat)
    requires
        n <= ps.len(),
        n <= usize::MAX,
    ensures
        forall|i: int|
            0 <= i < matching_projects(ps, query, n).len() ==> (#[trigger] matching_projects(
                ps,
                query,
                n,
            )[i]) < n,
    decreases n,
{
    if n > 0 {
        lemma_matching_in_range(ps, query, (n - 1) as nat);
        let rest = matching_projects(ps, query, (n - 1) as nat);
        let all = matching_projects(ps, query, n);
        assert forall|i: int| 0 <= i < all.len() implies (#[trigger] all[i]) < n by {
            if i < rest.len() {
                assert(all[i] == rest[i]);
            }
        }
    }
}

/// The rows of the project grid: the projects the search keeps, stably
/// sorted by the column's text, ascending or descending.
pub fn grid_rows(projects: &Vec<Project>, search: &str, field: SortField, asc: bool) -> (r: Vec<
    usize,
>)
    ensures
        r@ == stable_sort(
            matching_projects(projects@, lowercase_of(search@), projects@.len()),
            key_order(project_keys(projects@, field), !asc),
        ),
{
    let query = lowercase(search);
    let ghost q = lowercase_of(search@);
    let n = projects.len();
    let mut keys: Vec<String> = Vec::new();
    let mut order: Vec<usize> = Vec::new();
    let mut i: usize = 0;
    while i < n
        invariant
            n == projects@.len(),
            query@ == q,
            i <= n,
            keys@.len() == i,
            forall|k: int| 0 <= k < i ==> (#[trigger] keys@[k])@ == project_sort_key(projects@[k], field),
            order@ == matching_projects(projects@, q, i as nat),
        decreases n - i,
    {
        let p = &projects[i];
        keys.push(field.value(p));
        let keep = if query.unicode_len() == 0 {
            true
        } else if contains_text(lowercase(p.name.as_str()).as_str(), query.as_str()) {
            true
        } else {
            match &p.description {
                Some(d) => contains_text(lowercase(d.as_str()).as_str(), query.as_str()),
                None => false,
            }
        };
        if keep {
            order.push(i);
        }
        i = i + 1;
    }
    proof {
        lemma_matching_in_range(projects@, q, n as nat);
        assert(views_of(keys@) =~= project_keys(projects@, field));
    }
    sort_positions(&keys, &mut order, !asc);
    order
}

/// How many projects of `ps` have the status `s`.
pub open spec fn count_project_status(ps: Seq<Project>, s: ProjectStatus) -> nat
    decreases ps.len(),
{
    if ps.len() == 0 {
        0
    } else {
        count_project_status(ps.drop_last(), s) + if ps.last().status == s {
            1nat
        } else {
            0nat
        }
    }
}

proof fn lemma_count_project_status_bound(ps: Seq<Project>, s: ProjectStatus)
    ensures
        count_project_status(ps, s) <= ps.len(),
    decreases ps.len(),
{
    if ps.len() > 0 {
        lemma_count_project_status_bound(ps.drop_last(), s);
    }
}

/// The figures in the grid's header.
pub struct GridCounts {
    pub total: usize,
    pub active: usize,
    pub planning: usize,
    pub paused: usize,
    pub completed: usize,
}

/// How many projects there are, and how many in each status the header
/// shows.
pub fn grid_counts(projects: &Vec<Project>) -> (r: GridCounts)
    ensures
        r.total == projects@.len(),
        r.active == count_project_status(projects@, ProjectStatus::Active),
        r.planning == count_project_status(projects@, ProjectStatus::Planning),
        r.paused == count_project_status(projects@, ProjectStatus::Paused),
        r.completed == count_project_status(projects@, ProjectStatus::Completed),
{
    let mut c = GridCounts { total: projects.len(), active: 0, planning: 0, paused: 0, completed: 0 };
    let mut i: usize = 0;
    assert(projects@.subrange(0, 0) =~= Seq::<Project>::empty());
    while i < projects.len()
        invariant
            i <= projects@.len(),
            c.total == projects@.len(),
            c.active == count_project_status(projects@.subrange(0, i as int), ProjectStatus::Active),
            c.planning == count_project_status(projects@.subrange(0, i as int), ProjectStatus::Planning),
            c.paused == count_project_status(projects@.subrange(0, i as int), ProjectStatus::Paused),
            c.completed == count_project_status(projects@.subrange(0, i as int), ProjectStatus::Completed),
        decreases projects@.len() - i,
    {
        let ghost pre = projects@.subrange(0, i as int);
        let ghost next = projects@.subrange(0, i as int + 1);
        assert(next.drop_last() =~= pre);
        proof {
            lemma_count_project_status_bound(pre, ProjectStatus::Active);
            lemma_count_project_status_bound(pre, ProjectStatus::Planning);
            lemma_count_project_status_bound(pre, ProjectStatus::Paused);
            lemma_count_project_status_bound(pre, ProjectStatus::Completed);
        }
        match projects[i].status {
            ProjectStatus::Active => c.active = c.active + 1,
            ProjectStatus::Planning => c.planning = c.planning + 1,
            ProjectStatus::Paused => c.paused = c.paused + 1,
            ProjectStatus::Completed => c.completed = c.completed + 1,
        }
        i = i + 1;
    }
    assert(projects@.subrange(0, projects@.len() as int) =~= projects@);
    c
}

/// The sort after a click on a column header: the same column turns the
/// direction around, another column sorts by it ascending.
pub open spec fn sort_after_click<F>(current: F, asc: bool, clicked: F) -> (F, bool) {
    if current == clicked {
        (current, !asc)
    } else {
        (clicked, true)
    }
}

/// What a click on a column header of the grid does to the sort.
pub fn toggle_sort(current: SortField, asc: bool, clicked: SortField) -> (r: (SortField, bool))
    ensures
        r == sort_after_click(current, asc, clicked),
{
    if current == clicked {
        (current, !asc)
    } else {
        (clicked, true)
    }
}

/// Two clicks on the sorted column bring its direction back; a click on
/// another column sorts by it ascending.
pub proof fn law_sort_clicks<F>(current: F, asc: bool, other: F)
    requires
        other != current,
    ensures
        ({
            let once = sort_after_click(current, asc, current);
            sort_after_click(once.0, once.1, current)
        }) == (current, asc),
        sort_after_click(current, asc, other) == (other, true),
{
}

/// The grid shows exactly the projects the search keeps, each once, in the
/// column's order.
pub proof fn law_grid_rows_ordered(ps: Seq<Project>, query: Seq<char>, field: SortField, asc: bool)
    ensures
        ({
            let kept = matching_projects(ps, query, ps.len());
            let rows = stable_sort(kept, key_order(project_keys(ps, field), !asc));
            &&& rows.to_multiset() == kept.to_multiset()
            &&& is_sorted_by(rows, key_order(project_keys(ps, field), !asc))
        }),
{
    let kept = matching_projects(ps, query, ps.len());
    lemma_stable_sort_multiset(kept, key_order(project_keys(ps, field), !asc));
    lemma_key_order_strict_weak(project_keys(ps, field), !asc);
    lemma_stable_sort_sorted(kept, key_order(project_keys(ps, field), !asc));
}

/// The header icon of a column: neutral unless it is the sorted one, then
/// up or down by the direction.
pub open spec fn sort_icon_class(sorted: bool, asc: bool) -> Seq<char> {
    if !sorted {
        "bi bi-chevron-expand text-[var(--text-secondary)] ms-1"@
    } else if asc {
        "bi bi-chevron-up ms-1"@
    } else {
        "bi bi-chevron-down ms-1"@
    }
}

/// The icon class of the header of `field` while `current` sorts.
pub fn sort_icon(field: SortField, current: SortField, asc: bool) -> (r: &'static str)
    ensures
        r@ == sort_icon_class(field == current, asc),
{
    if field != current {
        "bi bi-chevron-expand text-[var(--text-secondary)] ms-1"
    } else if asc {
        "bi bi-chevron-up ms-1"
    } else {
        "bi bi-chevron-down ms-1"
    }
}

/// The team column: `"N miembro(s)"`, or `"Sin equipo"`.
pub open spec fn team_text(n: nat) -> Seq<char> {
    if n > 0 {
        decimal(n) + " miembro"@ + plural(n)
    } else {
        "Sin equipo"@
    }
}

/// The team column of a project with `n` members.
pub fn team_label(n: usize) -> (r: String)
    ensures
        r@ == team_text(n as nat),
{
    if n > 0 {
        let mut s = String::new();
        push_decimal(&mut s, n as u64);
        push_text(&mut s, " miembro");
        push_text(&mut s, plural_suffix(n));
        s
    } else {
        "Sin equipo".to_string()
    }
}

// ── The task table ───────────────────────────────────────────────────────────
/// The columns the task table sorts by.
#[derive(Clone, Copy, PartialEq, Eq, Debug, Structural)]
pub enum TaskSort {
    Title,
    Status,
    Priority,
    StartDate,
    EndDate,
}

/// The text a task sorts by in a column.
pub open spec fn task_sort_key(t: Task, f: TaskSort) -> Seq<char> {
    match f {
        TaskSort::Title => t.title@,
        TaskSort::Status => t.status.name(),
        TaskSort::Priority => rank_text(t.priority),
        TaskSort::StartDate => text_or_empty(t.start_date),
        TaskSort::EndDate => text_or_empty(t.end_date),
    }
}

impl TaskSort {
    /// The text `t` sorts by in this column.
    pub fn value(self, t: &Task) -> (r: String)
        ensures
            r@ == task_sort_key(*t, self),
    {
        match self {
            TaskSort::Title => t.title.clone(),
            TaskSort::Status => t.status.as_str().to_string(),
            TaskSort::Priority => rank_text_exec(t.priority),
            TaskSort::StartDate => text_or_empty_exec(&t.start_date),
            TaskSort::EndDate => text_or_empty_exec(&t.end_date),
        }
    }
}

/// Every task's key in a column, in list order.
pub open spec fn task_keys(ts: Seq<Task>, f: TaskSort) -> Seq<Seq<char>> {
    ts.map_values(|t: Task| task_sort_key(t, f))
}

/// The positions, among the first `n`, of the tasks the status filter keeps
/// (all of them without a filter), in list order.
pub open spec fn tasks_with_status(ts: Seq<Task>, filter: Option<TaskStatus>, n: nat) -> Seq<usize>
    decreases n,
{
    if n == 0 {
        Seq::empty()
    } else {
        let rest = tasks_with_status(ts, filter, (n - 1) as nat);
        if filter is None || ts[n - 1].status == filter->0 {
            rest.push((n - 1) as usize)
        } else {
            rest
        }
    }
}

proof fn lemma_with_status_in_range(ts: Seq<Task>, filter: Option<TaskStatus>, n: nat)
    requires
        n <= ts.len(),
        n <= usize::MAX,
    ensures
        forall|i: int|
            0 <= i < tasks_with_status(ts, filter, n).len() ==> (#[trigger] tasks_with_status(
                ts,
                filter,
                n,
            )[i]) < n,
    decreases n,
{
    if n > 0 {
        lemma_with_status_in_range(ts, filter, (n - 1) as nat);
        let rest = tasks_with_status(ts, filter, (n - 1) as nat);
        let all = tasks_with_status(ts, filter, n);
        assert forall|i: int| 0 <= i < all.len() implies (#[trigger] all[i]) < n by {
            if i < rest.len() {
                assert(all[i] == rest[i]);
            }
        }
    }
}

/// The rows of the task table: the tasks the filter keeps, stably sorted by
/// the column's text, ascending or descending.
pub fn task_rows(tasks: &Vec<Task>, filter: Option<TaskStatus>, field: TaskSort, asc: bool) -> (r:
    Vec<usize>)
    ensures
        r@ == stable_sort(
            tasks_with_status(tasks@, filter, tasks@.len()),
            key_order(task_keys(tasks@, field), !asc),
        ),
{
    let n = tasks.len();
    let mut keys: Vec<String> = Vec::new();
    let mut order: Vec<usize> = Vec::new();
    let mut i: usize = 0;
    while i < n
        invariant
            n == tasks@.len(),
            i <= n,
            keys@.len() == i,
            forall|k: int| 0 <= k < i ==> (#[trigger] keys@[k])@ == task_sort_key(tasks@[k], field),
            order@ == tasks_with_status(tasks@, filter, i as nat),
        decreases n - i,
    {
        let t = &tasks[i];
        keys.push(field.value(t));
        let keep = match filter {
            None => true,
            Some(s) => t.status == s,
        };
        if keep {
            order.push(i);
        }
        i = i + 1;
    }
    proof {
        lemma_with_status_in_range(tasks@, filter, n as nat);
        assert(views_of(keys@) =~= task_keys(tasks@, field));
    }
    sort_positions(&keys, &mut order, !asc);
    order
}

/// The figures on the filter buttons.
pub struct TaskCounts {
    pub all: usize,
    pub todo: usize,
    pub in_progress: usize,
    pub done: usize,
}

/// How many tasks there are, and how many in each status.
pub fn task_counts(project: &Project) -> (r: TaskCounts)
    ensures
        r.all == project.tasks@.len(),
        r.todo == count_status(project.tasks@, TaskStatus::Todo),
        r.in_progress == count_status(project.tasks@, TaskStatus::InProgress),
        r.done == count_status(project.tasks@, TaskStatus::Done),
{
    TaskCounts {
        all: project.tasks.len(),
        todo: project.task_count(TaskStatus::Todo),
        in_progress: project.task_count(TaskStatus::InProgress),
        done: project.task_count(TaskStatus::Done),
    }
}

/// What an empty table says: nothing in the project, or nothing in the
/// chosen status.
pub open spec fn empty_tasks_text(filter: Option<TaskStatus>) -> Seq<char> {
    if filter is None {
        "No hay tareas en este proyecto"@
    } else {
        "No hay tareas con este estado"@
    }
}

/// The message of an empty task table.
pub fn empty_tasks_message(filter: Option<TaskStatus>) -> (r: &'static str)
    ensures
        r@ == empty_tasks_text(filter),
{
    match filter {
        None => "No hay tareas en este proyecto",
        Some(_) => "No hay tareas con este estado",
    }
}

/// What a click on a header of the task table does to the sort.
pub fn toggle_task_sort(current: TaskSort, asc: bool, clicked: TaskSort) -> (r: (TaskSort, bool))
    ensures
        r == sort_after_click(current, asc, clicked),
{
    if current == clicked {
        (current, !asc)
    } else {
        (clicked, true)
    }
}

/// The task table shows exactly the tasks the filter keeps, each once, in
/// the column's order.
pub proof fn law_task_rows_ordered(ts: Seq<Task>, filter: Option<TaskStatus>, field: TaskSort, asc: bool)
    ensures
        ({
            let kept = tasks_with_status(ts, filter, ts.len());
            let rows = stable_sort(kept, key_order(task_keys(ts, field), !asc));
            &&& rows.to_multiset() == kept.to_multiset()
            &&& is_sorted_by(rows, key_order(task_keys(ts, field), !asc))
        }),
{
    let kept = tasks_with_status(ts, filter, ts.len());
    lemma_stable_sort_multiset(kept, key_order(task_keys(ts, field), !asc));
    lemma_key_order_strict_weak(task_keys(ts, field), !asc);
    lemma_stable_sort_sorted(kept, key_order(task_keys(ts, field), !asc));
}

/// The icon class of the header of `field` while `current` sorts.
pub fn task_sort_icon(current: TaskSort, field: TaskSort, asc: bool) -> (r: &'static str)
    ensures
        r@ == sort_icon_class(field == current, asc),
{
    if current != field {
        "bi bi-chevron-expand text-[var(--text-secondary)] ms-1"
    } else if asc {
        "bi bi-chevron-up ms-1"
    } else {
        "bi bi-chevron-down ms-1"
    }
}

// ── What the sorted columns mean ────────────────────────────────────────────
/// The rows (positions into `items`) run in the order of the texts `text`
/// gives the items: ascending, no row's text is smaller than an earlier
/// row's; descending, none is larger.
pub open spec fn rows_follow<T>(items: Seq<T>, rows: Seq<usize>, text: spec_fn(T) -> Seq<char>, asc: bool) -> bool {
    forall|i: int, j: int|
        0 <= i < j < rows.len() ==> if asc {
            !text_lt(text(items[#[trigger] rows[j] as int]), text(items[#[trigger] rows[i] as int]))
        } else {
            !text_lt(text(items[rows[i] as int]), text(items[rows[j] as int]))
        }
}

proof fn lemma_rows_follow_keys<T>(
    items: Seq<T>,
    kept: Seq<usize>,
    keys: Seq<Seq<char>>,
    text: spec_fn(T) -> Seq<char>,
    asc: bool,
)
    requires
        forall|k: int| 0 <= k < kept.len() ==> (#[trigger] kept[k]) < items.len(),
        keys.len() == items.len(),
        forall|k: int| 0 <= k < items.len() ==> #[trigger] keys[k] == text(items[k]),
    ensures
        rows_follow(items, stable_sort(kept, key_order(keys, !asc)), text, asc),
{
    let lt = key_order(keys, !asc);
    let rows = stable_sort(kept, lt);
    lemma_key_order_strict_weak(keys, !asc);
    lemma_stable_sort_sorted(kept, lt);
    crate::catalog::lemma_stable_sort_members(kept, lt);
    assert forall|i: int, j: int| 0 <= i < j < rows.len() implies if asc {
        !text_lt(text(items[#[trigger] rows[j] as int]), text(items[#[trigger] rows[i] as int]))
    } else {
        !text_lt(text(items[rows[i] as int]), text(items[rows[j] as int]))
    } by {
        assert(rows.contains(rows[i]));
        assert(rows.contains(rows[j]));
        let a = choose|m: int| 0 <= m < kept.len() && kept[m] == rows[i];
        let b = choose|m: int| 0 <= m < kept.len() && kept[m] == rows[j];
        assert(keys[rows[i] as int] == text(items[rows[i] as int]));
        assert(keys[rows[j] as int] == text(items[rows[j] as int]));
        assert(!lt(rows[j], rows[i]));
    }
}

/// The grid sorted by a column runs in the order of what that column
/// shows: the name, the status's wire name, the start date or the end date
/// (empty when missing), or the priority (low before medium before high),
/// ascending or descending as asked.
pub proof fn law_grid_sorted_by_column(ps: Seq<Project>, query: Seq<char>, asc: bool)
    requires
        ps.len() <= usize::MAX,
    ensures
        rows_follow(
            ps,
            stable_sort(matching_projects(ps, query, ps.len()), key_order(project_keys(ps, SortField::Name), !asc)),
            |p: Project| p.name@,
            asc,
        ),
        rows_follow(
            ps,
            stable_sort(matching_projects(ps, query, ps.len()), key_order(project_keys(ps, SortField::Status), !asc)),
            |p: Project| p.status.name(),
            asc,
        ),
        rows_follow(
            ps,
            stable_sort(matching_projects(ps, query, ps.len()), key_order(project_keys(ps, SortField::StartDate), !asc)),
            |p: Project| match p.start_date {
                Some(d) => d@,
                None => Seq::<char>::empty(),
            },
            asc,
        ),
        rows_follow(
            ps,
            stable_sort(matching_projects(ps, query, ps.len()), key_order(project_keys(ps, SortField::EndDate), !asc)),
            |p: Project| match p.end_date {
                Some(d) => d@,
                None => Seq::<char>::empty(),
            },
            asc,
        ),
        rows_follow(
            ps,
            stable_sort(matching_projects(ps, query, ps.len()), key_order(project_keys(ps, SortField::Priority), !asc)),
            |p: Project| match p.priority {
                Priority::Low => "0"@,
                Priority::Medium => "1"@,
                Priority::High => "2"@,
            },
            asc,
        ),
{
    let kept = matching_projects(ps, query, ps.len());
    lemma_matching_in_range(ps, query, ps.len());
    lemma_rows_follow_keys(ps, kept, project_keys(ps, SortField::Name), |p: Project| p.name@, asc);
    lemma_rows_follow_keys(ps, kept, project_keys(ps, SortField::Status), |p: Project| p.status.name(), asc);
    lemma_rows_follow_keys(
        ps,
        kept,
        project_keys(ps, SortField::StartDate),
        |p: Project| match p.start_date {
            Some(d) => d@,
            None => Seq::<char>::empty(),
        },
        asc,
    );
    lemma_rows_follow_keys(
        ps,
        kept,
        project_keys(ps, SortField::EndDate),
        |p: Project| match p.end_date {
            Some(d) => d@,
            None => Seq::<char>::empty(),
        },
        asc,
    );
    lemma_rows_follow_keys(
        ps,
        kept,
        project_keys(ps, SortField::Priority),
        |p: Project| match p.priority {
            Priority::Low => "0"@,
            Priority::Medium => "1"@,
            Priority::High => "2"@,
        },
        asc,
    );
}

/// The task table sorted by a column runs in the order of what that column
/// shows: the title, the status's wire name, the priority (low before
/// medium before high), or the start or end date (empty when missing).
pub proof fn law_task_table_sorted_by_column(ts: Seq<Task>, filter: Option<TaskStatus>, asc: bool)
    requires
        ts.len() <= usize::MAX,
    ensures
        rows_follow(
            ts,
            stable_sort(tasks_with_status(ts, filter, ts.len()), key_order(task_keys(ts, TaskSort::Title), !asc)),
            |t: Task| t.title@,
            asc,
        ),
        rows_follow(
            ts,
            stable_sort(tasks_with_status(ts, filter, ts.len()), key_order(task_keys(ts, TaskSort::Status), !asc)),
            |t: Task| t.status.name(),
            asc,
        ),
        rows_follow(
            ts,
            stable_sort(tasks_with_status(ts, filter, ts.len()), key_order(task_keys(ts, TaskSort::Priority), !asc)),
            |t: Task| match t.priority {
                Priority::Low => "0"@,
                Priority::Medium => "1"@,
                Priority::High => "2"@,
            },
            asc,
        ),
        rows_follow(
            ts,
            stable_sort(tasks_with_status(ts, filter, ts.len()), key_order(task_keys(ts, TaskSort::StartDate), !asc)),
            |t: Task| match t.start_date {
                Some(d) => d@,
                None => Seq::<char>::empty(),
            },
            asc,
        ),
        rows_follow(
            ts,
            stable_sort(tasks_with_status(ts, filter, ts.len()), key_order(task_keys(ts, TaskSort::EndDate), !asc)),
            |t: Task| match t.end_date {
                Some(d) => d@,
                None => Seq::<char>::empty(),
            },
            asc,
        ),
{
    let kept = tasks_with_status(ts, filter, ts.len());
    lemma_with_status_in_range(ts, filter, ts.len());
    lemma_rows_follow_keys(ts, kept, task_keys(ts, TaskSort::Title), |t: Task| t.title@, asc);
    lemma_rows_follow_keys(ts, kept, task_keys(ts, TaskSort::Status), |t: Task| t.status.name(), asc);
    lemma_rows_follow_keys(
        ts,
        kept,
        task_keys(ts, TaskSort::Priority),
        |t: Task| match t.priority {
            Priority::Low => "0"@,
            Priority::Medium => "1"@,
            Priority::High => "2"@,
        },
        asc,
    );
    lemma_rows_follow_keys(
        ts,
        kept,
        task_keys(ts, TaskSort::StartDate),
        |t: Task| match t.start_date {
            Some(d) => d@,
            None => Seq::<char>::empty(),
        },
        asc,
    );
    lemma_rows_follow_keys(
        ts,
        kept,
        task_keys(ts, TaskSort::EndDate),
        |t: Task| match t.end_date {
            Some(d) => d@,
            None => Seq::<char>::empty(),
        },
        asc,
    );
}

} // verus!
