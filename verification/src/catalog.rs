//! The project and task services over the three stores.
//!
//! Documents:
//! - `projects/{id}`: a [`Project`] without its tasks; `created_at` orders
//!   the listing.
//! - `tasks/{task_id}`: a [`TaskDoc`] (`project_id` and `position` keep the
//!   order of the tasks inside their project).
//!
//! The stores themselves are read and written by the caller; every function
//! here takes what was read and gives back what is to be written or returned.
//! Ids of new projects and tasks are uuid v4 text, assigned here.
use crate::models::{Project, Task};
use crate::ordering::{before_fn, sort_stable, stable_insert, stable_sort, SortKey};
use crate::text::{push_text, same_text, text_less, text_lt};
use vstd::prelude::*;

verus! {

/// A task's document in the `tasks` store.
pub struct TaskDoc {
    pub project_id: String,
    /// Order inside the project; kept by `replace_task`.
    pub position: u64,
    pub task: Task,
}

/// Error of the persistence and service layer.
pub enum AppError {
    /// The store failed (including a delete of a missing key).
    Store(String),
    /// A stored document is not valid JSON of its type.
    Serde(String),
    /// A required project or task does not exist.
    NotFound(String),
}

impl AppError {
    pub open spec fn message_spec(&self) -> Seq<char> {
        match self {
            AppError::Store(e) => "store: "@ + e@,
            AppError::Serde(e) => "json: "@ + e@,
            AppError::NotFound(e) => "no encontrado: "@ + e@,
        }
    }

    /// The text the error displays as.
    pub fn message(&self) -> (r: String)
        ensures
            r@ == self.message_spec(),
    {
        let mut s = String::new();
        match self {
            AppError::Store(e) => {
                push_text(&mut s, "store: ");
                push_text(&mut s, e.as_str());
            },
            AppError::Serde(e) => {
                push_text(&mut s, "json: ");
                push_text(&mut s, e.as_str());
            },
            AppError::NotFound(e) => {
                push_text(&mut s, "no encontrado: ");
                push_text(&mut s, e.as_str());
            },
        }
        s
    }
}

fn prefixed(prefix: &str, s: &str) -> (r: String)
    ensures
        r@ == prefix@ + s@,
{
    let mut r = String::new();
    push_text(&mut r, prefix);
    push_text(&mut r, s);
    r
}

// ── Orders ───────────────────────────────────────────────────────────────────
/// Task documents order by `(position, task id)`.
pub open spec fn doc_before(a: TaskDoc, b: TaskDoc) -> bool {
    ||| a.position < b.position
    ||| (a.position == b.position && text_lt(a.task.id@, b.task.id@))
}

impl SortKey for TaskDoc {
    open spec fn before(a: TaskDoc, b: TaskDoc) -> bool {
        doc_before(a, b)
    }

    fn is_before(&self, other: &TaskDoc) -> (r: bool) {
        self.position < other.position || (self.position == other.position && text_less(
            self.task.id.as_str(),
            other.task.id.as_str(),
        ))
    }
}

/// `created_at`, with a missing mark read as 0.
pub open spec fn created_key(p: Project) -> nat {
    match p.created_at {
        Some(c) => c as nat,
        None => 0,
    }
}

/// Project entries order by `(created_at or 0, project id)`.
pub open spec fn entry_before(a: (String, Project), b: (String, Project)) -> bool {
    ||| created_key(a.1) < created_key(b.1)
    ||| (created_key(a.1) == created_key(b.1) && text_lt(a.1.id@, b.1.id@))
}

fn created_or_zero(p: &Project) -> (r: u64)
    ensures
        r == created_key(*p),
{
    match p.created_at {
        Some(c) => c,
        None => 0,
    }
}

impl SortKey for (String, Project) {
    open spec fn before(a: (String, Project), b: (String, Project)) -> bool {
        entry_before(a, b)
    }

    fn is_before(&self, other: &(String, Project)) -> (r: bool) {
        let a = created_or_zero(&self.1);
        let b = created_or_zero(&other.1);
        a < b || (a == b && text_less(self.1.id.as_str(), other.1.id.as_str()))
    }
}

// ── Listing ──────────────────────────────────────────────────────────────────
/// The documents of `s` that belong to project `key`, in order.
pub open spec fn docs_for(s: Seq<TaskDoc>, key: Seq<char>) -> Seq<TaskDoc>
    decreases s.len(),
{
    if s.len() == 0 {
        s
    } else {
        let r = docs_for(s.drop_last(), key);
        if s.last().project_id@ == key {
            r.push(s.last())
        } else {
            r
        }
    }
}

/// The documents of `s` that belong to other projects, in order.
pub open spec fn docs_not_for(s: Seq<TaskDoc>, key: Seq<char>) -> Seq<TaskDoc>
    decreases s.len(),
{
    if s.len() == 0 {
        s
    } else {
        let r = docs_not_for(s.drop_last(), key);
        if s.last().project_id@ == key {
            r
        } else {
            r.push(s.last())
        }
    }
}

pub open spec fn tasks_of(docs: Seq<TaskDoc>) -> Seq<Task> {
    docs.map_values(|d: TaskDoc| d.task)
}

/// The tasks project `key` lists with: its documents by `(position, id)`.
pub open spec fn project_tasks(docs: Seq<TaskDoc>, key: Seq<char>) -> Seq<Task> {
    tasks_of(stable_sort(docs_for(docs, key), before_fn::<TaskDoc>()))
}

/// All the fields of a project but its tasks agree.
pub open spec fn same_meta(a: Project, b: Project) -> bool {
    &&& same_content(a, b)
    &&& a.created_at == b.created_at
}

/// All the fields of a project but its tasks and creation mark agree.
pub open spec fn same_content(a: Project, b: Project) -> bool {
    &&& a.id == b.id
    &&& a.name == b.name
    &&& a.description == b.description
    &&& a.business == b.business
    &&& a.start_date == b.start_date
    &&& a.end_date == b.end_date
    &&& a.status == b.status
    &&& a.priority == b.priority
    &&& a.team == b.team
    &&& a.color == b.color
}

pub open spec fn entry_keys(s: Seq<(String, Project)>) -> Seq<Seq<char>> {
    s.map_values(|e: (String, Project)| e.0@)
}

/// The order of the listing: the entries sorted by `(created_at, id)`.
pub open spec fn listing_order(projects: Seq<(String, Project)>) -> Seq<(String, Project)> {
    stable_sort(projects, before_fn::<(String, Project)>())
}

proof fn lemma_docs_for_skip_other(s: Seq<TaskDoc>, a: Seq<char>, b: Seq<char>)
    requires
        a != b,
    ensures
        docs_for(docs_not_for(s, a), b) == docs_for(s, b),
    decreases s.len(),
{
    if s.len() > 0 {
        lemma_docs_for_skip_other(s.drop_last(), a, b);
        let r = docs_not_for(s.drop_last(), a);
        if s.last().project_id@ != a {
            assert(r.push(s.last()).drop_last() =~= r);
        }
    }
}

proof fn lemma_stable_insert_members<T>(s: Seq<T>, x: T, lt: spec_fn(T, T) -> bool)
    ensures
        forall|y: T| #[trigger] stable_insert(s, x, lt).contains(y) ==> y == x || s.contains(y),
    decreases s.len(),
{
    if s.len() > 0 && !lt(x, s[0]) {
        let t = s.drop_first();
        lemma_stable_insert_members(t, x, lt);
        assert forall|y: T| #[trigger] stable_insert(s, x, lt).contains(y) implies y == x
            || s.contains(y) by {
            let r = stable_insert(s, x, lt);
            let k = choose|k: int| 0 <= k < r.len() && r[k] == y;
            if k > 0 {
                assert(stable_insert(t, x, lt).contains(r[k])) by {
                    assert(stable_insert(t, x, lt)[k - 1] == r[k]);
                }
                if y != x {
                    let m = choose|m: int| 0 <= m < t.len() && t[m] == y;
                    assert(s[m + 1] == y);
                }
            } else {
                assert(s[0] == y);
            }
        }
    } else if s.len() > 0 {
        assert forall|y: T| #[trigger] stable_insert(s, x, lt).contains(y) implies y == x
            || s.contains(y) by {
            let r = stable_insert(s, x, lt);
            let k = choose|k: int| 0 <= k < r.len() && r[k] == y;
            if k > 0 {
                assert(s[k - 1] == y);
            }
        }
    } else {
        assert forall|y: T| #[trigger] stable_insert(s, x, lt).contains(y) implies y == x
            || s.contains(y) by {
            assert(stable_insert(s, x, lt) =~= seq![x]);
        }
    }
}

/// A stable sort only holds elements of what it sorted.
pub proof fn lemma_stable_sort_members<T>(s: Seq<T>, lt: spec_fn(T, T) -> bool)
    ensures
        forall|y: T| #[trigger] stable_sort(s, lt).contains(y) ==> s.contains(y),
    decreases s.len(),
{
    if s.len() > 0 {
        let t = s.drop_last();
        lemma_stable_sort_members(t, lt);
        lemma_stable_insert_members(stable_sort(t, lt), s.last(), lt);
        assert forall|y: T| #[trigger] stable_sort(s, lt).contains(y) implies s.contains(y) by {
            if y == s.last() {
                assert(s[s.len() - 1] == y);
            } else {
                assert(stable_sort(t, lt).contains(y));
                let m = choose|m: int| 0 <= m < t.len() && t[m] == y;
                assert(s[m] == y);
            }
        }
    }
}

proof fn lemma_stable_insert_keys_distinct(
    s: Seq<(String, Project)>,
    x: (String, Project),
    lt: spec_fn((String, Project), (String, Project)) -> bool,
)
    requires
        entry_keys(s).no_duplicates(),
        forall|y: (String, Project)| #[trigger] s.contains(y) ==> y.0@ != x.0@,
    ensures
        entry_keys(stable_insert(s, x, lt)).no_duplicates(),
    decreases s.len(),
{
    let r = stable_insert(s, x, lt);
    lemma_stable_insert_members(s, x, lt);
    if s.len() == 0 {
        assert(r =~= seq![x]);
    } else if lt(x, s[0]) {
        assert forall|i: int, j: int| 0 <= i < j < entry_keys(r).len() implies entry_keys(r)[i]
            != entry_keys(r)[j] by {
            if i == 0 {
                assert(s.contains(r[j])) by {
                    assert(s[j - 1] == r[j]);
                }
            } else {
                assert(r[i] == s[i - 1] && r[j] == s[j - 1]);
                assert(entry_keys(s)[i - 1] != entry_keys(s)[j - 1]);
            }
        }
    } else {
        let t = s.drop_first();
        assert forall|i: int, j: int| 0 <= i < j < entry_keys(t).len() implies entry_keys(t)[i]
            != entry_keys(t)[j] by {
            assert(entry_keys(s)[i + 1] != entry_keys(s)[j + 1]);
        }
        assert forall|y: (String, Project)| #[trigger] t.contains(y) implies y.0@ != x.0@ by {
            let m = choose|m: int| 0 <= m < t.len() && t[m] == y;
            assert(s[m + 1] == y);
            assert(s.contains(y));
        }
        lemma_stable_insert_keys_distinct(t, x, lt);
        lemma_stable_insert_members(t, x, lt);
        let q = stable_insert(t, x, lt);
        assert(r =~= seq![s[0]] + q);
        assert forall|i: int, j: int| 0 <= i < j < entry_keys(r).len() implies entry_keys(r)[i]
            != entry_keys(r)[j] by {
            if i == 0 {
                assert(r[j] == q[j - 1]);
                assert(q.contains(q[j - 1]));
                if q[j - 1] == x {
                    assert(s.contains(s[0]));
                } else {
                    let m = choose|m: int| 0 <= m < t.len() && t[m] == q[j - 1];
                    assert(s[m + 1] == q[j - 1]);
                    assert(entry_keys(s)[0] != entry_keys(s)[m + 1]);
                }
            } else {
                assert(r[i] == q[i - 1] && r[j] == q[j - 1]);
                assert(entry_keys(q)[i - 1] != entry_keys(q)[j - 1]);
            }
        }
    }
}

/// Sorting keeps the store keys distinct.
pub proof fn lemma_listing_keys_distinct(s: Seq<(String, Project)>)
    requires
        entry_keys(s).no_duplicates(),
    ensures
        entry_keys(listing_order(s)).no_duplicates(),
    decreases s.len(),
{
    let lt = before_fn::<(String, Project)>();
    if s.len() > 0 {
        let t = s.drop_last();
        assert forall|i: int, j: int| 0 <= i < j < entry_keys(t).len() implies entry_keys(t)[i]
            != entry_keys(t)[j] by {
            assert(entry_keys(s)[i] != entry_keys(s)[j]);
        }
        lemma_listing_keys_distinct(t);
        lemma_stable_sort_members(t, lt);
        assert forall|y: (String, Project)| #[trigger] stable_sort(t, lt).contains(y) implies y.0@
            != s.last().0@ by {
            assert(t.contains(y));
            let m = choose|m: int| 0 <= m < t.len() && t[m] == y;
            assert(entry_keys(s)[m] != entry_keys(s)[s.len() - 1]);
        }
        lemma_stable_insert_keys_distinct(stable_sort(t, lt), s.last(), lt);
    }
}

/// Splits documents into those of project `key` and the others, each in order.
fn split_docs(docs: Vec<TaskDoc>, key: &String) -> (r: (Vec<TaskDoc>, Vec<TaskDoc>))
    ensures
        r.0@ == docs_for(docs@, key@),
        r.1@ == docs_not_for(docs@, key@),
{
    let ghost orig = docs@;
    let n = docs.len();
    let mut rest = docs;
    let mut mine: Vec<TaskDoc> = Vec::new();
    let mut others: Vec<TaskDoc> = Vec::new();
    let mut i: usize = 0;
    assert(orig.subrange(0, 0) =~= Seq::<TaskDoc>::empty());
    assert(orig.subrange(0, n as int) =~= orig);
    while i < n
        invariant
            n == orig.len(),
            i <= n,
            rest@ == orig.subrange(i as int, n as int),
            mine@ == docs_for(orig.subrange(0, i as int), key@),
            others@ == docs_not_for(orig.subrange(0, i as int), key@),
        decreases n - i,
    {
        let ghost pre = orig.subrange(0, i as int);
        let ghost next = orig.subrange(0, i as int + 1);
        assert(next.drop_last() =~= pre);
        assert(rest@[0] == orig[i as int]);
        let d = rest.remove(0);
        if same_text(d.project_id.as_str(), key.as_str()) {
            mine.push(d);
        } else {
            others.push(d);
        }
        i = i + 1;
        assert(rest@ =~= orig.subrange(i as int, n as int));
    }
    assert(orig.subrange(0, n as int) =~= orig);
    (mine, others)
}

/// The tasks of the documents, in order.
fn docs_into_tasks(docs: Vec<TaskDoc>) -> (r: Vec<Task>)
    ensures
        r@ == tasks_of(docs@),
{
    let ghost orig = docs@;
    let n = docs.len();
    let mut rest = docs;
    let mut out: Vec<Task> = Vec::new();
    let mut i: usize = 0;
    while i < n
        invariant
            n == orig.len(),
            i <= n,
            rest@ == orig.subrange(i as int, n as int),
            out@ == tasks_of(orig.subrange(0, i as int)),
        decreases n - i,
    {
        assert(rest@[0] == orig[i as int]);
        let d = rest.remove(0);
        out.push(d.task);
        i = i + 1;
        assert(rest@ =~= orig.subrange(i as int, n as int));
        assert(out@ =~= tasks_of(orig.subrange(0, i as int)));
    }
    assert(orig.subrange(0, n as int) =~= orig);
    out
}

/// All projects with their tasks assembled.
///
/// `projects` holds the `(key, document)` entries of the projects store and
/// `tasks` the documents of the tasks store, as read. Projects come ordered
/// by `created_at` (a missing mark counts as 0), ties by id; the tasks of
/// each project by `position`, ties by id; equal keys keep the order read.
pub fn list_projects(projects: Vec<(String, Project)>, tasks: Vec<TaskDoc>) -> (r: Vec<Project>)
    requires
        entry_keys(projects@).no_duplicates(),
    ensures
        r@.len() == projects@.len(),
        forall|i: int|
            0 <= i < r@.len() ==> same_meta(#[trigger] r@[i], listing_order(projects@)[i].1)
                && r@[i].tasks@ == project_tasks(tasks@, listing_order(projects@)[i].0@),
{
    let ghost all_docs = tasks@;
    let mut entries = projects;
    sort_stable(&mut entries);
    let ghost sorted = entries@;
    proof {
        crate::ordering::lemma_stable_sort_multiset(projects@, before_fn::<(String, Project)>());
        lemma_listing_keys_distinct(projects@);
    }
    let n = entries.len();
    let mut rest = tasks;
    let mut out: Vec<Project> = Vec::new();
    let mut i: usize = 0;
    while i < n
        invariant
            n == sorted.len(),
            sorted == listing_order(projects@),
            entry_keys(sorted).no_duplicates(),
            i <= n,
            entries@ == sorted.subrange(i as int, n as int),
            out@.len() == i,
            forall|k: int|
                0 <= k < i ==> same_meta(#[trigger] out@[k], sorted[k].1) && out@[k].tasks@
                    == project_tasks(all_docs, sorted[k].0@),
            forall|k: int|
                i <= k < n ==> docs_for(rest@, #[trigger] sorted[k].0@) == docs_for(
                    all_docs,
                    sorted[k].0@,
                ),
        decreases n - i,
    {
        assert(entries@[0] == sorted[i as int]);
        let (key, mut project) = entries.remove(0);
        let ghost before_rest = rest@;
        let (mine, others) = split_docs(rest, &key);
        let mut mine = mine;
        sort_stable(&mut mine);
        let list = docs_into_tasks(mine);
        project.tasks = list;
        out.push(project);
        rest = others;
        proof {
            assert forall|k: int| i + 1 <= k < n implies docs_for(rest@, #[trigger] sorted[k].0@)
                == docs_for(all_docs, sorted[k].0@) by {
                assert(entry_keys(sorted)[k] != entry_keys(sorted)[i as int]);
                lemma_docs_for_skip_other(before_rest, key@, sorted[k].0@);
            }
        }
        i = i + 1;
        assert(entries@ =~= sorted.subrange(i as int, n as int));
    }
    out
}

// ── Seeding ──────────────────────────────────────────────────────────────────
/// The documents a project and its tasks are stored as when seeding: the
/// project marked as created at `created`, without tasks, and one document
/// per task, at positions 0, 1, ... in the project's order.
fn seed_docs(project: Project, created: u64) -> (r: (Project, Vec<TaskDoc>))
    ensures
        same_content(r.0, project),
        r.0.created_at == Some(created),
        r.0.tasks@.len() == 0,
        r.1@.len() == project.tasks@.len(),
        forall|k: int|
            0 <= k < r.1@.len() ==> (#[trigger] r.1@[k]).project_id == project.id
                && r.1@[k].position == k && r.1@[k].task == project.tasks@[k],
{
    let ghost orig = project.tasks@;
    let mut project = project;
    let mut tasks: Vec<Task> = Vec::new();
    std::mem::swap(&mut tasks, &mut project.tasks);
    project.created_at = Some(created);
    let n = tasks.len();
    let mut docs: Vec<TaskDoc> = Vec::new();
    let mut k: usize = 0;
    while k < n
        invariant
            n == orig.len(),
            k <= n,
            tasks@ == orig.subrange(k as int, n as int),
            docs@.len() == k,
            forall|j: int|
                0 <= j < k ==> (#[trigger] docs@[j]).project_id == project.id && docs@[j].position
                    == j && docs@[j].task == orig[j],
        decreases n - k,
    {
        assert(tasks@[0] == orig[k as int]);
        let task = tasks.remove(0);
        docs.push(TaskDoc { project_id: project.id.clone(), position: k as u64, task });
        k = k + 1;
        assert(tasks@ =~= orig.subrange(k as int, n as int));
    }
    (project, docs)
}

/// The documents seeding writes for `demo`, project by project: the `i`-th
/// project marked as created at `i + 1`, followed by its task documents.
pub fn seed_plan(demo: Vec<Project>) -> (r: Vec<(Project, Vec<TaskDoc>)>)
    requires
        demo@.len() < u64::MAX,
    ensures
        r@.len() == demo@.len(),
        forall|i: int|
            0 <= i < r@.len() ==> same_content((#[trigger] r@[i]).0, demo@[i]) && r@[i].0.created_at
                == Some((i + 1) as u64) && r@[i].0.tasks@.len() == 0 && r@[i].1@.len()
                == demo@[i].tasks@.len() && forall|k: int|
                0 <= k < r@[i].1@.len() ==> (#[trigger] r@[i].1@[k]).project_id == demo@[i].id
                    && r@[i].1@[k].position == k && r@[i].1@[k].task == demo@[i].tasks@[k],
{
    let ghost orig = demo@;
    let n = demo.len();
    let mut rest = demo;
    let mut out: Vec<(Project, Vec<TaskDoc>)> = Vec::new();
    let mut i: usize = 0;
    while i < n
        invariant
            n == orig.len(),
            n < u64::MAX,
            i <= n,
            rest@ == orig.subrange(i as int, n as int),
            out@.len() == i,
            forall|j: int|
                0 <= j < i ==> same_content((#[trigger] out@[j]).0, orig[j]) && out@[j].0.created_at
                    == Some((j + 1) as u64) && out@[j].0.tasks@.len() == 0 && out@[j].1@.len()
                    == orig[j].tasks@.len() && forall|k: int|
                    0 <= k < out@[j].1@.len() ==> (#[trigger] out@[j].1@[k]).project_id
                        == orig[j].id && out@[j].1@[k].position == k && out@[j].1@[k].task
                        == orig[j].tasks@[k],
        decreases n - i,
    {
        assert(rest@[0] == orig[i as int]);
        let project = rest.remove(0);
        let entry = seed_docs(project, i as u64 + 1);
        out.push(entry);
        i = i + 1;
        assert(rest@ =~= orig.subrange(i as int, n as int));
    }
    out
}

/// Whether `r` is what seeding writes for `demo` (see [`seed_plan`]).
pub open spec fn is_seed_plan(r: Seq<(Project, Vec<TaskDoc>)>, demo: Seq<Project>) -> bool {
    &&& r.len() == demo.len()
    &&& forall|i: int|
        0 <= i < r.len() ==> same_content((#[trigger] r[i]).0, demo[i]) && r[i].0.created_at
            == Some((i + 1) as u64) && r[i].0.tasks@.len() == 0 && r[i].1@.len()
            == demo[i].tasks@.len() && forall|k: int|
            0 <= k < r[i].1@.len() ==> (#[trigger] r[i].1@[k]).project_id == demo[i].id
                && r[i].1@[k].position == k && r[i].1@[k].task == demo[i].tasks@[k]
}

/// Seeding at start-up: the plan for `demo` only when the projects store
/// is empty; nothing otherwise, so the demo is never written twice.
pub fn seed_plan_if_empty(demo: Vec<Project>, projects_empty: bool) -> (r: Vec<(Project, Vec<TaskDoc>)>)
    requires
        demo@.len() < u64::MAX,
    ensures
        !projects_empty ==> r@.len() == 0,
        projects_empty ==> is_seed_plan(r@, demo@),
{
    if projects_empty {
        seed_plan(demo)
    } else {
        Vec::new()
    }
}

/// What seeding an empty store writes: the demonstration projects, created
/// at 1, 2 and 3, with their tasks at positions 0, 1, ...
pub fn seed_demo() -> (r: Vec<(Project, Vec<TaskDoc>)>)
    ensures
        r@.len() == 3,
        forall|i: int|
            0 <= i < 3 ==> (#[trigger] r@[i]).0.created_at == Some((i + 1) as u64)
                && r@[i].1@.len() == crate::demo::demo_task_ids()[i].len() && forall|k: int|
                0 <= k < r@[i].1@.len() ==> (#[trigger] r@[i].1@[k]).position == k
                    && r@[i].1@[k].task.id@ == crate::demo::demo_task_ids()[i][k]
                    && r@[i].1@[k].project_id == r@[i].0.id,
        r@[0].0.id@ == "p1"@,
        r@[1].0.id@ == "p2"@,
        r@[2].0.id@ == "p3"@,
{
    seed_plan(crate::demo::demo_projects())
}

// ── Writes ───────────────────────────────────────────────────────────────────
/// The hyphenated lowercase text of a version-4 uuid: 36 characters,
/// hyphens at 8, 13, 18 and 23, the version digit `4` at 14, the variant
/// digit (`8`, `9`, `a` or `b`) at 19, and lowercase hex digits elsewhere.
pub open spec fn is_uuid_v4_text(s: Seq<char>) -> bool {
    &&& s.len() == 36
    &&& s[8] == '-' && s[13] == '-' && s[18] == '-' && s[23] == '-'
    &&& s[14] == '4'
    &&& (s[19] == '8' || s[19] == '9' || s[19] == 'a' || s[19] == 'b')
    &&& forall|i: int|
        0 <= i < 36 && i != 8 && i != 13 && i != 18 && i != 23 ==> crate::peers::is_hex_lower(
            #[trigger] s[i],
        )
}

/// A fresh uuid v4 as text (`Uuid::new_v4().to_string()`, the hyphenated
/// lowercase form). The random digits are left unsaid.
#[verifier::external_body]
fn new_uuid() -> (r: String)
    ensures
        is_uuid_v4_text(r@),
{
    uuid::Uuid::new_v4().to_string()
}

/// Milliseconds since the Unix epoch by the system clock, 0 if the clock is
/// before it. Nothing is promised of the value.
#[verifier::external_body]
fn now_ms() -> (r: u64) {
    match std::time::SystemTime::now().duration_since(std::time::UNIX_EPOCH) {
        Ok(d) => d.as_millis() as u64,
        Err(_) => 0,
    }
}

/// A new project as stored: with id `id`, created at `now`, without tasks.
pub fn create_project_with(project: Project, id: String, now: u64) -> (r: Project)
    ensures
        r.id == id,
        r.created_at == Some(now),
        r.tasks@.len() == 0,
        r.name == project.name,
        r.description == project.description,
        r.business == project.business,
        r.start_date == project.start_date,
        r.end_date == project.end_date,
        r.status == project.status,
        r.priority == project.priority,
        r.team == project.team,
        r.color == project.color,
{
    Project { id, created_at: Some(now), tasks: Vec::new(), ..project }
}

/// Creates a project: a uuid v4 id, `created_at` from the clock, no tasks.
/// The result is what is stored under `projects/{id}` and returned.
pub fn create_project(project: Project) -> (r: Project)
    ensures
        is_uuid_v4_text(r.id@),
        r.created_at is Some,
        r.tasks@.len() == 0,
        r.name == project.name,
        r.description == project.description,
        r.business == project.business,
        r.start_date == project.start_date,
        r.end_date == project.end_date,
        r.status == project.status,
        r.priority == project.priority,
        r.team == project.team,
        r.color == project.color,
{
    let id = new_uuid();
    let now = now_ms();
    create_project_with(project, id, now)
}

/// Whether `replace_project` needs the stored document: only when the
/// project comes without its `created_at`.
pub fn needs_stored_project(project: &Project) -> (r: bool)
    ensures
        r == (project.created_at is None),
{
    project.created_at.is_none()
}

/// The document `replace_project` stores: the project without tasks, and,
/// when it has no `created_at`, the one of the stored document if there is
/// one (an edit does not move a project in the listing).
pub fn replace_project(project: Project, stored: Option<Project>) -> (r: Project)
    ensures
        r.id == project.id,
        r.name == project.name,
        r.description == project.description,
        r.business == project.business,
        r.start_date == project.start_date,
        r.end_date == project.end_date,
        r.status == project.status,
        r.priority == project.priority,
        r.team == project.team,
        r.color == project.color,
        r.tasks@.len() == 0,
        r.created_at == match (project.created_at, stored) {
            (Some(c), _) => Some(c),
            (None, Some(s)) => s.created_at,
            (None, None) => None,
        },
{
    let created_at = match project.created_at {
        Some(c) => Some(c),
        None => match stored {
            Some(s) => s.created_at,
            None => None,
        },
    };
    Project { created_at, tasks: Vec::new(), ..project }
}

/// The keys of the documents in `tasks` that belong to project `id`
/// (undecodable ones, given as `None`, are skipped), in order.
pub open spec fn task_keys_of(tasks: Seq<(String, Option<TaskDoc>)>, id: Seq<char>) -> Seq<Seq<char>>
    decreases tasks.len(),
{
    if tasks.len() == 0 {
        Seq::<Seq<char>>::empty()
    } else {
        let r = task_keys_of(tasks.drop_last(), id);
        match tasks.last().1 {
            Some(d) => if d.project_id@ == id {
                r.push(tasks.last().0@)
            } else {
                r
            },
            None => r,
        }
    }
}

/// Whether a task entry holds a readable document of project `id`.
pub open spec fn entry_of_project(e: (String, Option<TaskDoc>), id: Seq<char>) -> bool {
    e.1 matches Some(d) && d.project_id@ == id
}

/// Deleting a project leaves none of its task documents behind: the key of
/// every readable document of the project is in the plan, and the plan
/// names no other entry.
pub proof fn law_deleted_project_leaves_no_tasks(tasks: Seq<(String, Option<TaskDoc>)>, id: Seq<char>)
    ensures
        forall|i: int|
            0 <= i < tasks.len() && entry_of_project(#[trigger] tasks[i], id) ==> task_keys_of(
                tasks,
                id,
            ).contains(tasks[i].0@),
        forall|k: Seq<char>|
            #[trigger] task_keys_of(tasks, id).contains(k) ==> exists|i: int|
                0 <= i < tasks.len() && tasks[i].0@ == k && entry_of_project(#[trigger] tasks[i], id),
    decreases tasks.len(),
{
    if tasks.len() > 0 {
        let init = tasks.drop_last();
        let last = tasks.len() - 1;
        law_deleted_project_leaves_no_tasks(init, id);
        let r = task_keys_of(init, id);
        let all = task_keys_of(tasks, id);
        assert(entry_of_project(tasks[last], id) ==> all == r.push(tasks[last].0@));
        assert(!entry_of_project(tasks[last], id) ==> all == r);
        assert forall|i: int| 0 <= i < tasks.len() && entry_of_project(#[trigger] tasks[i], id)
            implies all.contains(tasks[i].0@) by {
            if i < last {
                assert(init[i] == tasks[i]);
                assert(r.contains(init[i].0@));
                let j = choose|j: int| 0 <= j < r.len() && r[j] == init[i].0@;
                assert(all[j] == r[j]);
            } else {
                assert(all[all.len() - 1] == tasks[i].0@);
            }
        }
        assert forall|k: Seq<char>| #[trigger] all.contains(k) implies exists|i: int|
            0 <= i < tasks.len() && tasks[i].0@ == k && entry_of_project(#[trigger] tasks[i], id) by {
            let j = choose|j: int| 0 <= j < all.len() && all[j] == k;
            if j < r.len() {
                assert(r[j] == all[j]);
                assert(r.contains(k));
                let i = choose|i: int|
                    0 <= i < init.len() && init[i].0@ == k && entry_of_project(#[trigger] init[i], id);
                assert(tasks[i] == init[i]);
            } else {
                assert(entry_of_project(tasks[last], id));
                assert(tasks[last].0@ == k);
            }
        }
    }
}

/// With the task store's keys distinct, deleting a project removes exactly
/// its readable task documents: an entry's key is in the plan if and only
/// if the entry is a document of the project, so every other entry (of
/// other projects, or unreadable) stays, and none of the project's is left.
/// A repeated delete finds no project and removes nothing.
pub proof fn law_delete_project_removes_exactly(tasks: Seq<(String, Option<TaskDoc>)>, id: Seq<char>)
    requires
        tasks.map_values(|e: (String, Option<TaskDoc>)| e.0@).no_duplicates(),
    ensures
        forall|i: int|
            0 <= i < tasks.len() ==> (task_keys_of(tasks, id).contains(#[trigger] tasks[i].0@)
                <==> entry_of_project(tasks[i], id)),
{
    law_deleted_project_leaves_no_tasks(tasks, id);
    let keys = tasks.map_values(|e: (String, Option<TaskDoc>)| e.0@);
    assert forall|i: int| 0 <= i < tasks.len() implies (task_keys_of(tasks, id).contains(
        #[trigger] tasks[i].0@,
    ) <==> entry_of_project(tasks[i], id)) by {
        if task_keys_of(tasks, id).contains(tasks[i].0@) {
            let j = choose|j: int|
                0 <= j < tasks.len() && tasks[j].0@ == tasks[i].0@ && entry_of_project(
                    #[trigger] tasks[j],
                    id,
                );
            assert(keys[i] == keys[j]);
            assert(i == j);
        }
        if entry_of_project(tasks[i], id) {
            assert(entry_of_project(tasks[i], id));
        }
    }
}

/// What deleting project `id` removes: nothing when the project does not
/// exist (`None`); otherwise the keys of its task documents, after which the
/// project's own document goes.
pub fn delete_project_plan(id: &str, exists: bool, tasks: &Vec<(String, Option<TaskDoc>)>) -> (r:
    Option<Vec<String>>)
    ensures
        !exists ==> r is None,
        exists ==> r is Some && crate::text::views_of(r->0@) == task_keys_of(tasks@, id@),
{
    if !exists {
        return None;
    }
    let mut keys: Vec<String> = Vec::new();
    let mut i: usize = 0;
    assert(tasks@.subrange(0, 0) =~= Seq::<(String, Option<TaskDoc>)>::empty());
    while i < tasks.len()
        invariant
            i <= tasks@.len(),
            crate::text::views_of(keys@) == task_keys_of(tasks@.subrange(0, i as int), id@),
        decreases tasks@.len() - i,
    {
        let ghost pre = tasks@.subrange(0, i as int);
        let ghost next = tasks@.subrange(0, i as int + 1);
        assert(next.drop_last() =~= pre);
        match &tasks[i].1 {
            Some(d) => {
                if same_text(d.project_id.as_str(), id) {
                    keys.push(tasks[i].0.clone());
                    assert(crate::text::views_of(keys@) =~= task_keys_of(next, id@));
                }
            },
            None => {},
        }
        i = i + 1;
    }
    assert(tasks@.subrange(0, tasks@.len() as int) =~= tasks@);
    Some(keys)
}

/// The largest position among the documents of project `key` (0 if none).
pub open spec fn max_position(docs: Seq<TaskDoc>, key: Seq<char>) -> nat
    decreases docs.len(),
{
    if docs.len() == 0 {
        0
    } else {
        let m = max_position(docs.drop_last(), key);
        if docs.last().project_id@ == key && docs.last().position > m {
            docs.last().position as nat
        } else {
            m
        }
    }
}

pub proof fn lemma_max_position_bound(docs: Seq<TaskDoc>, key: Seq<char>)
    ensures
        forall|k: int|
            0 <= k < docs.len() && (#[trigger] docs[k]).project_id@ == key ==> docs[k].position
                <= max_position(docs, key),
        max_position(docs, key) == 0 || exists|k: int|
            0 <= k < docs.len() && (#[trigger] docs[k]).project_id@ == key && docs[k].position
                == max_position(docs, key),
    decreases docs.len(),
{
    if docs.len() > 0 {
        let t = docs.drop_last();
        lemma_max_position_bound(t, key);
        assert forall|k: int|
            0 <= k < docs.len() && (#[trigger] docs[k]).project_id@ == key implies docs[k].position
            <= max_position(docs, key) by {
            if k < docs.len() - 1 {
                assert(t[k] == docs[k]);
            }
        }
        if max_position(docs, key) != 0 {
            if max_position(docs, key) == max_position(t, key) {
                let k = choose|k: int|
                    0 <= k < t.len() && (#[trigger] t[k]).project_id@ == key && t[k].position
                        == max_position(t, key);
                assert(docs[k] == t[k]);
            } else {
                assert(docs[docs.len() - 1] == docs.last());
            }
        }
    }
}

/// The document `add_task` stores: the task with id `new_id` in project
/// `project_id`, one position after the largest of that project (the first
/// task of a project gets position 1). A missing project is
/// `NotFound("proyecto {project_id}")`.
pub fn add_task_with(
    project_id: &str,
    project_exists: bool,
    docs: &Vec<TaskDoc>,
    task: Task,
    new_id: String,
) -> (r: Result<TaskDoc, AppError>)
    requires
        max_position(docs@, project_id@) < u64::MAX,
    ensures
        !project_exists ==> (r matches Err(AppError::NotFound(m)) && m@ == "proyecto "@
            + project_id@),
        project_exists ==> (r matches Ok(d) && d.project_id@ == project_id@ && d.position
            == max_position(docs@, project_id@) + 1 && d.task.id == new_id && d.task.title
            == task.title && d.task.description == task.description && d.task.status
            == task.status && d.task.assignee == task.assignee && d.task.priority
            == task.priority && d.task.start_date == task.start_date && d.task.end_date
            == task.end_date && d.task.estimated_hours == task.estimated_hours && d.task.tags
            == task.tags),
{
    if !project_exists {
        return Err(AppError::NotFound(prefixed("proyecto ", project_id)));
    }
    let mut max: u64 = 0;
    let mut i: usize = 0;
    assert(docs@.subrange(0, 0) =~= Seq::<TaskDoc>::empty());
    while i < docs.len()
        invariant
            i <= docs@.len(),
            max == max_position(docs@.subrange(0, i as int), project_id@),
        decreases docs@.len() - i,
    {
        let ghost pre = docs@.subrange(0, i as int);
        let ghost next = docs@.subrange(0, i as int + 1);
        assert(next.drop_last() =~= pre);
        if same_text(docs[i].project_id.as_str(), project_id) && docs[i].position > max {
            max = docs[i].position;
        }
        i = i + 1;
    }
    assert(docs@.subrange(0, docs@.len() as int) =~= docs@);
    let mut pid = String::new();
    push_text(&mut pid, project_id);
    Ok(TaskDoc { project_id: pid, position: max + 1, task: Task { id: new_id, ..task } })
}

/// `add_task_with` with a fresh uuid v4 as the task's id.
pub fn add_task(project_id: &str, project_exists: bool, docs: &Vec<TaskDoc>, task: Task) -> (r:
    Result<TaskDoc, AppError>)
    requires
        max_position(docs@, project_id@) < u64::MAX,
    ensures
        !project_exists ==> (r matches Err(AppError::NotFound(m)) && m@ == "proyecto "@
            + project_id@),
        project_exists ==> (r matches Ok(d) && d.project_id@ == project_id@ && d.position
            == max_position(docs@, project_id@) + 1 && is_uuid_v4_text(d.task.id@) && d.task.title
            == task.title && d.task.description == task.description && d.task.status
            == task.status && d.task.assignee == task.assignee && d.task.priority
            == task.priority && d.task.start_date == task.start_date && d.task.end_date
            == task.end_date && d.task.estimated_hours == task.estimated_hours && d.task.tags
            == task.tags),
{
    let id = new_uuid();
    add_task_with(project_id, project_exists, docs, task, id)
}

/// The document `replace_task` stores: the new task with the project and
/// position of the stored document. A missing document is
/// `NotFound("tarea {id}")`; one of another project is
/// `NotFound("tarea {id} en proyecto {project_id}")`.
pub fn replace_task(project_id: &str, task: Task, stored: Option<TaskDoc>) -> (r: Result<
    TaskDoc,
    AppError,
>)
    ensures
        stored is None ==> (r matches Err(AppError::NotFound(m)) && m@ == "tarea "@ + task.id@),
        stored is Some && stored->0.project_id@ != project_id@ ==> (r matches Err(
            AppError::NotFound(m),
        ) && m@ == "tarea "@ + task.id@ + " en proyecto "@ + project_id@),
        stored is Some && stored->0.project_id@ == project_id@ ==> (r matches Ok(d)
            && d.project_id == stored->0.project_id && d.position == stored->0.position && d.task
            == task),
{
    match stored {
        None => Err(AppError::NotFound(prefixed("tarea ", task.id.as_str()))),
        Some(s) => {
            if !same_text(s.project_id.as_str(), project_id) {
                let mut m = prefixed("tarea ", task.id.as_str());
                push_text(&mut m, " en proyecto ");
                push_text(&mut m, project_id);
                Err(AppError::NotFound(m))
            } else {
                Ok(TaskDoc { project_id: s.project_id, position: s.position, task })
            }
        },
    }
}

/// Whether `delete_task` deletes the stored document: only when it exists
/// and belongs to `project_id` (otherwise the delete is a no-op).
pub fn delete_task_applies(project_id: &str, stored: &Option<TaskDoc>) -> (r: bool)
    ensures
        r == (stored matches Some(s) && s.project_id@ == project_id@),
{
    match stored {
        Some(s) => same_text(s.project_id.as_str(), project_id),
        None => false,
    }
}

// ── Laws of the listing ──────────────────────────────────────────────────────
pub proof fn lemma_entry_order_strict_weak()
    ensures
        crate::ordering::strict_weak_order(before_fn::<(String, Project)>()),
{
    let lt = before_fn::<(String, Project)>();
    assert forall|a: (String, Project)| !(#[trigger] lt(a, a)) by {
        crate::text::lemma_text_lt_irreflexive(a.1.id@);
    }
    assert forall|a: (String, Project), b: (String, Project), c: (String, Project)|
        #[trigger] lt(a, b) && #[trigger] lt(b, c) implies lt(a, c) by {
        if created_key(a.1) == created_key(b.1) && created_key(b.1) == created_key(c.1) {
            crate::text::lemma_text_lt_transitive(a.1.id@, b.1.id@, c.1.id@);
        }
    }
    assert forall|a: (String, Project), b: (String, Project), c: (String, Project)|
        !(#[trigger] lt(a, b)) && !(#[trigger] lt(b, a)) && !(#[trigger] lt(b, c)) && !(
        #[trigger] lt(c, b)) implies !lt(a, c) && !lt(c, a) by {
        crate::text::lemma_text_lt_total(a.1.id@, b.1.id@);
        crate::text::lemma_text_lt_total(b.1.id@, c.1.id@);
        crate::text::lemma_text_lt_irreflexive(a.1.id@);
    }
}

pub proof fn lemma_doc_order_strict_weak()
    ensures
        crate::ordering::strict_weak_order(before_fn::<TaskDoc>()),
{
    let lt = before_fn::<TaskDoc>();
    assert forall|a: TaskDoc| !(#[trigger] lt(a, a)) by {
        crate::text::lemma_text_lt_irreflexive(a.task.id@);
    }
    assert forall|a: TaskDoc, b: TaskDoc, c: TaskDoc|
        #[trigger] lt(a, b) && #[trigger] lt(b, c) implies lt(a, c) by {
        if a.position == b.position && b.position == c.position {
            crate::text::lemma_text_lt_transitive(a.task.id@, b.task.id@, c.task.id@);
        }
    }
    assert forall|a: TaskDoc, b: TaskDoc, c: TaskDoc|
        !(#[trigger] lt(a, b)) && !(#[trigger] lt(b, a)) && !(#[trigger] lt(b, c)) && !(
        #[trigger] lt(c, b)) implies !lt(a, c) && !lt(c, a) by {
        crate::text::lemma_text_lt_total(a.task.id@, b.task.id@);
        crate::text::lemma_text_lt_total(b.task.id@, c.task.id@);
        crate::text::lemma_text_lt_irreflexive(a.task.id@);
    }
}

/// The listing holds every project entry once and orders them by
/// `created_at` (missing as 0), then id: no later project comes before an
/// earlier one.
pub proof fn law_listing_ordered_by_creation(projects: Seq<(String, Project)>)
    ensures
        listing_order(projects).to_multiset() == projects.to_multiset(),
        forall|i: int, j: int|
            0 <= i < j < listing_order(projects).len() ==> !entry_before(
                #[trigger] listing_order(projects)[j],
                #[trigger] listing_order(projects)[i],
            ),
{
    lemma_entry_order_strict_weak();
    crate::ordering::lemma_stable_sort_multiset(projects, before_fn::<(String, Project)>());
    crate::ordering::lemma_stable_sort_sorted(projects, before_fn::<(String, Project)>());
}

/// When every project document is stored under its own id, the listing is
/// strictly ascending by `(created_at or 0, id)`: a permutation of the
/// stored documents in which each one comes before every later one.
pub proof fn law_listing_strictly_ascending(projects: Seq<(String, Project)>)
    requires
        entry_keys(projects).no_duplicates(),
        forall|k: int| 0 <= k < projects.len() ==> (#[trigger] projects[k]).0@ == projects[k].1.id@,
    ensures
        listing_order(projects).to_multiset() == projects.to_multiset(),
        forall|i: int, j: int|
            0 <= i < j < listing_order(projects).len() ==> entry_before(
                #[trigger] listing_order(projects)[i],
                #[trigger] listing_order(projects)[j],
            ),
{
    law_listing_ordered_by_creation(projects);
    lemma_listing_keys_distinct(projects);
    lemma_stable_sort_members(projects, before_fn::<(String, Project)>());
    let l = listing_order(projects);
    assert forall|i: int, j: int| 0 <= i < j < l.len() implies entry_before(
        #[trigger] l[i],
        #[trigger] l[j],
    ) by {
        assert(entry_keys(l)[i] != entry_keys(l)[j]);
        assert(l.contains(l[i]));
        assert(l.contains(l[j]));
        let a = choose|m: int| 0 <= m < projects.len() && projects[m] == l[i];
        let b = choose|m: int| 0 <= m < projects.len() && projects[m] == l[j];
        assert(l[i].0@ == l[i].1.id@);
        assert(l[j].0@ == l[j].1.id@);
        crate::text::lemma_text_lt_total(l[i].1.id@, l[j].1.id@);
        assert(!entry_before(l[j], l[i]));
    }
}

/// The tasks of a project are listed by `position`, then id: no later task
/// document comes before an earlier one, and each document of the project
/// is listed once.
pub proof fn law_tasks_ordered_by_position(docs: Seq<TaskDoc>, key: Seq<char>)
    ensures
        stable_sort(docs_for(docs, key), before_fn::<TaskDoc>()).to_multiset() == docs_for(
            docs,
            key,
        ).to_multiset(),
        forall|i: int, j: int|
            0 <= i < j < stable_sort(docs_for(docs, key), before_fn::<TaskDoc>()).len()
                ==> !doc_before(
                #[trigger] stable_sort(docs_for(docs, key), before_fn::<TaskDoc>())[j],
                #[trigger] stable_sort(docs_for(docs, key), before_fn::<TaskDoc>())[i],
            ),
{
    lemma_doc_order_strict_weak();
    crate::ordering::lemma_stable_sort_multiset(docs_for(docs, key), before_fn::<TaskDoc>());
    crate::ordering::lemma_stable_sort_sorted(docs_for(docs, key), before_fn::<TaskDoc>());
}

proof fn lemma_insert_at_end<T>(t: Seq<T>, x: T, lt: spec_fn(T, T) -> bool)
    requires
        forall|k: int| 0 <= k < t.len() ==> !lt(x, #[trigger] t[k]),
    ensures
        stable_insert(t, x, lt) == t.push(x),
    decreases t.len(),
{
    if t.len() > 0 {
        let u = t.drop_first();
        assert forall|k: int| 0 <= k < u.len() implies !lt(x, #[trigger] u[k]) by {
            assert(u[k] == t[k + 1]);
        }
        lemma_insert_at_end(u, x, lt);
        assert(!lt(x, t[0]));
        assert(seq![t[0]] + u.push(x) =~= t.push(x));
    } else {
        assert(seq![x] =~= t.push(x));
    }
}

/// A project created after every listed one (a larger `created_at`) is
/// listed last, after the others in their previous order.
pub proof fn law_new_project_listed_last(projects: Seq<(String, Project)>, new: (String, Project))
    requires
        forall|k: int| 0 <= k < projects.len() ==> created_key((#[trigger] projects[k]).1)
            < created_key(new.1),
    ensures
        listing_order(projects.push(new)) == listing_order(projects).push(new),
{
    let lt = before_fn::<(String, Project)>();
    let s = projects.push(new);
    assert(s.drop_last() =~= projects);
    lemma_stable_sort_members(projects, lt);
    let t = listing_order(projects);
    assert forall|k: int| 0 <= k < t.len() implies !lt(new, #[trigger] t[k]) by {
        assert(t.contains(t[k]));
        let m = choose|m: int| 0 <= m < projects.len() && projects[m] == t[k];
        assert(created_key(projects[m].1) < created_key(new.1));
    }
    lemma_insert_at_end(t, new, lt);
}

/// A task added to a project (a position past every position of its
/// project) is listed last among the project's tasks, after the others in
/// their previous order.
pub proof fn law_added_task_listed_last(docs: Seq<TaskDoc>, key: Seq<char>, added: TaskDoc)
    requires
        added.project_id@ == key,
        added.position > max_position(docs, key),
    ensures
        project_tasks(docs.push(added), key) == project_tasks(docs, key).push(added.task),
{
    let lt = before_fn::<TaskDoc>();
    let s = docs.push(added);
    assert(s.drop_last() =~= docs);
    assert(docs_for(s, key) == docs_for(docs, key).push(added));
    let f = docs_for(docs, key);
    assert(docs_for(s, key).drop_last() =~= f);
    lemma_max_position_bound(docs, key);
    lemma_docs_for_members(docs, key);
    lemma_stable_sort_members(f, lt);
    let t = stable_sort(f, lt);
    assert forall|k: int| 0 <= k < t.len() implies !lt(added, #[trigger] t[k]) by {
        assert(t.contains(t[k]));
        assert(f.contains(t[k]));
        let m = choose|m: int| 0 <= m < docs.len() && docs[m] == t[k];
        assert(docs[m].project_id@ == key);
    }
    lemma_insert_at_end(t, added, lt);
    assert(tasks_of(t.push(added)) =~= tasks_of(t).push(added.task));
}

/// Every document listed for a project is a document of that project.
pub proof fn lemma_docs_for_members(docs: Seq<TaskDoc>, key: Seq<char>)
    ensures
        forall|d: TaskDoc| #[trigger] docs_for(docs, key).contains(d) ==> exists|m: int|
            0 <= m < docs.len() && docs[m] == d && d.project_id@ == key,
    decreases docs.len(),
{
    if docs.len() > 0 {
        let t = docs.drop_last();
        lemma_docs_for_members(t, key);
        assert forall|d: TaskDoc| #[trigger] docs_for(docs, key).contains(d) implies exists|m: int|
            0 <= m < docs.len() && docs[m] == d && d.project_id@ == key by {
            let r = docs_for(t, key);
            if docs.last().project_id@ == key && d == docs.last() {
                assert(docs[docs.len() - 1] == d);
            } else {
                if docs.last().project_id@ == key {
                    let k = choose|k: int| 0 <= k < docs_for(docs, key).len() && docs_for(docs, key)[k] == d;
                    assert(r.push(docs.last())[k] == d);
                    assert(k < r.len());
                    assert(r.contains(d));
                } else {
                    assert(r.contains(d));
                }
                let m = choose|m: int| 0 <= m < t.len() && t[m] == d && d.project_id@ == key;
                assert(docs[m] == d);
            }
        }
    }
}

/// What orders task documents: position and task id.
pub open spec fn doc_key(d: TaskDoc) -> (u64, Seq<char>) {
    (d.position, d.task.id@)
}

/// What orders project entries: creation mark and project id.
pub open spec fn entry_key(e: (String, Project)) -> (nat, Seq<char>) {
    (created_key(e.1), e.1.id@)
}

pub open spec fn task_ids(ts: Seq<Task>) -> Seq<Seq<char>> {
    ts.map_values(|t: Task| t.id@)
}

pub open spec fn listed_ids(es: Seq<(String, Project)>) -> Seq<Seq<char>> {
    es.map_values(|e: (String, Project)| e.1.id@)
}

proof fn lemma_docs_for_update(docs: Seq<TaskDoc>, i: int, d2: TaskDoc, key: Seq<char>)
    requires
        0 <= i < docs.len(),
        d2.project_id@ == docs[i].project_id@,
        doc_key(d2) == doc_key(docs[i]),
    ensures
        crate::ordering::same_keys(
            docs_for(docs.update(i, d2), key),
            docs_for(docs, key),
            |d: TaskDoc| doc_key(d),
        ),
    decreases docs.len(),
{
    let s = docs.update(i, d2);
    let kf = |d: TaskDoc| doc_key(d);
    if i == docs.len() - 1 {
        assert(s.drop_last() =~= docs.drop_last());
        let r = docs_for(docs.drop_last(), key);
        assert forall|k: int| 0 <= k < docs_for(s, key).len() implies kf(
            #[trigger] docs_for(s, key)[k],
        ) == kf(docs_for(docs, key)[k]) by {
            if k < r.len() {
            }
        }
    } else {
        assert(s.drop_last() =~= docs.drop_last().update(i, d2));
        lemma_docs_for_update(docs.drop_last(), i, d2, key);
        let r = docs_for(s.drop_last(), key);
        let r2 = docs_for(docs.drop_last(), key);
        assert(s.last() == docs.last());
        assert forall|k: int| 0 <= k < docs_for(s, key).len() implies kf(
            #[trigger] docs_for(s, key)[k],
        ) == kf(docs_for(docs, key)[k]) by {
            if k < r.len() {
                assert(kf(r[k]) == kf(r2[k]));
            }
        }
    }
}

/// A task replaced in place (same project, same position, same id) keeps
/// its place: the project lists the same task ids in the same order.
pub proof fn law_replaced_task_keeps_its_place(docs: Seq<TaskDoc>, i: int, replaced: TaskDoc, key: Seq<char>)
    requires
        0 <= i < docs.len(),
        replaced.project_id@ == docs[i].project_id@,
        replaced.position == docs[i].position,
        replaced.task.id@ == docs[i].task.id@,
    ensures
        task_ids(project_tasks(docs.update(i, replaced), key)) == task_ids(project_tasks(docs, key)),
{
    let kf = |d: TaskDoc| doc_key(d);
    let lt = before_fn::<TaskDoc>();
    lemma_docs_for_update(docs, i, replaced, key);
    assert(crate::ordering::compares_by(lt, kf));
    crate::ordering::lemma_sort_same_keys(
        docs_for(docs.update(i, replaced), key),
        docs_for(docs, key),
        lt,
        kf,
    );
    let a = stable_sort(docs_for(docs.update(i, replaced), key), lt);
    let b = stable_sort(docs_for(docs, key), lt);
    assert forall|k: int| 0 <= k < a.len() implies (#[trigger] task_ids(tasks_of(a))[k]) == task_ids(
        tasks_of(b),
    )[k] by {
        assert(kf(a[k]) == kf(b[k]));
    }
    assert(task_ids(tasks_of(a)) =~= task_ids(tasks_of(b)));
}

/// A project edited in place (same id, same creation mark) keeps its place
/// in the listing.
pub proof fn law_edited_project_keeps_its_place(
    projects: Seq<(String, Project)>,
    i: int,
    edited: (String, Project),
)
    requires
        0 <= i < projects.len(),
        created_key(edited.1) == created_key(projects[i].1),
        edited.1.id@ == projects[i].1.id@,
    ensures
        listed_ids(listing_order(projects.update(i, edited))) == listed_ids(listing_order(projects)),
{
    let kf = |e: (String, Project)| entry_key(e);
    let lt = before_fn::<(String, Project)>();
    let s = projects.update(i, edited);
    assert forall|k: int| 0 <= k < s.len() implies kf(#[trigger] s[k]) == kf(projects[k]) by {}
    assert(crate::ordering::compares_by(lt, kf));
    crate::ordering::lemma_sort_same_keys(s, projects, lt, kf);
    let a = listing_order(s);
    let b = listing_order(projects);
    assert forall|k: int| 0 <= k < a.len() implies (#[trigger] listed_ids(a)[k]) == listed_ids(b)[k] by {
        assert(kf(a[k]) == kf(b[k]));
    }
    assert(listed_ids(a) =~= listed_ids(b));
}

} // verus!
