//! The domain model shared by the views, the services and the stores:
//! projects, their tasks, the enums that classify them, and users.
use crate::text::{push_char, push_text, same_text};
use vstd::prelude::*;

verus! {

// ── Task status ──────────────────────────────────────────────────────────────
/// State of a task.
#[derive(Clone, Copy, PartialEq, Eq, Debug, Structural)]
pub enum TaskStatus {
    Todo,
    InProgress,
    Done,
}

impl TaskStatus {
    /// The wire name (`snake_case`).
    pub open spec fn name(self) -> Seq<char> {
        match self {
            TaskStatus::Todo => "todo"@,
            TaskStatus::InProgress => "in_progress"@,
            TaskStatus::Done => "done"@,
        }
    }

    /// What a wire name reads as: unknown names read as `Todo`.
    pub open spec fn from_name(s: Seq<char>) -> TaskStatus {
        if s == "in_progress"@ {
            TaskStatus::InProgress
        } else if s == "done"@ {
            TaskStatus::Done
        } else {
            TaskStatus::Todo
        }
    }

    /// The three states, in board order.
    pub fn all() -> (r: [TaskStatus; 3])
        ensures
            r@ == seq![TaskStatus::Todo, TaskStatus::InProgress, TaskStatus::Done],
    {
        let r = [TaskStatus::Todo, TaskStatus::InProgress, TaskStatus::Done];
        assert(r@ =~= seq![TaskStatus::Todo, TaskStatus::InProgress, TaskStatus::Done]);
        r
    }

    pub fn as_str(self) -> (r: &'static str)
        ensures
            r@ == self.name(),
    {
        match self {
            TaskStatus::Todo => "todo",
            TaskStatus::InProgress => "in_progress",
            TaskStatus::Done => "done",
        }
    }

    /// The Spanish label of the state.
    pub open spec fn label_spec(self) -> Seq<char> {
        match self {
            TaskStatus::Todo => "Por hacer"@,
            TaskStatus::InProgress => "En progreso"@,
            TaskStatus::Done => "Completada"@,
        }
    }

    pub fn label(self) -> (r: &'static str)
        ensures
            r@ == self.label_spec(),
    {
        match self {
            TaskStatus::Todo => "Por hacer",
            TaskStatus::InProgress => "En progreso",
            TaskStatus::Done => "Completada",
        }
    }

    pub fn badge(self) -> (r: &'static str)
        ensures
            r@ == match self {
                TaskStatus::Todo => "bg-[var(--secondary-color)] text-white"@,
                TaskStatus::InProgress => "bg-[var(--primary-color)] text-white"@,
                TaskStatus::Done => "bg-[var(--success-color)] text-white"@,
            },
    {
        match self {
            TaskStatus::Todo => "bg-[var(--secondary-color)] text-white",
            TaskStatus::InProgress => "bg-[var(--primary-color)] text-white",
            TaskStatus::Done => "bg-[var(--success-color)] text-white",
        }
    }

    /// Reads a wire name; unknown names read as `Todo`.
    pub fn from_text(s: &str) -> (r: TaskStatus)
        ensures
            r == TaskStatus::from_name(s@),
    {
        if same_text(s, "in_progress") {
            TaskStatus::InProgress
        } else if same_text(s, "done") {
            TaskStatus::Done
        } else {
            TaskStatus::Todo
        }
    }
}

impl<'a> From<&'a str> for TaskStatus {
    fn from(s: &'a str) -> (r: TaskStatus) {
        TaskStatus::from_text(s)
    }
}

impl<'a> vstd::std_specs::convert::FromSpecImpl<&'a str> for TaskStatus {
    open spec fn obeys_from_spec() -> bool {
        true
    }

    open spec fn from_spec(v: &'a str) -> TaskStatus {
        TaskStatus::from_name(v@)
    }
}

// ── Project status ───────────────────────────────────────────────────────────
/// State of a project.
#[derive(Clone, Copy, PartialEq, Eq, Debug, Structural)]
pub enum ProjectStatus {
    Planning,
    Active,
    Paused,
    Completed,
}

impl ProjectStatus {
    pub open spec fn name(self) -> Seq<char> {
        match self {
            ProjectStatus::Planning => "planning"@,
            ProjectStatus::Active => "active"@,
            ProjectStatus::Paused => "paused"@,
            ProjectStatus::Completed => "completed"@,
        }
    }

    /// What a wire name reads as: unknown names read as `Planning`.
    pub open spec fn from_name(s: Seq<char>) -> ProjectStatus {
        if s == "active"@ {
            ProjectStatus::Active
        } else if s == "paused"@ {
            ProjectStatus::Paused
        } else if s == "completed"@ {
            ProjectStatus::Completed
        } else {
            ProjectStatus::Planning
        }
    }

    pub fn as_str(self) -> (r: &'static str)
        ensures
            r@ == self.name(),
    {
        match self {
            ProjectStatus::Planning => "planning",
            ProjectStatus::Active => "active",
            ProjectStatus::Paused => "paused",
            ProjectStatus::Completed => "completed",
        }
    }

    /// The Spanish label of the status.
    pub open spec fn label_spec(self) -> Seq<char> {
        match self {
            ProjectStatus::Planning => "Planificación"@,
            ProjectStatus::Active => "Activo"@,
            ProjectStatus::Paused => "Pausado"@,
            ProjectStatus::Completed => "Completado"@,
        }
    }

    pub fn label(self) -> (r: &'static str)
        ensures
            r@ == self.label_spec(),
    {
        match self {
            ProjectStatus::Planning => "Planificación",
            ProjectStatus::Active => "Activo",
            ProjectStatus::Paused => "Pausado",
            ProjectStatus::Completed => "Completado",
        }
    }

    pub fn badge(self) -> (r: &'static str)
        ensures
            r@ == match self {
                ProjectStatus::Planning => "bg-[var(--secondary-color)] text-white"@,
                ProjectStatus::Active => "bg-[var(--success-color)] text-white"@,
                ProjectStatus::Paused => "bg-[var(--warning-color)] text-[#212529]"@,
                ProjectStatus::Completed => "bg-[var(--primary-color)] text-white"@,
            },
    {
        match self {
            ProjectStatus::Planning => "bg-[var(--secondary-color)] text-white",
            ProjectStatus::Active => "bg-[var(--success-color)] text-white",
            ProjectStatus::Paused => "bg-[var(--warning-color)] text-[#212529]",
            ProjectStatus::Completed => "bg-[var(--primary-color)] text-white",
        }
    }

    /// Reads a wire name; unknown names read as `Planning`.
    pub fn from_text(s: &str) -> (r: ProjectStatus)
        ensures
            r == ProjectStatus::from_name(s@),
    {
        if same_text(s, "active") {
            ProjectStatus::Active
        } else if same_text(s, "paused") {
            ProjectStatus::Paused
        } else if same_text(s, "completed") {
            ProjectStatus::Completed
        } else {
            ProjectStatus::Planning
        }
    }
}

impl<'a> From<&'a str> for ProjectStatus {
    fn from(s: &'a str) -> (r: ProjectStatus) {
        ProjectStatus::from_text(s)
    }
}

impl<'a> vstd::std_specs::convert::FromSpecImpl<&'a str> for ProjectStatus {
    open spec fn obeys_from_spec() -> bool {
        true
    }

    open spec fn from_spec(v: &'a str) -> ProjectStatus {
        ProjectStatus::from_name(v@)
    }
}

// ── Priority ─────────────────────────────────────────────────────────────────
/// Priority of a project or a task.
#[derive(Clone, Copy, PartialEq, Eq, Debug, Structural)]
pub enum Priority {
    Low,
    Medium,
    High,
}

impl Priority {
    pub open spec fn name(self) -> Seq<char> {
        match self {
            Priority::Low => "low"@,
            Priority::Medium => "medium"@,
            Priority::High => "high"@,
        }
    }

    /// What a wire name reads as: unknown names read as `Low`.
    pub open spec fn from_name(s: Seq<char>) -> Priority {
        if s == "medium"@ {
            Priority::Medium
        } else if s == "high"@ {
            Priority::High
        } else {
            Priority::Low
        }
    }

    pub fn as_str(self) -> (r: &'static str)
        ensures
            r@ == self.name(),
    {
        match self {
            Priority::Low => "low",
            Priority::Medium => "medium",
            Priority::High => "high",
        }
    }

    /// The Spanish label of the priority.
    pub open spec fn label_spec(self) -> Seq<char> {
        match self {
            Priority::Low => "Baja"@,
            Priority::Medium => "Media"@,
            Priority::High => "Alta"@,
        }
    }

    pub fn label(self) -> (r: &'static str)
        ensures
            r@ == self.label_spec(),
    {
        match self {
            Priority::Low => "Baja",
            Priority::Medium => "Media",
            Priority::High => "Alta",
        }
    }

    pub fn badge(self) -> (r: &'static str)
        ensures
            r@ == match self {
                Priority::Low => "bg-[var(--success-color)] text-white"@,
                Priority::Medium => "bg-[var(--warning-color)] text-[#212529]"@,
                Priority::High => "bg-[var(--danger-color)] text-white"@,
            },
    {
        match self {
            Priority::Low => "bg-[var(--success-color)] text-white",
            Priority::Medium => "bg-[var(--warning-color)] text-[#212529]",
            Priority::High => "bg-[var(--danger-color)] text-white",
        }
    }

    /// Colour of the Gantt bar border and the Kanban cards.
    pub fn color(self) -> (r: &'static str)
        ensures
            r@ == match self {
                Priority::Low => "#10b981"@,
                Priority::Medium => "#f59e0b"@,
                Priority::High => "#ef4444"@,
            },
    {
        match self {
            Priority::Low => "#10b981",
            Priority::Medium => "#f59e0b",
            Priority::High => "#ef4444",
        }
    }

    /// Reads a wire name; unknown names read as `Low`.
    pub fn from_text(s: &str) -> (r: Priority)
        ensures
            r == Priority::from_name(s@),
    {
        if same_text(s, "medium") {
            Priority::Medium
        } else if same_text(s, "high") {
            Priority::High
        } else {
            Priority::Low
        }
    }
}

impl<'a> From<&'a str> for Priority {
    fn from(s: &'a str) -> (r: Priority) {
        Priority::from_text(s)
    }
}

impl<'a> vstd::std_specs::convert::FromSpecImpl<&'a str> for Priority {
    open spec fn obeys_from_spec() -> bool {
        true
    }

    open spec fn from_spec(v: &'a str) -> Priority {
        Priority::from_name(v@)
    }
}

/// The names the stores keep and the labels the views show, as the data
/// written by earlier runs and the Spanish UI have them.
pub proof fn law_stored_names_and_labels()
    ensures
        TaskStatus::Todo.name() == "todo"@ && TaskStatus::InProgress.name() == "in_progress"@
            && TaskStatus::Done.name() == "done"@,
        TaskStatus::Todo.label_spec() == "Por hacer"@ && TaskStatus::InProgress.label_spec()
            == "En progreso"@ && TaskStatus::Done.label_spec() == "Completada"@,
        ProjectStatus::Planning.name() == "planning"@ && ProjectStatus::Active.name()
            == "active"@ && ProjectStatus::Paused.name() == "paused"@
            && ProjectStatus::Completed.name() == "completed"@,
        ProjectStatus::Planning.label_spec() == "Planificación"@
            && ProjectStatus::Active.label_spec() == "Activo"@
            && ProjectStatus::Paused.label_spec() == "Pausado"@
            && ProjectStatus::Completed.label_spec() == "Completado"@,
        Priority::Low.name() == "low"@ && Priority::Medium.name() == "medium"@
            && Priority::High.name() == "high"@,
        Priority::Low.label_spec() == "Baja"@ && Priority::Medium.label_spec() == "Media"@
            && Priority::High.label_spec() == "Alta"@,
{
}

/// Reading back a wire name gives the value that wrote it.
pub proof fn law_wire_names_round_trip(t: TaskStatus, p: ProjectStatus, q: Priority)
    ensures
        TaskStatus::from_name(t.name()) == t,
        ProjectStatus::from_name(p.name()) == p,
        Priority::from_name(q.name()) == q,
{
    reveal_strlit("todo");
    reveal_strlit("in_progress");
    reveal_strlit("done");
    reveal_strlit("planning");
    reveal_strlit("active");
    reveal_strlit("paused");
    reveal_strlit("completed");
    reveal_strlit("low");
    reveal_strlit("medium");
    reveal_strlit("high");
    assert("todo"@ != "in_progress"@ && "todo"@ != "done"@ && "in_progress"@ != "done"@) by {
        assert("todo"@.len() != "in_progress"@.len());
        assert("todo"@[0] != "done"@[0]);
        assert("in_progress"@.len() != "done"@.len());
    }
    assert("planning"@ != "active"@ && "planning"@ != "paused"@ && "planning"@ != "completed"@
        && "active"@ != "paused"@ && "active"@ != "completed"@ && "paused"@ != "completed"@) by {
        assert("planning"@.len() != "active"@.len());
        assert("planning"@.len() != "paused"@.len());
        assert("planning"@.len() != "completed"@.len());
        assert("active"@[0] != "paused"@[0]);
        assert("active"@.len() != "completed"@.len());
        assert("paused"@.len() != "completed"@.len());
    }
    assert("low"@ != "medium"@ && "low"@ != "high"@ && "medium"@ != "high"@) by {
        assert("low"@.len() != "medium"@.len());
        assert("low"@[0] != "high"@[0]);
        assert("medium"@.len() != "high"@.len());
    }
}

// ── Tasks and projects ───────────────────────────────────────────────────────
/// A task. Dates are ISO `YYYY-MM-DD` text. The estimate in hours is a
/// binary64 number, carried here as its IEEE-754 bit pattern (`f64::to_bits`)
/// and never computed on.
pub struct Task {
    pub id: String,
    pub title: String,
    pub description: Option<String>,
    pub status: TaskStatus,
    pub assignee: Option<String>,
    pub priority: Priority,
    pub start_date: Option<String>,
    pub end_date: Option<String>,
    pub estimated_hours: Option<u64>,
    pub tags: Vec<String>,
}

/// A project. `business` is optional and kept by name. `created_at`
/// (milliseconds since the epoch) is set when the project is stored and
/// orders the listing; `tasks` never travels in the project's own document.
pub struct Project {
    pub id: String,
    pub name: String,
    pub description: Option<String>,
    pub business: Option<String>,
    pub start_date: Option<String>,
    pub end_date: Option<String>,
    pub status: ProjectStatus,
    pub priority: Priority,
    pub team: Vec<String>,
    pub color: String,
    pub created_at: Option<u64>,
    pub tasks: Vec<Task>,
}

/// How many tasks of `s` are in state `status`.
pub open spec fn count_status(s: Seq<Task>, status: TaskStatus) -> nat
    decreases s.len(),
{
    if s.len() == 0 {
        0
    } else {
        count_status(s.drop_last(), status) + if s.last().status == status {
            1nat
        } else {
            0nat
        }
    }
}

pub proof fn lemma_count_status_bound(s: Seq<Task>, status: TaskStatus)
    ensures
        count_status(s, status) <= s.len(),
    decreases s.len(),
{
    if s.len() > 0 {
        lemma_count_status_bound(s.drop_last(), status);
    }
}

impl Project {
    /// Number of tasks in state `status`.
    pub fn task_count(&self, status: TaskStatus) -> (r: usize)
        ensures
            r == count_status(self.tasks@, status),
    {
        let mut n: usize = 0;
        let mut i: usize = 0;
        assert(self.tasks@.subrange(0, 0) =~= Seq::<Task>::empty());
        while i < self.tasks.len()
            invariant
                i <= self.tasks@.len(),
                n == count_status(self.tasks@.subrange(0, i as int), status),
                n <= i,
            decreases self.tasks@.len() - i,
        {
            let ghost pre = self.tasks@.subrange(0, i as int);
            let ghost next = self.tasks@.subrange(0, i as int + 1);
            assert(next.drop_last() =~= pre);
            if self.tasks[i].status == status {
                n = n + 1;
            }
            i = i + 1;
        }
        assert(self.tasks@.subrange(0, self.tasks@.len() as int) =~= self.tasks@);
        n
    }
}

// ── Users ────────────────────────────────────────────────────────────────────
/// An authenticated user as the views see it.
pub struct User {
    pub username: String,
    pub email: Option<String>,
    pub nombre: Option<String>,
    pub apellido: Option<String>,
    pub avatar_url: Option<String>,
    /// `super_admin`, `admin` or `operativo`.
    pub role: String,
}

/// A name part that counts: present and not empty.
pub open spec fn name_part(p: Option<String>) -> Option<Seq<char>> {
    match p {
        Some(s) => if s@.len() > 0 {
            Some(s@)
        } else {
            None
        },
        None => None,
    }
}

impl User {
    /// `"nombre apellido"` from the non-empty parts, or the username.
    pub open spec fn full_name_spec(self) -> Seq<char> {
        match (name_part(self.nombre), name_part(self.apellido)) {
            (Some(n), Some(a)) => n + seq![' '] + a,
            (Some(n), None) => n,
            (None, Some(a)) => a,
            (None, None) => self.username@,
        }
    }

    pub fn full_name(&self) -> (r: String)
        ensures
            r@ == self.full_name_spec(),
    {
        let mut out = String::new();
        let mut any = false;
        match &self.nombre {
            Some(n) => {
                if n.unicode_len() > 0 {
                    push_text(&mut out, n.as_str());
                    any = true;
                }
            },
            None => {},
        }
        match &self.apellido {
            Some(a) => {
                if a.unicode_len() > 0 {
                    if any {
                        push_char(&mut out, ' ');
                    }
                    push_text(&mut out, a.as_str());
                    any = true;
                }
            },
            None => {},
        }
        if !any {
            return self.username.clone();
        }
        assert(out@ =~= self.full_name_spec());
        out
    }
}

impl Default for User {
    fn default() -> (r: User)
        ensures
            r.username@ == Seq::<char>::empty(),
            r.email is None,
            r.nombre is None,
            r.apellido is None,
            r.avatar_url is None,
            r.role@ == Seq::<char>::empty(),
    {
        User {
            username: String::new(),
            email: None,
            nombre: None,
            apellido: None,
            avatar_url: None,
            role: String::new(),
        }
    }
}

/// A stored user: the `users/{username}` document, with the PHC string of
/// the password hash. Never shown to the views.
pub struct StoredUser {
    pub username: String,
    pub role: String,
    pub nombre: Option<String>,
    pub apellido: Option<String>,
    pub email: Option<String>,
    pub avatar_url: Option<String>,
    pub password_hash: String,
}

impl StoredUser {
    /// The view of the user, without the hash.
    pub fn into_user(self) -> (u: User)
        ensures
            u.username == self.username,
            u.email == self.email,
            u.nombre == self.nombre,
            u.apellido == self.apellido,
            u.avatar_url == self.avatar_url,
            u.role == self.role,
    {
        User {
            username: self.username,
            email: self.email,
            nombre: self.nombre,
            apellido: self.apellido,
            avatar_url: self.avatar_url,
            role: self.role,
        }
    }
}

} // verus!
