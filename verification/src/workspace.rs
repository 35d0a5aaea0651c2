//! The projects screen's state: the projects on show and the one selected,
//! and what each action does to them once the store has answered.
use crate::models::{Project, Task};
use crate::text::{push_decimal, push_text, same_text, decimal};
use vstd::prelude::*;

verus! {

/// How a project's tasks are shown.
#[derive(Clone, Copy, PartialEq, Eq, Debug, Structural)]
pub enum ViewMode {
    List,
    Kanban,
    Gantt,
}

impl ViewMode {
    /// Tasks start as a list.
    pub fn initial() -> (r: ViewMode)
        ensures
            r == ViewMode::List,
    {
        ViewMode::List
    }
}

/// A provisional id for something made in memory: the prefix and a number
/// that the caller never hands out twice.
pub fn next_id(prefix: &str, n: u64) -> (r: String)
    ensures
        r@ == prefix@ + decimal(n as nat),
{
    let mut s = String::new();
    push_text(&mut s, prefix);
    push_decimal(&mut s, n);
    s
}

/// The projects on show and the selected one.
pub struct ProjectState {
    pub projects: Vec<Project>,
    pub selected_project_id: Option<String>,
}

/// The ids of a list of projects.
pub open spec fn project_ids(ps: Seq<Project>) -> Seq<Seq<char>> {
    ps.map_values(|p: Project| p.id@)
}

/// `ps` without the projects whose id is `id`.
pub open spec fn without_project(ps: Seq<Project>, id: Seq<char>) -> Seq<Project>
    decreases ps.len(),
{
    if ps.len() == 0 {
        Seq::empty()
    } else if ps[0].id@ == id {
        without_project(ps.drop_first(), id)
    } else {
        seq![ps[0]] + without_project(ps.drop_first(), id)
    }
}

/// `ts` without the tasks whose id is `id`.
pub open spec fn without_task(ts: Seq<Task>, id: Seq<char>) -> Seq<Task>
    decreases ts.len(),
{
    if ts.len() == 0 {
        Seq::empty()
    } else if ts[0].id@ == id {
        without_task(ts.drop_first(), id)
    } else {
        seq![ts[0]] + without_task(ts.drop_first(), id)
    }
}

/// The first position whose project has id `id`.
pub open spec fn first_project(ps: Seq<Project>, id: Seq<char>) -> Option<int> {
    if exists|i: int| 0 <= i < ps.len() && ps[i].id@ == id {
        Some(choose|i: int| 0 <= i < ps.len() && ps[i].id@ == id && forall|j: int| 0 <= j < i ==> ps[j].id@ != id)
    } else {
        None
    }
}

/// Whether a selection names a project of the list (or there is none).
pub open spec fn selection_valid(ps: Seq<Project>, selected: Option<String>) -> bool {
    match selected {
        Some(id) => project_ids(ps).contains(id@),
        None => true,
    }
}

fn find_project(ps: &Vec<Project>, id: &str) -> (r: Option<usize>)
    ensures
        match r {
            Some(i) => i < ps@.len() && ps@[i as int].id@ == id@ && forall|j: int|
                0 <= j < i ==> ps@[j].id@ != id@,
            None => forall|j: int| 0 <= j < ps@.len() ==> ps@[j].id@ != id@,
        },
{
    let mut i: usize = 0;
    while i < ps.len()
        invariant
            i <= ps@.len(),
            forall|j: int| 0 <= j < i ==> ps@[j].id@ != id@,
        decreases ps@.len() - i,
    {
        if same_text(ps[i].id.as_str(), id) {
            return Some(i);
        }
        i = i + 1;
    }
    None
}

proof fn lemma_without_project_step(ps: Seq<Project>, i: int, id: Seq<char>)
    requires
        0 <= i < ps.len(),
    ensures
        without_project(ps.subrange(i, ps.len() as int), id) == if ps[i].id@ == id {
            without_project(ps.subrange(i + 1, ps.len() as int), id)
        } else {
            seq![ps[i]] + without_project(ps.subrange(i + 1, ps.len() as int), id)
        },
{
    let s = ps.subrange(i, ps.len() as int);
    assert(s[0] == ps[i]);
    assert(s.drop_first() =~= ps.subrange(i + 1, ps.len() as int));
}

proof fn lemma_without_task_step(ts: Seq<Task>, i: int, id: Seq<char>)
    requires
        0 <= i < ts.len(),
    ensures
        without_task(ts.subrange(i, ts.len() as int), id) == if ts[i].id@ == id {
            without_task(ts.subrange(i + 1, ts.len() as int), id)
        } else {
            seq![ts[i]] + without_task(ts.subrange(i + 1, ts.len() as int), id)
        },
{
    let s = ts.subrange(i, ts.len() as int);
    assert(s[0] == ts[i]);
    assert(s.drop_first() =~= ts.subrange(i + 1, ts.len() as int));
}

/// No project of `without_project(ps, id)` has the id `id`, and every other
/// project stays.
pub proof fn lemma_without_project_members(ps: Seq<Project>, id: Seq<char>)
    ensures
        !project_ids(without_project(ps, id)).contains(id),
        forall|x: Seq<char>| x != id ==> (project_ids(without_project(ps, id)).contains(x) <==> project_ids(ps).contains(x)),
    decreases ps.len(),
{
    if ps.len() > 0 {
        lemma_without_project_members(ps.drop_first(), id);
        let rest = without_project(ps.drop_first(), id);
        assert(project_ids(seq![ps[0]] + rest) =~= seq![ps[0].id@] + project_ids(rest));
        assert(project_ids(ps) =~= seq![ps[0].id@] + project_ids(ps.drop_first()));
        assert forall|x: Seq<char>| x != id implies (project_ids(without_project(ps, id)).contains(x) <==> project_ids(ps).contains(x)) by {
            if project_ids(ps).contains(x) {
                let j = choose|j: int| 0 <= j < project_ids(ps).len() && project_ids(ps)[j] == x;
                if j > 0 {
                    assert(project_ids(ps.drop_first())[j - 1] == x);
                }
            }
            if project_ids(ps.drop_first()).contains(x) {
                let j = choose|j: int| 0 <= j < project_ids(ps.drop_first()).len() && project_ids(ps.drop_first())[j] == x;
                assert(project_ids(ps)[j + 1] == x);
            }
            if ps[0].id@ != id && project_ids(rest).contains(x) {
                let j = choose|j: int| 0 <= j < project_ids(rest).len() && project_ids(rest)[j] == x;
                assert(project_ids(seq![ps[0]] + rest)[j + 1] == x);
            }
            if ps[0].id@ != id && project_ids(seq![ps[0]] + rest).contains(x) {
                let j = choose|j: int| 0 <= j < project_ids(seq![ps[0]] + rest).len() && project_ids(seq![ps[0]] + rest)[j] == x;
                if j > 0 {
                    assert(project_ids(rest)[j - 1] == x);
                }
            }
            if ps[0].id@ == x {
                assert(project_ids(ps)[0] == x);
                if ps[0].id@ != id {
                    assert(project_ids(seq![ps[0]] + rest)[0] == x);
                }
            }
        }
        if ps[0].id@ != id {
            assert(!project_ids(seq![ps[0]] + rest).contains(id)) by {
                if project_ids(seq![ps[0]] + rest).contains(id) {
                    let j = choose|j: int| 0 <= j < project_ids(seq![ps[0]] + rest).len() && project_ids(seq![ps[0]] + rest)[j] == id;
                    if j > 0 {
                        assert(project_ids(rest)[j - 1] == id);
                    }
                }
            }
        }
    }
}

impl ProjectState {
    /// Nothing on show yet, nothing selected.
    pub fn new(projects: Vec<Project>) -> (r: ProjectState)
        ensures
            r.projects@ == projects@,
            r.selected_project_id is None,
    {
        ProjectState { projects, selected_project_id: None }
    }

    /// Selects a project, or clears the selection.
    pub fn select_project(&mut self, id: Option<String>)
        ensures
            final(self).selected_project_id == id,
            final(self).projects@ == old(self).projects@,
    {
        self.selected_project_id = id;
    }

    /// The position of the selected project, when it is on show.
    pub fn selected(&self) -> (r: Option<usize>)
        ensures
            match self.selected_project_id {
                None => r is None,
                Some(id) => match r {
                    Some(i) => i < self.projects@.len() && self.projects@[i as int].id@ == id@
                        && forall|j: int| 0 <= j < i ==> self.projects@[j].id@ != id@,
                    None => forall|j: int| 0 <= j < self.projects@.len() ==> self.projects@[j].id@ != id@,
                },
            },
    {
        match &self.selected_project_id {
            None => None,
            Some(id) => find_project(&self.projects, id.as_str()),
        }
    }

    /// A project the store created goes last.
    pub fn add_project(&mut self, created: Project)
        ensures
            final(self).projects@ == old(self).projects@.push(created),
            final(self).selected_project_id == old(self).selected_project_id,
    {
        self.projects.push(created);
    }

    /// Puts `updated` in the place of the first project with id `id`;
    /// `false` (and no change) when there is none.
    pub fn update_project(&mut self, id: &str, updated: Project) -> (r: bool)
        ensures
            r <==> exists|i: int| 0 <= i < old(self).projects@.len() && old(self).projects@[i].id@ == id@,
            r ==> exists|i: int|
                0 <= i < old(self).projects@.len() && old(self).projects@[i].id@ == id@ && (forall|j: int|
                    0 <= j < i ==> old(self).projects@[j].id@ != id@) && final(self).projects@
                    == old(self).projects@.update(i, updated),
            !r ==> final(self).projects@ == old(self).projects@,
            final(self).selected_project_id == old(self).selected_project_id,
    {
        match find_project(&self.projects, id) {
            Some(i) => {
                self.projects.set(i, updated);
                true
            },
            None => false,
        }
    }

    /// Takes the project with id `id` off the list (once the store deleted
    /// it); a selection of it is cleared.
    pub fn delete_project(&mut self, id: &str)
        ensures
            final(self).projects@ == without_project(old(self).projects@, id@),
            final(self).selected_project_id == match old(self).selected_project_id {
                Some(s) => if s@ == id@ {
                    None
                } else {
                    Some(s)
                },
                None => None,
            },
    {
        let ghost orig = self.projects@;
        let n = self.projects.len();
        let mut i: usize = n;
        assert(orig.subrange(0, n as int) =~= orig);
        assert(orig.subrange(n as int, n as int) =~= Seq::<Project>::empty());
        while i > 0
            invariant
                n == orig.len(),
                i <= n,
                self.projects@ == orig.subrange(0, i as int) + without_project(orig.subrange(i as int, n as int), id@),
                self.selected_project_id == old(self).selected_project_id,
            decreases i,
        {
            proof {
                lemma_without_project_step(orig, i - 1, id@);
            }
            let ghost w = without_project(orig.subrange(i as int, n as int), id@);
            assert(self.projects@[i - 1] == orig[i - 1]);
            if same_text(self.projects[i - 1].id.as_str(), id) {
                self.projects.remove(i - 1);
                assert(self.projects@ =~= orig.subrange(0, i - 1) + w);
            } else {
                assert(self.projects@ =~= orig.subrange(0, i - 1) + (seq![orig[i - 1]] + w));
            }
            i = i - 1;
        }
        assert(orig.subrange(0, 0) + without_project(orig.subrange(0, n as int), id@) =~= without_project(orig, id@));
        let clear = match &self.selected_project_id {
            Some(s) => same_text(s.as_str(), id),
            None => false,
        };
        if clear {
            self.selected_project_id = None;
        }
    }

    /// Adds a task the store created to the end of its project's tasks;
    /// nothing changes when the project is not on show.
    pub fn add_task(&mut self, project_id: &str, created: Task)
        ensures
            final(self).projects@.len() == old(self).projects@.len(),
            match first_project(old(self).projects@, project_id@) {
                Some(i) => final(self).projects@ == old(self).projects@.update(
                    i,
                    Project {
                        tasks: final(self).projects@[i].tasks,
                        ..old(self).projects@[i]
                    },
                ) && final(self).projects@[i].tasks@ == old(self).projects@[i].tasks@.push(created),
                None => final(self).projects@ == old(self).projects@,
            },
            final(self).selected_project_id == old(self).selected_project_id,
    {
        match find_project(&self.projects, project_id) {
            Some(i) => {
                let mut p = self.projects.remove(i);
                p.tasks.push(created);
                self.projects.insert(i, p);
                proof {
                    let ps = old(self).projects@;
                    assert(exists|k: int| 0 <= k < ps.len() && ps[k].id@ == project_id@) by {
                        assert(ps[i as int].id@ == project_id@);
                    }
                    let c = choose|k: int| 0 <= k < ps.len() && ps[k].id@ == project_id@ && forall|j: int| 0 <= j < k ==> ps[j].id@ != project_id@;
                    assert(first_project(ps, project_id@) == Some(i as int)) by {
                        assert(0 <= i < ps.len() && ps[i as int].id@ == project_id@ && forall|j: int| 0 <= j < i ==> ps[j].id@ != project_id@);
                        if c < i {
                            assert(ps[c].id@ != project_id@);
                        } else if c > i {
                            assert(ps[i as int].id@ != project_id@);
                        }
                    }
                    assert(self.projects@ =~= ps.update(i as int, Project { tasks: self.projects@[i as int].tasks, ..ps[i as int] }));
                }
            },
            None => {
                proof {
                    assert(!exists|k: int| 0 <= k < old(self).projects@.len() && old(self).projects@[k].id@ == project_id@);
                }
            },
        }
    }

    /// Takes the task `task_id` out of project `project_id` (once the store
    /// deleted it); nothing changes when the project is not on show.
    pub fn delete_task(&mut self, project_id: &str, task_id: &str)
        ensures
            final(self).projects@.len() == old(self).projects@.len(),
            match first_project(old(self).projects@, project_id@) {
                Some(i) => final(self).projects@ == old(self).projects@.update(
                    i,
                    Project {
                        tasks: final(self).projects@[i].tasks,
                        ..old(self).projects@[i]
                    },
                ) && final(self).projects@[i].tasks@ == without_task(old(self).projects@[i].tasks@, task_id@),
                None => final(self).projects@ == old(self).projects@,
            },
            final(self).selected_project_id == old(self).selected_project_id,
    {
        match find_project(&self.projects, project_id) {
            Some(i) => {
                let mut p = self.projects.remove(i);
                let ghost p0 = p;
                let ghost orig = p.tasks@;
                let n = p.tasks.len();
                let mut k: usize = n;
                assert(orig.subrange(0, n as int) =~= orig);
                assert(orig.subrange(n as int, n as int) =~= Seq::<Task>::empty());
                while k > 0
                    invariant
                        n == orig.len(),
                        k <= n,
                        p.tasks@ == orig.subrange(0, k as int) + without_task(orig.subrange(k as int, n as int), task_id@),
                        p == (Project { tasks: p.tasks, ..p0 }),
                    decreases k,
                {
                    proof {
                        lemma_without_task_step(orig, k - 1, task_id@);
                    }
                    let ghost w = without_task(orig.subrange(k as int, n as int), task_id@);
                    assert(p.tasks@[k - 1] == orig[k - 1]);
                    if same_text(p.tasks[k - 1].id.as_str(), task_id) {
                        p.tasks.remove(k - 1);
                        assert(p.tasks@ =~= orig.subrange(0, k - 1) + w);
                    } else {
                        assert(p.tasks@ =~= orig.subrange(0, k - 1) + (seq![orig[k - 1]] + w));
                    }
                    k = k - 1;
                }
                assert(orig.subrange(0, 0) + without_task(orig.subrange(0, n as int), task_id@) =~= without_task(orig, task_id@));
                self.projects.insert(i, p);
                proof {
                    let ps = old(self).projects@;
                    let c = choose|k: int| 0 <= k < ps.len() && ps[k].id@ == project_id@ && forall|j: int| 0 <= j < k ==> ps[j].id@ != project_id@;
                    assert(first_project(ps, project_id@) == Some(i as int)) by {
                        assert(0 <= i < ps.len() && ps[i as int].id@ == project_id@ && forall|j: int| 0 <= j < i ==> ps[j].id@ != project_id@);
                        if c < i {
                            assert(ps[c].id@ != project_id@);
                        } else if c > i {
                            assert(ps[i as int].id@ != project_id@);
                        }
                    }
                    assert(self.projects@ =~= ps.update(i as int, Project { tasks: self.projects@[i as int].tasks, ..ps[i as int] }));
                }
            },
            None => {},
        }
    }

    /// Puts `updated` in the place of task `task_id` of project `project_id`;
    /// `false` (and no change) when either is not on show.
    pub fn update_task(&mut self, project_id: &str, task_id: &str, updated: Task) -> (r: bool)
        ensures
            final(self).projects@.len() == old(self).projects@.len(),
            r <==> (first_project(old(self).projects@, project_id@) matches Some(i) && exists|k: int|
                0 <= k < old(self).projects@[i].tasks@.len() && old(self).projects@[i].tasks@[k].id@
                    == task_id@),
            !r ==> final(self).projects@ == old(self).projects@,
            r ==> match first_project(old(self).projects@, project_id@) {
                Some(i) => final(self).projects@ == old(self).projects@.update(
                    i,
                    Project {
                        tasks: final(self).projects@[i].tasks,
                        ..old(self).projects@[i]
                    },
                ) && exists|k: int|
                    0 <= k < old(self).projects@[i].tasks@.len() && old(self).projects@[i].tasks@[k].id@ == task_id@
                        && final(self).projects@[i].tasks@ == old(self).projects@[i].tasks@.update(k, updated),
                None => false,
            },
            final(self).selected_project_id == old(self).selected_project_id,
    {
        match find_project(&self.projects, project_id) {
            Some(i) => {
                let ghost ps = old(self).projects@;
                let mut p = self.projects.remove(i);
                let found = crate::board::find_task(&p.tasks, task_id);
                let done = match found {
                    Some(k) => {
                        p.tasks.set(k, updated);
                        true
                    },
                    None => false,
                };
                self.projects.insert(i, p);
                proof {
                    let c = choose|k: int| 0 <= k < ps.len() && ps[k].id@ == project_id@ && forall|j: int| 0 <= j < k ==> ps[j].id@ != project_id@;
                    assert(first_project(ps, project_id@) == Some(i as int)) by {
                        assert(0 <= i < ps.len() && ps[i as int].id@ == project_id@ && forall|j: int| 0 <= j < i ==> ps[j].id@ != project_id@);
                        if c < i {
                            assert(ps[c].id@ != project_id@);
                        } else if c > i {
                            assert(ps[i as int].id@ != project_id@);
                        }
                    }
                    if !done {
                        assert(self.projects@ =~= ps);
                    } else {
                        assert(self.projects@ =~= ps.update(i as int, Project { tasks: self.projects@[i as int].tasks, ..ps[i as int] }));
                    }
                }
                done
            },
            None => false,
        }
    }

    /// Replaces the list with the store's; a selection that names no project
    /// of the new list is cleared.
    pub fn refresh(&mut self, projects: Vec<Project>)
        ensures
            final(self).projects@ == projects@,
            final(self).selected_project_id == match old(self).selected_project_id {
                Some(s) => if project_ids(projects@).contains(s@) {
                    Some(s)
                } else {
                    None
                },
                None => None,
            },
            selection_valid(final(self).projects@, final(self).selected_project_id),
    {
        let absent = match &self.selected_project_id {
            Some(sel) => find_project(&projects, sel.as_str()).is_none(),
            None => false,
        };
        proof {
            if self.selected_project_id is Some {
                let sel = self.selected_project_id->0;
                if project_ids(projects@).contains(sel@) {
                    let j = choose|j: int| 0 <= j < project_ids(projects@).len() && project_ids(projects@)[j] == sel@;
                    assert(projects@[j].id@ == sel@);
                } else {
                    assert forall|j: int| 0 <= j < projects@.len() implies projects@[j].id@ != sel@ by {
                        assert(project_ids(projects@)[j] == projects@[j].id@);
                    }
                }
            }
        }
        if absent {
            self.selected_project_id = None;
        }
        self.projects = projects;
    }
}

/// Deleting a project leaves no project with its id on show, keeps every
/// other project, and leaves no selection of it behind.
pub proof fn law_deleted_project_is_gone(ps: Seq<Project>, selected: Option<String>, id: Seq<char>)
    requires
        selection_valid(ps, selected),
    ensures
        !project_ids(without_project(ps, id)).contains(id),
        forall|x: Seq<char>| x != id ==> (project_ids(without_project(ps, id)).contains(x) <==> project_ids(ps).contains(x)),
        selection_valid(
            without_project(ps, id),
            match selected {
                Some(s) => if s@ == id {
                    None
                } else {
                    Some(s)
                },
                None => None,
            },
        ),
{
    lemma_without_project_members(ps, id);
}

} // verus!
