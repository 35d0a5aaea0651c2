//! The project and task forms: how their text fields become a project or a
//! task, when a save is refused, what a form starts with, and the quick
//! "assign me" actions.
use crate::models::{Priority, Project, ProjectStatus, Task, TaskStatus};
use crate::text::{
    is_blank, push_text, same_text, split_text, split_text_exec, trim, trimmed, views_of,
};
use vstd::prelude::*;

verus! {

// ── Text fields ──────────────────────────────────────────────────────────────
/// An optional field from its text: trimmed, and nothing when blank.
pub open spec fn optional_of(s: Seq<char>) -> Option<Seq<char>> {
    if trim(s).len() == 0 {
        None
    } else {
        Some(trim(s))
    }
}

pub open spec fn opt_view(o: Option<String>) -> Option<Seq<char>> {
    match o {
        Some(s) => Some(s@),
        None => None,
    }
}

/// An optional field from its text (see [`optional_of`]).
pub fn optional_text(s: &str) -> (r: Option<String>)
    ensures
        opt_view(r) == optional_of(s@),
{
    let t = trimmed(s);
    if t.unicode_len() == 0 {
        None
    } else {
        Some(t)
    }
}

/// The items of a comma-separated field: each piece trimmed, blank ones
/// dropped.
pub open spec fn list_items(pieces: Seq<Seq<char>>) -> Seq<Seq<char>>
    decreases pieces.len(),
{
    if pieces.len() == 0 {
        Seq::empty()
    } else {
        let rest = list_items(pieces.drop_last());
        let t = trim(pieces.last());
        if t.len() == 0 {
            rest
        } else {
            rest.push(t)
        }
    }
}

/// The items of a comma-separated field (tags, team members).
pub fn split_list(s: &str) -> (r: Vec<String>)
    ensures
        views_of(r@) == list_items(split_text(s@, seq![','])),
{
    let mut seps: Vec<char> = Vec::new();
    seps.push(',');
    assert(seps@ =~= seq![',']);
    let pieces = split_text_exec(s, &seps);
    let ghost all = split_text(s@, seq![',']);
    let mut r: Vec<String> = Vec::new();
    let mut i: usize = 0;
    assert(all.subrange(0, 0) =~= Seq::<Seq<char>>::empty());
    assert(views_of(r@) =~= Seq::<Seq<char>>::empty());
    while i < pieces.len()
        invariant
            views_of(pieces@) == all,
            i <= pieces@.len(),
            views_of(r@) == list_items(all.subrange(0, i as int)),
        decreases pieces@.len() - i,
    {
        let ghost next = all.subrange(0, i as int + 1);
        assert(next.drop_last() =~= all.subrange(0, i as int));
        assert(next.last() == pieces@[i as int]@);
        let t = trimmed(pieces[i].as_str());
        if t.unicode_len() > 0 {
            let ghost before = r@;
            r.push(t);
            assert(views_of(r@) =~= views_of(before).push(trim(pieces@[i as int]@)));
        }
        i = i + 1;
    }
    assert(all.subrange(0, pieces@.len() as int) =~= all);
    r
}

/// Items joined with `", "`.
pub open spec fn joined(items: Seq<Seq<char>>) -> Seq<char>
    decreases items.len(),
{
    if items.len() == 0 {
        Seq::empty()
    } else if items.len() == 1 {
        items[0]
    } else {
        joined(items.drop_last()) + ", "@ + items.last()
    }
}

/// The text a list field starts with: its items joined with `", "`.
pub fn join_list(items: &Vec<String>) -> (r: String)
    ensures
        r@ == joined(views_of(items@)),
{
    let mut s = String::new();
    let mut i: usize = 0;
    assert(views_of(items@).subrange(0, 0) =~= Seq::<Seq<char>>::empty());
    while i < items.len()
        invariant
            i <= items@.len(),
            s@ == joined(views_of(items@).subrange(0, i as int)),
        decreases items@.len() - i,
    {
        let ghost prev = views_of(items@).subrange(0, i as int);
        let ghost next = views_of(items@).subrange(0, i as int + 1);
        assert(next.drop_last() =~= prev);
        assert(next.last() == items@[i as int]@);
        if i > 0 {
            push_text(&mut s, ", ");
        } else {
            assert(next =~= seq![items@[0]@]);
        }
        push_text(&mut s, items[i].as_str());
        i = i + 1;
    }
    assert(views_of(items@).subrange(0, items@.len() as int) =~= views_of(items@));
    s
}

// ── Projects ─────────────────────────────────────────────────────────────────
/// The businesses offered by the new-project form, the first one preselected.
pub open spec fn business_names() -> Seq<Seq<char>> {
    seq!["AgileTeam Corp"@, "NovaSoft"@, "TechCorp"@]
}

/// The businesses offered by the new-project form.
pub fn businesses() -> (r: Vec<&'static str>)
    ensures
        r@.len() == 3,
        forall|i: int| 0 <= i < 3 ==> (#[trigger] r@[i])@ == business_names()[i],
{
    let mut r: Vec<&'static str> = Vec::new();
    r.push("AgileTeam Corp");
    r.push("NovaSoft");
    r.push("TechCorp");
    r
}

/// The fields of the project forms, as typed.
pub struct ProjectForm {
    pub name: String,
    pub description: String,
    pub business: String,
    pub start_date: String,
    pub end_date: String,
    pub status: ProjectStatus,
    pub priority: Priority,
    pub color: String,
    /// Team members, comma-separated.
    pub team: String,
}

impl ProjectForm {
    /// The new-project form as it opens: the first business, planning,
    /// medium priority, grey, everything else empty.
    pub fn blank() -> (r: ProjectForm)
        ensures
            r.name@.len() == 0 && r.description@.len() == 0 && r.start_date@.len() == 0
                && r.end_date@.len() == 0 && r.team@.len() == 0,
            r.business@ == business_names()[0],
            r.status == ProjectStatus::Planning,
            r.priority == Priority::Medium,
            r.color@ == "#6c757d"@,
    {
        ProjectForm {
            name: String::new(),
            description: String::new(),
            business: "AgileTeam Corp".to_string(),
            start_date: String::new(),
            end_date: String::new(),
            status: ProjectStatus::Planning,
            priority: Priority::Medium,
            color: "#6c757d".to_string(),
            team: String::new(),
        }
    }

    /// The edit form as it opens on `p`: its fields, missing ones empty, the
    /// team joined with `", "` (the edit form has no business field).
    pub fn of_project(p: &Project) -> (r: ProjectForm)
        ensures
            r.name@ == p.name@,
            r.description@ == crate::listing::text_or_empty(p.description),
            r.business@.len() == 0,
            r.start_date@ == crate::listing::text_or_empty(p.start_date),
            r.end_date@ == crate::listing::text_or_empty(p.end_date),
            r.status == p.status,
            r.priority == p.priority,
            r.color@ == p.color@,
            r.team@ == joined(views_of(p.team@)),
    {
        ProjectForm {
            name: p.name.clone(),
            description: text_or_empty(&p.description),
            business: String::new(),
            start_date: text_or_empty(&p.start_date),
            end_date: text_or_empty(&p.end_date),
            status: p.status,
            priority: p.priority,
            color: p.color.clone(),
            team: join_list(&p.team),
        }
    }
}

fn text_or_empty(o: &Option<String>) -> (r: String)
    ensures
        r@ == crate::listing::text_or_empty(*o),
{
    match o {
        Some(s) => s.clone(),
        None => String::new(),
    }
}

/// The new project of a submitted form, with the provisional id `id`: its
/// name trimmed, optional fields from their text, the chosen business, the
/// team split at commas, no creation time and no tasks. Nothing when the
/// name is blank (the form stays open).
pub fn new_project(form: &ProjectForm, id: String) -> (r: Option<Project>)
    ensures
        r is None <==> trim(form.name@).len() == 0,
        r matches Some(p) ==> {
            &&& p.id == id
            &&& p.name@ == trim(form.name@)
            &&& opt_view(p.description) == optional_of(form.description@)
            &&& opt_view(p.business) == Some(form.business@)
            &&& opt_view(p.start_date) == optional_of(form.start_date@)
            &&& opt_view(p.end_date) == optional_of(form.end_date@)
            &&& p.status == form.status
            &&& p.priority == form.priority
            &&& views_of(p.team@) == list_items(split_text(form.team@, seq![',']))
            &&& p.color@ == form.color@
            &&& p.created_at is None
            &&& p.tasks@.len() == 0
        },
{
    let name = trimmed(form.name.as_str());
    if name.unicode_len() == 0 {
        return None;
    }
    Some(
        Project {
            id,
            name,
            description: optional_text(form.description.as_str()),
            business: Some(form.business.clone()),
            start_date: optional_text(form.start_date.as_str()),
            end_date: optional_text(form.end_date.as_str()),
            status: form.status,
            priority: form.priority,
            team: split_list(form.team.as_str()),
            color: form.color.clone(),
            created_at: None,
            tasks: Vec::new(),
        },
    )
}

/// A project after the edit form is saved: name, description, dates,
/// status, priority, color and team from the form; id, business, creation
/// time and tasks as they were. Nothing when the name is blank.
pub fn edited_project(project: Project, form: &ProjectForm) -> (r: Option<Project>)
    ensures
        r is None <==> trim(form.name@).len() == 0,
        r matches Some(p) ==> {
            &&& p.id == project.id
            &&& p.name@ == trim(form.name@)
            &&& opt_view(p.description) == optional_of(form.description@)
            &&& p.business == project.business
            &&& opt_view(p.start_date) == optional_of(form.start_date@)
            &&& opt_view(p.end_date) == optional_of(form.end_date@)
            &&& p.status == form.status
            &&& p.priority == form.priority
            &&& p.color@ == form.color@
            &&& views_of(p.team@) == list_items(split_text(form.team@, seq![',']))
            &&& p.created_at == project.created_at
            &&& p.tasks == project.tasks
        },
{
    let name = trimmed(form.name.as_str());
    if name.unicode_len() == 0 {
        return None;
    }
    Some(
        Project {
            name,
            description: optional_text(form.description.as_str()),
            start_date: optional_text(form.start_date.as_str()),
            end_date: optional_text(form.end_date.as_str()),
            status: form.status,
            priority: form.priority,
            color: form.color.clone(),
            team: split_list(form.team.as_str()),
            ..project
        },
    )
}

// ── Tasks ────────────────────────────────────────────────────────────────────
/// The fields of the task forms, as typed. The hours are read by the caller
/// (a binary64 number) and handed over apart.
pub struct TaskForm {
    pub title: String,
    pub description: String,
    pub status: TaskStatus,
    pub priority: Priority,
    pub assignee: String,
    pub start_date: String,
    pub end_date: String,
    /// Tags, comma-separated.
    pub tags: String,
}

impl TaskForm {
    /// The new-task form as it opens: to do, medium priority, everything else
    /// empty.
    pub fn blank() -> (r: TaskForm)
        ensures
            r.title@.len() == 0 && r.description@.len() == 0 && r.assignee@.len() == 0
                && r.start_date@.len() == 0 && r.end_date@.len() == 0 && r.tags@.len() == 0,
            r.status == TaskStatus::Todo,
            r.priority == Priority::Medium,
    {
        TaskForm {
            title: String::new(),
            description: String::new(),
            status: TaskStatus::Todo,
            priority: Priority::Medium,
            assignee: String::new(),
            start_date: String::new(),
            end_date: String::new(),
            tags: String::new(),
        }
    }

    /// A form as it opens on `t`: its fields, missing ones empty, the tags
    /// joined with `", "`.
    pub fn of_task(t: &Task) -> (r: TaskForm)
        ensures
            r.title@ == t.title@,
            r.description@ == crate::listing::text_or_empty(t.description),
            r.status == t.status,
            r.priority == t.priority,
            r.assignee@ == crate::listing::text_or_empty(t.assignee),
            r.start_date@ == crate::listing::text_or_empty(t.start_date),
            r.end_date@ == crate::listing::text_or_empty(t.end_date),
            r.tags@ == joined(views_of(t.tags@)),
    {
        TaskForm {
            title: t.title.clone(),
            description: text_or_empty(&t.description),
            status: t.status,
            priority: t.priority,
            assignee: text_or_empty(&t.assignee),
            start_date: text_or_empty(&t.start_date),
            end_date: text_or_empty(&t.end_date),
            tags: join_list(&t.tags),
        }
    }
}

/// The new task of a submitted form, with the provisional id `id` and the
/// hours the caller read: title trimmed, optional fields from their text,
/// tags split at commas. Nothing when the title is blank.
pub fn new_task(form: &TaskForm, id: String, hours: Option<u64>) -> (r: Option<Task>)
    ensures
        r is None <==> trim(form.title@).len() == 0,
        r matches Some(t) ==> {
            &&& t.id == id
            &&& t.title@ == trim(form.title@)
            &&& opt_view(t.description) == optional_of(form.description@)
            &&& t.status == form.status
            &&& opt_view(t.assignee) == optional_of(form.assignee@)
            &&& t.priority == form.priority
            &&& opt_view(t.start_date) == optional_of(form.start_date@)
            &&& opt_view(t.end_date) == optional_of(form.end_date@)
            &&& t.estimated_hours == hours
            &&& views_of(t.tags@) == list_items(split_text(form.tags@, seq![',']))
        },
{
    let title = trimmed(form.title.as_str());
    if title.unicode_len() == 0 {
        return None;
    }
    Some(
        Task {
            id,
            title,
            description: optional_text(form.description.as_str()),
            status: form.status,
            assignee: optional_text(form.assignee.as_str()),
            priority: form.priority,
            start_date: optional_text(form.start_date.as_str()),
            end_date: optional_text(form.end_date.as_str()),
            estimated_hours: hours,
            tags: split_list(form.tags.as_str()),
        },
    )
}

/// A task after the task page's edit is saved: every field from the form
/// (the hours as the caller read them), the id as it was. Nothing when the
/// title is blank.
pub fn edited_task(task: Task, form: &TaskForm, hours: Option<u64>) -> (r: Option<Task>)
    ensures
        r is None <==> trim(form.title@).len() == 0,
        r matches Some(t) ==> {
            &&& t.id == task.id
            &&& t.title@ == trim(form.title@)
            &&& opt_view(t.description) == optional_of(form.description@)
            &&& t.status == form.status
            &&& t.priority == form.priority
            &&& opt_view(t.assignee) == optional_of(form.assignee@)
            &&& t.estimated_hours == hours
            &&& opt_view(t.start_date) == optional_of(form.start_date@)
            &&& opt_view(t.end_date) == optional_of(form.end_date@)
            &&& views_of(t.tags@) == list_items(split_text(form.tags@, seq![',']))
        },
{
    let title = trimmed(form.title.as_str());
    if title.unicode_len() == 0 {
        return None;
    }
    Some(
        Task {
            title,
            description: optional_text(form.description.as_str()),
            status: form.status,
            priority: form.priority,
            assignee: optional_text(form.assignee.as_str()),
            estimated_hours: hours,
            start_date: optional_text(form.start_date.as_str()),
            end_date: optional_text(form.end_date.as_str()),
            tags: split_list(form.tags.as_str()),
            ..task
        },
    )
}

// ── Saving an unchanged form ────────────────────────────────────────────────
/// Text as a form field gives it back: not empty, and without white space
/// at either end.
pub open spec fn is_field_text(s: Seq<char>) -> bool {
    s.len() > 0 && !crate::text::is_white_space(s[0]) && !crate::text::is_white_space(s.last())
}

/// An optional field that a form gives back as it was.
pub open spec fn is_field_option(o: Option<String>) -> bool {
    match o {
        Some(s) => is_field_text(s@),
        None => true,
    }
}

/// A tag that a comma-separated field gives back: field text without a comma.
pub open spec fn is_field_tag(s: Seq<char>) -> bool {
    is_field_text(s) && forall|i: int| 0 <= i < s.len() ==> #[trigger] s[i] != ','
}

/// A task whose fields the edit form gives back unchanged.
pub open spec fn task_fits_form(t: Task) -> bool {
    &&& is_field_text(t.title@)
    &&& is_field_option(t.description)
    &&& is_field_option(t.assignee)
    &&& is_field_option(t.start_date)
    &&& is_field_option(t.end_date)
    &&& forall|k: int| 0 <= k < t.tags@.len() ==> is_field_tag(#[trigger] t.tags@[k]@)
}

/// What `TaskForm::of_task` makes of `t`.
pub open spec fn is_form_of(form: TaskForm, t: Task) -> bool {
    &&& form.title@ == t.title@
    &&& form.description@ == crate::listing::text_or_empty(t.description)
    &&& form.status == t.status
    &&& form.priority == t.priority
    &&& form.assignee@ == crate::listing::text_or_empty(t.assignee)
    &&& form.start_date@ == crate::listing::text_or_empty(t.start_date)
    &&& form.end_date@ == crate::listing::text_or_empty(t.end_date)
    &&& form.tags@ == joined(views_of(t.tags@))
}

/// What `edited_task` makes of `task` and `form` when it saves.
pub open spec fn is_edit_of(r: Task, task: Task, form: TaskForm, hours: Option<u64>) -> bool {
    &&& r.id == task.id
    &&& r.title@ == trim(form.title@)
    &&& opt_view(r.description) == optional_of(form.description@)
    &&& r.status == form.status
    &&& r.priority == form.priority
    &&& opt_view(r.assignee) == optional_of(form.assignee@)
    &&& r.estimated_hours == hours
    &&& opt_view(r.start_date) == optional_of(form.start_date@)
    &&& opt_view(r.end_date) == optional_of(form.end_date@)
    &&& views_of(r.tags@) == list_items(split_text(form.tags@, seq![',']))
}

proof fn lemma_trim_field(s: Seq<char>)
    requires
        is_field_text(s),
    ensures
        trim(s) == s,
{
}

proof fn lemma_optional_of_field(o: Option<String>)
    requires
        is_field_option(o),
    ensures
        optional_of(crate::listing::text_or_empty(o)) == opt_view(o),
{
    match o {
        Some(x) => lemma_trim_field(x@),
        None => {
            assert(trim(Seq::<char>::empty()) == Seq::<char>::empty());
        },
    }
}

/// A tag after `", "` is a piece of its own.
proof fn lemma_split_comma_tag(tag: Seq<char>)
    requires
        is_field_tag(tag),
    ensures
        split_text(", "@ + tag, seq![',']) == seq![Seq::<char>::empty(), seq![' '] + tag],
{
    let seps = seq![','];
    let rest = seq![' '] + tag;
    assert forall|i: int| 0 <= i < rest.len() implies !seps.contains(#[trigger] rest[i]) by {
        if i > 0 {
            assert(rest[i] == tag[i - 1]);
        }
        if seps.contains(rest[i]) {
            assert(seps[0] == rest[i]);
        }
    }
    crate::text::lemma_split_text_whole(rest, seps);
    let comma = seq![','];
    assert(comma.drop_last() =~= Seq::<char>::empty());
    assert(split_text(comma.drop_last(), seps) == seq![Seq::<char>::empty()]);
    assert(comma.last() == ',');
    assert(seps[0] == ',');
    assert(seps.contains(comma.last()));
    assert(split_text(comma, seps) =~= seq![Seq::<char>::empty(), Seq::<char>::empty()]);
    crate::text::lemma_split_text_concat(comma, rest, seps);
    assert(", "@ =~= comma + seq![' ']) by {
        reveal_strlit(", ");
    }
    assert(", "@ + tag =~= comma + rest);
    assert(split_text(comma + rest, seps) =~= seq![Seq::<char>::empty(), rest]);
}

/// Tags joined with `", "` and split again are the tags.
proof fn lemma_tags_round_trip(tags: Seq<Seq<char>>)
    requires
        forall|k: int| 0 <= k < tags.len() ==> is_field_tag(#[trigger] tags[k]),
    ensures
        list_items(split_text(joined(tags), seq![','])) == tags,
    decreases tags.len(),
{
    let seps = seq![','];
    if tags.len() == 0 {
        assert(split_text(Seq::<char>::empty(), seps) == seq![Seq::<char>::empty()]);
        let one = seq![Seq::<char>::empty()];
        assert(one.drop_last() =~= Seq::<Seq<char>>::empty());
        assert(list_items(one.drop_last()) == Seq::<Seq<char>>::empty());
        assert(trim(Seq::<char>::empty()) == Seq::<char>::empty());
        assert(trim(one.last()).len() == 0);
        assert(list_items(one) =~= tags);
    } else if tags.len() == 1 {
        let t = tags[0];
        assert(is_field_tag(t));
        assert forall|i: int| 0 <= i < t.len() implies !seps.contains(#[trigger] t[i]) by {
            if seps.contains(t[i]) {
                assert(seps[0] == t[i]);
            }
        }
        crate::text::lemma_split_text_whole(t, seps);
        lemma_trim_field(t);
        let one = seq![t];
        assert(one.drop_last() =~= Seq::<Seq<char>>::empty());
        assert(list_items(one.drop_last()) == Seq::<Seq<char>>::empty());
        assert(trim(one.last()) == t);
        assert(list_items(one) =~= seq![t]);
        assert(seq![t] =~= tags);
    } else {
        let init = tags.drop_last();
        let last = tags.last();
        assert(is_field_tag(last));
        assert forall|k: int| 0 <= k < init.len() implies is_field_tag(#[trigger] init[k]) by {
            assert(init[k] == tags[k]);
        }
        lemma_tags_round_trip(init);
        let j = joined(init);
        let sj = split_text(j, seps);
        lemma_split_comma_tag(last);
        crate::text::lemma_split_text_concat(j, ", "@ + last, seps);
        crate::text::lemma_split_text_nonempty(j, seps);
        assert(joined(tags) == j + ", "@ + last);
        assert(j + ", "@ + last =~= j + (", "@ + last));
        let piece = seq![' '] + last;
        assert(sj.last() + Seq::<char>::empty() =~= sj.last());
        assert(sj.drop_last() + seq![sj.last()] =~= sj);
        assert(split_text(joined(tags), seps) =~= sj.push(piece));
        // The piece after the comma trims to the tag.
        assert(piece.drop_first() =~= last);
        assert(crate::text::is_white_space(piece[0]));
        assert(crate::text::trim_start(piece) == crate::text::trim_start(last));
        lemma_trim_field(last);
        assert(trim(piece) == last);
        assert(sj.push(piece).drop_last() =~= sj);
        assert(list_items(sj.push(piece)) == list_items(sj).push(last));
        assert(init.push(last) =~= tags);
    }
}

/// Saving the edit form of a task without touching it gives the task back
/// (the same text in every field), provided its fields are ones a form
/// gives back: trimmed, non-empty text, and tags without commas.
pub proof fn law_unchanged_form_gives_the_task_back(t: Task, form: TaskForm, r: Task)
    requires
        task_fits_form(t),
        is_form_of(form, t),
        is_edit_of(r, t, form, t.estimated_hours),
    ensures
        trim(form.title@).len() > 0,
        r.id == t.id,
        r.title@ == t.title@,
        opt_view(r.description) == opt_view(t.description),
        r.status == t.status,
        r.priority == t.priority,
        opt_view(r.assignee) == opt_view(t.assignee),
        r.estimated_hours == t.estimated_hours,
        opt_view(r.start_date) == opt_view(t.start_date),
        opt_view(r.end_date) == opt_view(t.end_date),
        views_of(r.tags@) == views_of(t.tags@),
{
    lemma_trim_field(t.title@);
    lemma_optional_of_field(t.description);
    lemma_optional_of_field(t.assignee);
    lemma_optional_of_field(t.start_date);
    lemma_optional_of_field(t.end_date);
    assert forall|k: int| 0 <= k < views_of(t.tags@).len() implies is_field_tag(
        #[trigger] views_of(t.tags@)[k],
    ) by {
        assert(views_of(t.tags@)[k] == t.tags@[k]@);
    }
    lemma_tags_round_trip(views_of(t.tags@));
}

/// A task after the board's quick edit is saved: title, description,
/// priority, assignee and end date from the form, the rest as it was.
/// Nothing when the title is blank.
pub fn quick_edited_task(task: Task, form: &TaskForm) -> (r: Option<Task>)
    ensures
        r is None <==> trim(form.title@).len() == 0,
        r matches Some(t) ==> {
            &&& t.id == task.id
            &&& t.title@ == trim(form.title@)
            &&& opt_view(t.description) == optional_of(form.description@)
            &&& t.status == task.status
            &&& t.priority == form.priority
            &&& opt_view(t.assignee) == optional_of(form.assignee@)
            &&& t.start_date == task.start_date
            &&& opt_view(t.end_date) == optional_of(form.end_date@)
            &&& t.estimated_hours == task.estimated_hours
            &&& t.tags == task.tags
        },
{
    let title = trimmed(form.title.as_str());
    if title.unicode_len() == 0 {
        return None;
    }
    Some(
        Task {
            title,
            description: optional_text(form.description.as_str()),
            priority: form.priority,
            assignee: optional_text(form.assignee.as_str()),
            end_date: optional_text(form.end_date.as_str()),
            ..task
        },
    )
}

/// A title edited in place, when the edit is committed: the trimmed text,
/// or nothing (no change) when it is blank.
pub fn renamed(text: &str) -> (r: Option<String>)
    ensures
        opt_view(r) == optional_of(text@),
{
    optional_text(text)
}

/// A key pressed while a title is edited in place.
#[derive(Clone, Copy, PartialEq, Eq, Debug, Structural)]
pub enum EditKey {
    Enter,
    Escape,
    Other,
}

/// What a key does to an in-place edit.
#[derive(Clone, Copy, PartialEq, Eq, Debug, Structural)]
pub enum EditOutcome {
    /// Save the text (if not blank) and stop editing.
    Commit,
    /// Stop editing without saving.
    Cancel,
    /// Keep editing.
    Continue,
}

/// Enter commits the edit, Escape drops it, any other key goes on.
pub fn edit_key_outcome(key: EditKey) -> (r: EditOutcome)
    ensures
        r == match key {
            EditKey::Enter => EditOutcome::Commit,
            EditKey::Escape => EditOutcome::Cancel,
            EditKey::Other => EditOutcome::Continue,
        },
{
    match key {
        EditKey::Enter => EditOutcome::Commit,
        EditKey::Escape => EditOutcome::Cancel,
        EditKey::Other => EditOutcome::Continue,
    }
}

// ── Assigning oneself ────────────────────────────────────────────────────────
/// The quick assignment a view offers.
#[derive(Clone, Copy, PartialEq, Eq, Debug, Structural)]
pub enum AssignOffer {
    /// No button.
    Nothing,
    /// "Asignarme": assign the task to the signed-in user.
    AssignMe,
    /// "Desasignarme": leave the task unassigned.
    UnassignMe,
}

/// The task page's offer: none without a signed-in name; "unassign me" when
/// the task is assigned to that name; else "assign me".
pub open spec fn detail_offer(user_name: Seq<char>, assignee: Option<Seq<char>>) -> AssignOffer {
    if user_name.len() == 0 {
        AssignOffer::Nothing
    } else if assignee == Some(user_name) {
        AssignOffer::UnassignMe
    } else {
        AssignOffer::AssignMe
    }
}

/// What the task page offers the signed-in user (`user_name`, empty when
/// nobody is).
pub fn detail_assign_offer(user_name: &str, assignee: &Option<String>) -> (r: AssignOffer)
    ensures
        r == detail_offer(user_name@, opt_view(*assignee)),
{
    if user_name.unicode_len() == 0 {
        return AssignOffer::Nothing;
    }
    match assignee {
        Some(a) => if same_text(a.as_str(), user_name) {
            AssignOffer::UnassignMe
        } else {
            AssignOffer::AssignMe
        },
        None => AssignOffer::AssignMe,
    }
}

/// A row of the task table offers, while hovered and with someone signed
/// in: "assign me" on an unassigned task, "unassign me" on a task assigned
/// to that name, and nothing on a task assigned to someone else.
pub open spec fn row_offer(hovered: bool, user_name: Seq<char>, assignee: Option<Seq<char>>) -> AssignOffer {
    if !hovered || user_name.len() == 0 {
        AssignOffer::Nothing
    } else {
        match assignee {
            None => AssignOffer::AssignMe,
            Some(a) => if a == user_name {
                AssignOffer::UnassignMe
            } else {
                AssignOffer::Nothing
            },
        }
    }
}

/// What a row of the task table offers (see [`row_offer`]).
pub fn row_assign_offer(hovered: bool, user_name: &str, assignee: &Option<String>) -> (r: AssignOffer)
    ensures
        r == row_offer(hovered, user_name@, opt_view(*assignee)),
{
    if !hovered || user_name.unicode_len() == 0 {
        return AssignOffer::Nothing;
    }
    match assignee {
        None => AssignOffer::AssignMe,
        Some(a) => if same_text(a.as_str(), user_name) {
            AssignOffer::UnassignMe
        } else {
            AssignOffer::Nothing
        },
    }
}

/// The task after taking an offer: assigned to `user_name`, or unassigned;
/// an offer of nothing leaves it as it is.
pub fn take_offer(task: Task, offer: AssignOffer, user_name: &str) -> (r: Task)
    ensures
        match offer {
            AssignOffer::Nothing => r == task,
            AssignOffer::AssignMe => r == Task { assignee: r.assignee, ..task } && r.assignee is Some
                && r.assignee->0@ == user_name@,
            AssignOffer::UnassignMe => r == Task { assignee: None, ..task },
        },
{
    match offer {
        AssignOffer::Nothing => task,
        AssignOffer::AssignMe => Task { assignee: Some(user_name.to_string()), ..task },
        AssignOffer::UnassignMe => Task { assignee: None, ..task },
    }
}

/// Whether the assignee field offers "use my name": someone is signed in and
/// the field does not hold that name yet.
pub fn offers_own_name(user_name: &str, assignee_text: &str) -> (r: bool)
    ensures
        r == (user_name@.len() > 0 && assignee_text@ != user_name@),
{
    user_name.unicode_len() > 0 && !same_text(assignee_text, user_name)
}

/// Taking the task page's offer twice comes back to where it started: "assign
/// me" then "unassign me" leaves the task unassigned, and "unassign me" then
/// "assign me" leaves it assigned to the user again.
pub proof fn law_offer_flips(user_name: Seq<char>, assignee: Option<Seq<char>>)
    requires
        user_name.len() > 0,
    ensures
        detail_offer(user_name, assignee) == AssignOffer::AssignMe ==> detail_offer(
            user_name,
            Some(user_name),
        ) == AssignOffer::UnassignMe,
        detail_offer(user_name, assignee) == AssignOffer::UnassignMe ==> detail_offer(
            user_name,
            None,
        ) == AssignOffer::AssignMe,
{
}

} // verus!
