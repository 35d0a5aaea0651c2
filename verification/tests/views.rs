use featherai::board::{
    board_step, find_task, kanban_columns, with_status, BoardAction, BoardEvent, BoardState,
};
use featherai::forms::{
    businesses, detail_assign_offer, edit_key_outcome, edited_project, edited_task, join_list,
    new_project, new_task, offers_own_name, optional_text, quick_edited_task, renamed,
    row_assign_offer, split_list, take_offer, AssignOffer, EditKey, EditOutcome, ProjectForm,
    TaskForm,
};
use featherai::gantt::{
    bar_color, bar_spec, bar_tooltip, day_header, gantt_layout, gantt_rows, row_background,
};
use featherai::listing::{
    empty_tasks_message, grid_counts, grid_rows, plural_suffix, sort_icon, task_counts,
    task_rows, task_sort_icon, team_label, toggle_sort, toggle_task_sort, SortField, TaskSort,
};
use featherai::models::{Priority, Project, ProjectStatus, Task, TaskStatus};
use featherai::workspace::{next_id, ProjectState, ViewMode};

fn task(id: &str, title: &str, status: TaskStatus, priority: Priority) -> Task {
    Task {
        id: id.to_string(),
        title: title.to_string(),
        description: None,
        status,
        assignee: None,
        priority,
        start_date: None,
        end_date: None,
        estimated_hours: None,
        tags: Vec::new(),
    }
}

fn dated(id: &str, start: Option<&str>, end: Option<&str>, status: TaskStatus) -> Task {
    let mut t = task(id, id, status, Priority::High);
    t.start_date = start.map(|s| s.to_string());
    t.end_date = end.map(|s| s.to_string());
    t
}

fn project(id: &str, name: &str, status: ProjectStatus, desc: Option<&str>) -> Project {
    Project {
        id: id.to_string(),
        name: name.to_string(),
        description: desc.map(|s| s.to_string()),
        business: None,
        start_date: None,
        end_date: None,
        status,
        priority: Priority::Medium,
        team: Vec::new(),
        color: "#6c757d".to_string(),
        created_at: None,
        tasks: Vec::new(),
    }
}

// ── Grid ──────────────────────────────────────────────────────────────────────
fn grid() -> Vec<Project> {
    let mut a = project("a", "Zeta", ProjectStatus::Active, Some("Migración de datos"));
    a.priority = Priority::High;
    a.start_date = Some("2026-03-01".to_string());
    let mut b = project("b", "alfa", ProjectStatus::Planning, None);
    b.priority = Priority::Low;
    let mut c = project("c", "Beta", ProjectStatus::Active, Some("Portal web"));
    c.start_date = Some("2025-11-15".to_string());
    vec![a, b, c]
}

#[test]
fn grid_counts_by_status() {
    let c = grid_counts(&grid());
    assert_eq!((c.total, c.active, c.planning, c.paused, c.completed), (3, 2, 1, 0, 0));
}

#[test]
fn grid_sorts_by_column_text() {
    let ps = grid();
    // "Beta" < "Zeta" < "alfa" by code point.
    assert_eq!(grid_rows(&ps, "", SortField::Name, true), vec![2, 0, 1]);
    assert_eq!(grid_rows(&ps, "", SortField::Name, false), vec![1, 0, 2]);
    assert_eq!(grid_rows(&ps, "", SortField::Priority, true), vec![1, 2, 0]);
    // Missing dates sort first; equal keys keep the list order.
    assert_eq!(grid_rows(&ps, "", SortField::StartDate, true), vec![1, 2, 0]);
    assert_eq!(grid_rows(&ps, "", SortField::Status, true), vec![0, 2, 1]);
    assert_eq!(grid_rows(&ps, "", SortField::Status, false), vec![1, 0, 2]);
}

#[test]
fn grid_search_ignores_case_and_looks_at_descriptions() {
    let ps = grid();
    assert_eq!(grid_rows(&ps, "ALF", SortField::Name, true), vec![1]);
    assert_eq!(grid_rows(&ps, "migración", SortField::Name, true), vec![0]);
    assert_eq!(grid_rows(&ps, "ta", SortField::Name, true), vec![2, 0]);
    assert!(grid_rows(&ps, "nada", SortField::Name, true).is_empty());
}

#[test]
fn sort_header_clicks() {
    assert_eq!(toggle_sort(SortField::Name, true, SortField::Name), (SortField::Name, false));
    assert_eq!(toggle_sort(SortField::Name, false, SortField::Status), (SortField::Status, true));
    assert_eq!(toggle_task_sort(TaskSort::Title, false, TaskSort::Title), (TaskSort::Title, true));
    assert_eq!(sort_icon(SortField::Name, SortField::Status, true), "bi bi-chevron-expand text-[var(--text-secondary)] ms-1");
    assert_eq!(sort_icon(SortField::Name, SortField::Name, true), "bi bi-chevron-up ms-1");
    assert_eq!(task_sort_icon(TaskSort::Title, TaskSort::Title, false), "bi bi-chevron-down ms-1");
}

#[test]
fn plural_and_team_labels() {
    assert_eq!(plural_suffix(1), "");
    assert_eq!(plural_suffix(0), "s");
    assert_eq!(team_label(0), "Sin equipo");
    assert_eq!(team_label(1), "1 miembro");
    assert_eq!(team_label(3), "3 miembros");
}

// ── Task table ───────────────────────────────────────────────────────────────
fn tasks() -> Vec<Task> {
    vec![
        task("t1", "Diseño", TaskStatus::Done, Priority::Low),
        task("t2", "API", TaskStatus::Todo, Priority::High),
        task("t3", "Base", TaskStatus::InProgress, Priority::Medium),
        task("t4", "Deploy", TaskStatus::Todo, Priority::Medium),
    ]
}

#[test]
fn task_table_filters_and_sorts() {
    let ts = tasks();
    assert_eq!(task_rows(&ts, None, TaskSort::Title, true), vec![1, 2, 3, 0]);
    assert_eq!(task_rows(&ts, Some(TaskStatus::Todo), TaskSort::Title, false), vec![3, 1]);
    assert_eq!(task_rows(&ts, None, TaskSort::Priority, false), vec![1, 2, 3, 0]);
    assert_eq!(task_rows(&ts, None, TaskSort::Status, true), vec![0, 2, 1, 3]);
    assert!(task_rows(&ts, Some(TaskStatus::Done), TaskSort::EndDate, true) == vec![0]);
    let mut p = project("p", "P", ProjectStatus::Active, None);
    p.tasks = tasks();
    let c = task_counts(&p);
    assert_eq!((c.all, c.todo, c.in_progress, c.done), (4, 2, 1, 1));
    assert_eq!(empty_tasks_message(None), "No hay tareas en este proyecto");
    assert_eq!(empty_tasks_message(Some(TaskStatus::Done)), "No hay tareas con este estado");
}

// ── Kanban ───────────────────────────────────────────────────────────────────
#[test]
fn kanban_columns_split_by_status() {
    let cols = kanban_columns(&tasks());
    assert_eq!(cols.len(), 3);
    assert_eq!((cols[0].status, cols[0].title, cols[0].tasks.clone()), (TaskStatus::Todo, "Por hacer", vec![1, 3]));
    assert_eq!((cols[1].status, cols[1].title, cols[1].tasks.clone()), (TaskStatus::InProgress, "En progreso", vec![2]));
    assert_eq!((cols[2].status, cols[2].title, cols[2].tasks.clone()), (TaskStatus::Done, "Completada", vec![0]));
}

#[test]
fn drag_and_drop_moves_the_dragged_card() {
    let s = BoardState::new();
    let (s, a) = board_step(s, BoardEvent::ToggleMenu("t1".to_string()));
    assert!(matches!(a, BoardAction::Nothing));
    assert_eq!(s.open_menu.as_deref(), Some("t1"));
    let (s, _) = board_step(s, BoardEvent::DragStart("t2".to_string()));
    assert_eq!(s.dragged.as_deref(), Some("t2"));
    assert_eq!(s.open_menu, None, "dragging closes the menu");
    let (s, _) = board_step(s, BoardEvent::DragOver(TaskStatus::Done));
    assert_eq!(s.drag_over, Some(TaskStatus::Done));
    let (s, _) = board_step(s, BoardEvent::DragLeave(TaskStatus::Todo));
    assert_eq!(s.drag_over, Some(TaskStatus::Done), "leaving another column keeps the highlight");
    let (s, a) = board_step(s, BoardEvent::Drop(TaskStatus::Done));
    assert!(matches!(a, BoardAction::MoveTask(ref id, TaskStatus::Done) if id == "t2"));
    assert_eq!((s.dragged.clone(), s.drag_over), (None, None));
    let (s, a) = board_step(s, BoardEvent::Drop(TaskStatus::Todo));
    assert!(matches!(a, BoardAction::Nothing), "nothing dragged, nothing moves");
    let (s, _) = board_step(s, BoardEvent::ToggleMenu("t3".to_string()));
    let (s, _) = board_step(s, BoardEvent::ToggleMenu("t3".to_string()));
    assert_eq!(s.open_menu, None, "a second click closes the menu");
    let (_, a) = board_step(s, BoardEvent::Delete("t3".to_string()));
    assert!(matches!(a, BoardAction::ConfirmDelete(ref id) if id == "t3"));
}

#[test]
fn moving_a_task_changes_only_its_status() {
    let ts = tasks();
    assert_eq!(find_task(&ts, "t3"), Some(2));
    assert_eq!(find_task(&ts, "t9"), None);
    let moved = with_status(task("t2", "API", TaskStatus::Todo, Priority::High), TaskStatus::Done);
    assert_eq!((moved.id.as_str(), moved.title.as_str(), moved.status), ("t2", "API", TaskStatus::Done));
}

// ── Gantt ────────────────────────────────────────────────────────────────────
#[test]
fn gantt_layout_and_bars() {
    let ts = vec![
        dated("a", Some("2026-01-01"), Some("2026-01-03"), TaskStatus::Done),
        dated("b", None, Some("2026-01-05"), TaskStatus::Todo),
        dated("c", Some("2026-01-02"), Some("2026-01-10"), TaskStatus::InProgress),
        dated("d", Some("2026-01-02"), Some("not a date"), TaskStatus::Todo),
    ];
    let rows = gantt_rows(&ts);
    let got: Vec<(usize, i64, i64)> = rows.iter().map(|r| (r.task, r.start, r.end)).collect();
    assert_eq!(got, vec![(0, 20454, 20456), (2, 20455, 20463)]);
    let layout = gantt_layout(&rows);
    assert_eq!((layout.min_day, layout.max_day, layout.day_width), (20453, 20464, 72));
    assert_eq!(bar_spec(&layout, 20454, 20456), (72, 216));
    assert_eq!(bar_spec(&layout, 20455, 20463), (144, 648));
    assert_eq!(bar_spec(&layout, 20460, 20455), (504, 72), "an end before the start is one day");
    assert_eq!(bar_color(TaskStatus::Done), "#10b981");
    assert_eq!(bar_color(TaskStatus::InProgress), "#00A3F0");
    assert_eq!(row_background(2), "#ffffff");
    assert_eq!(row_background(3), "#f9fafb");
    assert_eq!(bar_tooltip(&ts[0]), "a (Completada) - Alta priority");
}

#[test]
fn gantt_day_width_is_clamped() {
    let one = vec![dated("a", Some("2026-01-01"), Some("2026-01-01"), TaskStatus::Todo)];
    let layout = gantt_layout(&gantt_rows(&one));
    assert_eq!(layout.day_width, 120);
    let long = vec![dated("a", Some("2026-01-01"), Some("2026-12-31"), TaskStatus::Todo)];
    let layout = gantt_layout(&gantt_rows(&long));
    assert_eq!(layout.day_width, 40);
}

#[test]
fn gantt_day_headers() {
    assert_eq!(day_header(20453), ("mié", "31".to_string()));
    assert_eq!(day_header(20454), ("jue", "01".to_string()));
    assert_eq!(day_header(0), ("jue", "01".to_string()));
    assert_eq!(day_header(-1), ("mié", "31".to_string()));
}

// ── Forms ────────────────────────────────────────────────────────────────────
#[test]
fn text_fields() {
    assert_eq!(optional_text("  hola "), Some("hola".to_string()));
    assert_eq!(optional_text("   "), None);
    assert_eq!(split_list(" frontend, ,bug ,  ui"), vec!["frontend", "bug", "ui"]);
    assert!(split_list("").is_empty());
    assert_eq!(join_list(&vec!["a".to_string(), "b".to_string()]), "a, b");
    assert_eq!(join_list(&vec![]), "");
    assert_eq!(renamed("  Nuevo nombre "), Some("Nuevo nombre".to_string()));
    assert_eq!(renamed(" "), None);
    assert_eq!(edit_key_outcome(EditKey::Enter), EditOutcome::Commit);
    assert_eq!(edit_key_outcome(EditKey::Escape), EditOutcome::Cancel);
    assert_eq!(edit_key_outcome(EditKey::Other), EditOutcome::Continue);
}

#[test]
fn new_project_form() {
    let mut form = ProjectForm::blank();
    assert_eq!(form.business, businesses()[0]);
    assert_eq!((form.status, form.priority, form.color.as_str()), (ProjectStatus::Planning, Priority::Medium, "#6c757d"));
    assert!(new_project(&form, "p1".to_string()).is_none(), "the name is required");
    form.name = "  Portal  ".to_string();
    form.team = "Ana, , Luis".to_string();
    form.start_date = "2026-02-01".to_string();
    let p = new_project(&form, "p1".to_string()).unwrap();
    assert_eq!((p.id.as_str(), p.name.as_str()), ("p1", "Portal"));
    assert_eq!(p.business.as_deref(), Some("AgileTeam Corp"));
    assert_eq!(p.team, vec!["Ana".to_string(), "Luis".to_string()]);
    assert_eq!(p.start_date.as_deref(), Some("2026-02-01"));
    assert_eq!(p.description, None);
    assert_eq!(p.created_at, None);
}

#[test]
fn edit_project_form_keeps_identity() {
    let mut p = project("p9", "Viejo", ProjectStatus::Active, Some("desc"));
    p.team = vec!["Ana".to_string(), "Luis".to_string()];
    p.created_at = Some(7);
    let mut form = ProjectForm::of_project(&p);
    assert_eq!(form.team, "Ana, Luis");
    assert_eq!(form.description, "desc");
    form.name = "Nuevo".to_string();
    form.description = "".to_string();
    let e = edited_project(p, &form).unwrap();
    assert_eq!((e.id.as_str(), e.name.as_str(), e.created_at), ("p9", "Nuevo", Some(7)));
    assert_eq!(e.description, None);
    let mut blank = ProjectForm::blank();
    blank.name = " ".to_string();
    assert!(edited_project(project("x", "x", ProjectStatus::Active, None), &blank).is_none());
}

#[test]
fn task_forms() {
    let mut form = TaskForm::blank();
    assert_eq!((form.status, form.priority), (TaskStatus::Todo, Priority::Medium));
    assert!(new_task(&form, "t1".to_string(), None).is_none());
    form.title = " Escribir tests ".to_string();
    form.tags = "qa, ,rust".to_string();
    form.assignee = "  ".to_string();
    let hours = Some(2.5f64.to_bits());
    let t = new_task(&form, "t1".to_string(), hours).unwrap();
    assert_eq!((t.id.as_str(), t.title.as_str()), ("t1", "Escribir tests"));
    assert_eq!(t.tags, vec!["qa".to_string(), "rust".to_string()]);
    assert_eq!(t.assignee, None);
    assert_eq!(t.estimated_hours.map(f64::from_bits), Some(2.5));

    let mut edit = TaskForm::of_task(&t);
    assert_eq!(edit.tags, "qa, rust");
    edit.status = TaskStatus::Done;
    edit.end_date = "2026-05-01".to_string();
    let e = edited_task(t, &edit, None).unwrap();
    assert_eq!((e.id.as_str(), e.status), ("t1", TaskStatus::Done));
    assert_eq!(e.end_date.as_deref(), Some("2026-05-01"));

    let mut quick = TaskForm::of_task(&e);
    quick.title = "Otro".to_string();
    quick.status = TaskStatus::Todo; // the quick edit has no status field
    let q = quick_edited_task(e, &quick).unwrap();
    assert_eq!((q.title.as_str(), q.status), ("Otro", TaskStatus::Done));
}

#[test]
fn assigning_oneself() {
    let ana = Some("Ana".to_string());
    assert_eq!(detail_assign_offer("", &None), AssignOffer::Nothing);
    assert_eq!(detail_assign_offer("Ana", &None), AssignOffer::AssignMe);
    assert_eq!(detail_assign_offer("Ana", &Some("Luis".to_string())), AssignOffer::AssignMe);
    assert_eq!(detail_assign_offer("Ana", &ana), AssignOffer::UnassignMe);
    assert_eq!(row_assign_offer(false, "Ana", &None), AssignOffer::Nothing);
    assert_eq!(row_assign_offer(true, "Ana", &None), AssignOffer::AssignMe);
    assert_eq!(row_assign_offer(true, "Ana", &Some("Luis".to_string())), AssignOffer::Nothing);
    assert_eq!(row_assign_offer(true, "Ana", &ana), AssignOffer::UnassignMe);
    let t = take_offer(task("t", "x", TaskStatus::Todo, Priority::Low), AssignOffer::AssignMe, "Ana");
    assert_eq!(t.assignee.as_deref(), Some("Ana"));
    let t = take_offer(t, AssignOffer::UnassignMe, "Ana");
    assert_eq!(t.assignee, None);
    assert!(offers_own_name("Ana", "Luis"));
    assert!(!offers_own_name("Ana", "Ana"));
    assert!(!offers_own_name("", "Luis"));
}

// ── Workspace ────────────────────────────────────────────────────────────────
#[test]
fn workspace_actions() {
    assert_eq!(next_id("p", 7), "p7");
    assert_eq!(ViewMode::initial(), ViewMode::List);
    let mut st = ProjectState::new(grid());
    st.select_project(Some("c".to_string()));
    assert_eq!(st.selected(), Some(2));
    st.add_task("c", task("t1", "Nueva", TaskStatus::Todo, Priority::Low));
    assert_eq!(st.projects[2].tasks.len(), 1);
    assert!(st.update_task("c", "t1", task("t1", "Renombrada", TaskStatus::Done, Priority::Low)));
    assert_eq!(st.projects[2].tasks[0].title, "Renombrada");
    assert!(!st.update_task("c", "t9", task("t9", "x", TaskStatus::Done, Priority::Low)));
    st.delete_task("c", "t1");
    assert!(st.projects[2].tasks.is_empty());
    assert!(st.update_project("b", project("b", "Alfa 2", ProjectStatus::Paused, None)));
    assert_eq!(st.projects[1].name, "Alfa 2");
    assert!(!st.update_project("zz", project("zz", "x", ProjectStatus::Paused, None)));
    st.add_project(project("d", "Delta", ProjectStatus::Completed, None));
    assert_eq!(st.projects.len(), 4);
    st.delete_project("c");
    let ids: Vec<&str> = st.projects.iter().map(|p| p.id.as_str()).collect();
    assert_eq!(ids, vec!["a", "b", "d"]);
    assert_eq!(st.selected_project_id, None, "deleting the selected project clears the selection");
}

#[test]
fn refresh_clears_a_dangling_selection() {
    let mut st = ProjectState::new(grid());
    st.select_project(Some("a".to_string()));
    st.refresh(grid());
    assert_eq!(st.selected_project_id.as_deref(), Some("a"));
    st.refresh(vec![project("x", "X", ProjectStatus::Active, None)]);
    assert_eq!(st.selected_project_id, None);
    assert_eq!(st.projects.len(), 1);
}

fn detailed_task() -> Task {
    let mut t = task("t7", "Revisar stock", TaskStatus::InProgress, Priority::High);
    t.description = Some("Contar el depósito".to_string());
    t.assignee = Some("Ana".to_string());
    t.start_date = Some("2026-03-01".to_string());
    t.end_date = Some("2026-03-05".to_string());
    t.estimated_hours = Some(4.0f64.to_bits());
    t.tags = vec!["stock".to_string(), "urgente".to_string()];
    t
}

#[test]
fn saving_an_unchanged_task_form_gives_the_task_back() {
    let t = detailed_task();
    let form = TaskForm::of_task(&t);
    let back = edited_task(detailed_task(), &form, t.estimated_hours).unwrap();
    assert_eq!(back.id, t.id);
    assert_eq!(back.title, t.title);
    assert_eq!(back.description, t.description);
    assert_eq!(back.status, t.status);
    assert_eq!(back.assignee, t.assignee);
    assert_eq!(back.priority, t.priority);
    assert_eq!(back.start_date, t.start_date);
    assert_eq!(back.end_date, t.end_date);
    assert_eq!(back.estimated_hours, t.estimated_hours);
    assert_eq!(back.tags, t.tags);
    let mut blank = form;
    blank.title = "   ".to_string();
    assert!(edited_task(t, &blank, None).is_none(), "a blank title saves nothing");
}
