use featherai::auth::{
    admin_user, ensure_admin, hash_password, login_key, login_outcome, verify_password,
};
use featherai::catalog::{
    add_task, add_task_with, create_project, create_project_with, delete_project_plan,
    delete_task_applies, list_projects, needs_stored_project, replace_project, replace_task,
    seed_demo, seed_plan_if_empty, AppError, TaskDoc,
};
use featherai::demo::demo_projects;
use featherai::models::{Priority, Project, ProjectStatus, Task, TaskStatus};

fn sample_project(name: &str) -> Project {
    Project {
        id: "provisional".to_string(),
        name: name.to_string(),
        description: None,
        business: None,
        start_date: None,
        end_date: None,
        status: ProjectStatus::Planning,
        priority: Priority::Medium,
        team: Vec::new(),
        color: "#6c757d".to_string(),
        created_at: None,
        tasks: Vec::new(),
    }
}

fn sample_task(title: &str) -> Task {
    Task {
        id: format!("provisional-{title}"),
        title: title.to_string(),
        description: None,
        status: TaskStatus::Todo,
        assignee: None,
        priority: Priority::Medium,
        start_date: None,
        end_date: None,
        estimated_hours: None,
        tags: Vec::new(),
    }
}

fn doc(project: &str, position: u64, id: &str, title: &str) -> TaskDoc {
    let mut task = sample_task(title);
    task.id = id.to_string();
    TaskDoc { project_id: project.to_string(), position, task }
}

/// The in-memory store after seeding: the demo projects and their tasks.
fn seeded() -> (Vec<(String, Project)>, Vec<TaskDoc>) {
    let mut projects = Vec::new();
    let mut tasks = Vec::new();
    for (p, docs) in seed_demo() {
        projects.push((p.id.clone(), p));
        tasks.extend(docs);
    }
    (projects, tasks)
}

#[test]
fn services_seed_demo_lists_projects_in_order_with_tasks() {
    let (mut projects, tasks) = seeded();
    // The store hands entries back in any order: reverse them.
    projects.reverse();
    let listed = list_projects(projects, tasks);
    assert_eq!(listed.len(), 3, "la siembra demo crea 3 proyectos");
    let ids: Vec<&str> = listed.iter().map(|p| p.id.as_str()).collect();
    assert_eq!(ids, vec!["p1", "p2", "p3"], "orden por created_at = orden demo");
    let p1 = &listed[0];
    let task_ids: Vec<&str> = p1.tasks.iter().map(|t| t.id.as_str()).collect();
    assert_eq!(task_ids, vec!["t1", "t2", "t3", "t4"]);
    assert_eq!(p1.tasks[0].title, "Modelo de datos de productos");
    assert_eq!(listed[2].tasks.len(), 3);
    assert!(listed.iter().all(|p| p.created_at.is_some()), "seed marca created_at");
}

#[test]
fn services_create_project_assigns_uuid_and_appears_last() {
    let created = create_project(sample_project("Nuevo"));
    assert_ne!(created.id, "provisional", "el servicio reemplaza el id provisional");
    assert_eq!(created.id.len(), 36);
    let chars: Vec<char> = created.id.chars().collect();
    assert_eq!(chars[14], '4', "version 4");
    assert!(matches!(chars[19], '8' | '9' | 'a' | 'b'), "RFC variant");
    for (i, c) in chars.iter().enumerate() {
        if [8, 13, 18, 23].contains(&i) {
            assert_eq!(*c, '-');
        } else {
            assert!(c.is_ascii_hexdigit() && !c.is_ascii_uppercase());
        }
    }
    assert!(created.created_at.is_some());
    assert!(created.tasks.is_empty());

    let (mut projects, tasks) = seeded();
    let fixed = create_project_with(sample_project("Nuevo"), "zz".to_string(), 1_700_000_000_000);
    projects.push(("zz".to_string(), fixed));
    let listed = list_projects(projects, tasks);
    assert_eq!(listed.len(), 4);
    assert_eq!(listed.last().unwrap().name, "Nuevo", "los nuevos van al final");
}

#[test]
fn listing_breaks_ties_by_id_and_orders_tasks_by_position() {
    let mut a = sample_project("A");
    a.id = "a".to_string();
    a.created_at = Some(5);
    let mut b = sample_project("B");
    b.id = "b".to_string();
    b.created_at = Some(5);
    let mut c = sample_project("C"); // no mark: counts as 0
    c.id = "c".to_string();
    let projects = vec![("b".to_string(), b), ("a".to_string(), a), ("c".to_string(), c)];
    let tasks = vec![
        doc("a", 2, "x", "second"),
        doc("a", 1, "y", "first"),
        doc("a", 2, "w", "tie by id"),
        doc("zzz", 0, "orphan", "orphan"),
    ];
    let listed = list_projects(projects, tasks);
    let names: Vec<&str> = listed.iter().map(|p| p.name.as_str()).collect();
    assert_eq!(names, vec!["C", "A", "B"]);
    let titles: Vec<&str> = listed[1].tasks.iter().map(|t| t.title.as_str()).collect();
    assert_eq!(titles, vec!["first", "tie by id", "second"]);
    assert!(listed[0].tasks.is_empty());
}

#[test]
fn services_task_positions_and_replace_keeps_position() {
    let docs: Vec<TaskDoc> = Vec::new();
    let a = add_task("p", true, &docs, sample_task("A")).ok().expect("add A");
    assert_eq!(a.position, 1, "la primera tarea va en 1");
    assert_ne!(a.task.id, "provisional-A", "uuid asignado");
    let docs = vec![a];
    let b = add_task_with("p", true, &docs, sample_task("B"), "id-b".to_string()).ok().unwrap();
    assert_eq!(b.position, 2);
    assert_eq!(b.task.id, "id-b");
    assert_ne!(docs[0].task.id, b.task.id, "ids únicos");

    let err = add_task("no-existe", false, &docs, sample_task("X"));
    match err {
        Err(AppError::NotFound(m)) => assert_eq!(m, "proyecto no-existe"),
        _ => panic!("se esperaba NotFound"),
    }

    // replace keeps project and position.
    let stored = doc("p", 1, "id-a", "A");
    let mut edited = sample_task("A2");
    edited.id = "id-a".to_string();
    let replaced = replace_task("p", edited, Some(stored)).ok().expect("replace A");
    assert_eq!(replaced.position, 1);
    assert_eq!(replaced.task.title, "A2");

    let ghost = sample_task("fantasma");
    match replace_task("p", ghost, None) {
        Err(AppError::NotFound(m)) => assert_eq!(m, "tarea provisional-fantasma"),
        _ => panic!("se esperaba NotFound"),
    }
    let mut other = sample_task("o");
    other.id = "t9".to_string();
    match replace_task("p", other, Some(doc("q", 3, "t9", "o"))) {
        Err(AppError::NotFound(m)) => assert_eq!(m, "tarea t9 en proyecto p"),
        _ => panic!("se esperaba NotFound"),
    }
}

#[test]
fn services_delete_task_and_delete_project() {
    // delete_task: only a stored task of that project is removed.
    assert!(delete_task_applies("p", &Some(doc("p", 1, "t1", "x"))));
    assert!(!delete_task_applies("otro-proyecto", &Some(doc("p", 1, "t1", "x"))));
    assert!(!delete_task_applies("p", &None));

    // delete_project: the project and its task documents; a missing one is a no-op.
    let tasks = vec![
        ("t1".to_string(), Some(doc("p", 1, "t1", "a"))),
        ("t2".to_string(), Some(doc("q", 1, "t2", "b"))),
        ("t3".to_string(), Some(doc("p", 2, "t3", "c"))),
        ("t4".to_string(), None),
    ];
    assert_eq!(
        delete_project_plan("p", true, &tasks),
        Some(vec!["t1".to_string(), "t3".to_string()])
    );
    assert_eq!(delete_project_plan("no-existe", false, &tasks), None, "no-op");
}

#[test]
fn replace_project_keeps_the_stored_creation_time() {
    assert!(needs_stored_project(&sample_project("x")));
    let mut stored = sample_project("old");
    stored.created_at = Some(42);
    let mut edited = sample_project("new");
    edited.created_at = None;
    let r = replace_project(edited, Some(stored));
    assert_eq!(r.name, "new");
    assert_eq!(r.created_at, Some(42));
}

#[test]
fn app_error_messages() {
    assert_eq!(AppError::Store("x".into()).message(), "store: x");
    assert_eq!(AppError::Serde("y".into()).message(), "json: y");
    assert_eq!(AppError::NotFound("z".into()).message(), "no encontrado: z");
}

#[test]
fn services_auth_admin_seed_and_login() {
    let seeded = ensure_admin(true).ok().expect("seed").expect("admin creado");
    assert_eq!(seeded.username, "admin");
    assert_eq!(seeded.role, "super_admin");
    assert!(seeded.password_hash.starts_with("$argon2"), "hash PHC");
    assert_ne!(seeded.password_hash, "admin");
    assert!(ensure_admin(false).ok().expect("idempotente").is_none());

    assert_eq!(login_key("  ADMIN "), "admin");
    let user = login_outcome(Some(admin_user(seeded.password_hash.clone())), "admin")
        .ok()
        .expect("sin error de store")
        .expect("admin/admin válido");
    assert_eq!(user.username, "admin");
    assert_eq!(user.nombre.as_deref(), Some("Admin"));
    assert!(login_outcome(Some(admin_user(seeded.password_hash.clone())), "mala")
        .ok()
        .unwrap()
        .is_none());
    assert!(login_outcome(None, "x").ok().unwrap().is_none());
    match login_outcome(Some(admin_user("not a phc".to_string())), "admin") {
        Err(AppError::Store(m)) => assert!(m.starts_with("argon2 parse: ")),
        _ => panic!("se esperaba Store"),
    }
}

#[test]
fn hashing_round_trips_through_verification() {
    let h = hash_password("s3cret").ok().expect("hash");
    assert_eq!(verify_password("s3cret", &h).ok(), Some(true));
    assert_eq!(verify_password("other", &h).ok(), Some(false));
    let h2 = hash_password("s3cret").ok().unwrap();
    assert_ne!(h, h2, "each hash has its own salt");
}

#[test]
fn demo_is_seeded_only_into_an_empty_store() {
    assert!(seed_plan_if_empty(demo_projects(), false).is_empty(), "no second seeding");
    let plan = seed_plan_if_empty(demo_projects(), true);
    assert_eq!(plan.len(), 3);
    let marks: Vec<Option<u64>> = plan.iter().map(|(p, _)| p.created_at).collect();
    assert_eq!(marks, vec![Some(1), Some(2), Some(3)]);
    assert_eq!(plan[0].1[0].position, 0);
    assert_eq!(plan[0].1[0].project_id, "p1");
}

#[test]
fn hashing_succeeds_and_seeding_the_admin_never_fails() {
    assert!(hash_password("").is_ok());
    assert!(hash_password(&"x".repeat(10_000)).is_ok());
    assert!(matches!(ensure_admin(true), Ok(Some(_))));
}

#[test]
fn demo_projects_hold_the_demo_data() {
    let d = demo_projects();
    let t1 = &d[0].tasks[0];
    assert_eq!(t1.start_date.as_deref(), Some("2026-08-03"));
    assert_eq!(t1.end_date.as_deref(), Some("2026-08-14"));
    assert_eq!(t1.assignee.as_deref(), Some("María García"));
    assert_eq!(t1.priority, Priority::High);
    assert_eq!(t1.estimated_hours.map(f64::from_bits), Some(24.0));
    assert_eq!(t1.tags, vec!["backend".to_string(), "database".to_string()]);
    assert_eq!(d[0].tasks[2].assignee, None);
    assert_eq!(d[1].team, vec!["Carlos López".to_string()]);
    assert_eq!(d[2].end_date.as_deref(), Some("2026-07-20"));
    assert_eq!(d[2].tasks[1].estimated_hours.map(f64::from_bits), Some(80.0));
}
