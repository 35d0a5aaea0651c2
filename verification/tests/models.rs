use featherai::models::{Priority, ProjectStatus, StoredUser, TaskStatus, User};

#[test]
fn task_status_names_labels_and_badges() {
    assert_eq!(TaskStatus::Todo.as_str(), "todo");
    assert_eq!(TaskStatus::InProgress.as_str(), "in_progress");
    assert_eq!(TaskStatus::Done.as_str(), "done");
    assert_eq!(TaskStatus::Todo.label(), "Por hacer");
    assert_eq!(TaskStatus::InProgress.label(), "En progreso");
    assert_eq!(TaskStatus::Done.label(), "Completada");
    assert_eq!(TaskStatus::Todo.badge(), "bg-[var(--secondary-color)] text-white");
    assert_eq!(TaskStatus::InProgress.badge(), "bg-[var(--primary-color)] text-white");
    assert_eq!(TaskStatus::Done.badge(), "bg-[var(--success-color)] text-white");
    assert_eq!(TaskStatus::all(), [TaskStatus::Todo, TaskStatus::InProgress, TaskStatus::Done]);
}

#[test]
fn project_status_names_labels_and_badges() {
    assert_eq!(ProjectStatus::Planning.as_str(), "planning");
    assert_eq!(ProjectStatus::Active.as_str(), "active");
    assert_eq!(ProjectStatus::Paused.as_str(), "paused");
    assert_eq!(ProjectStatus::Completed.as_str(), "completed");
    assert_eq!(ProjectStatus::Planning.label(), "Planificación");
    assert_eq!(ProjectStatus::Active.label(), "Activo");
    assert_eq!(ProjectStatus::Paused.label(), "Pausado");
    assert_eq!(ProjectStatus::Completed.label(), "Completado");
    assert_eq!(ProjectStatus::Paused.badge(), "bg-[var(--warning-color)] text-[#212529]");
    assert_eq!(ProjectStatus::Completed.badge(), "bg-[var(--primary-color)] text-white");
}

#[test]
fn priority_names_labels_badges_and_colors() {
    assert_eq!(Priority::Low.as_str(), "low");
    assert_eq!(Priority::Medium.as_str(), "medium");
    assert_eq!(Priority::High.as_str(), "high");
    assert_eq!(Priority::Low.label(), "Baja");
    assert_eq!(Priority::Medium.label(), "Media");
    assert_eq!(Priority::High.label(), "Alta");
    assert_eq!(Priority::High.badge(), "bg-[var(--danger-color)] text-white");
    assert_eq!(Priority::Low.color(), "#10b981");
    assert_eq!(Priority::Medium.color(), "#f59e0b");
    assert_eq!(Priority::High.color(), "#ef4444");
}

#[test]
fn wire_names_read_back_and_unknown_ones_default() {
    for s in TaskStatus::all() {
        assert_eq!(TaskStatus::from(s.as_str()), s);
    }
    for p in [ProjectStatus::Planning, ProjectStatus::Active, ProjectStatus::Paused, ProjectStatus::Completed] {
        assert_eq!(ProjectStatus::from(p.as_str()), p);
    }
    for p in [Priority::Low, Priority::Medium, Priority::High] {
        assert_eq!(Priority::from(p.as_str()), p);
    }
    assert_eq!(TaskStatus::from("?"), TaskStatus::Todo);
    assert_eq!(ProjectStatus::from("DONE"), ProjectStatus::Planning);
    assert_eq!(Priority::from(""), Priority::Low);
}

fn user(nombre: Option<&str>, apellido: Option<&str>) -> User {
    User {
        username: "jdoe".to_string(),
        email: None,
        nombre: nombre.map(|s| s.to_string()),
        apellido: apellido.map(|s| s.to_string()),
        avatar_url: None,
        role: "admin".to_string(),
    }
}

#[test]
fn full_name_joins_the_present_parts() {
    assert_eq!(user(Some("Juan"), Some("Pérez")).full_name(), "Juan Pérez");
    assert_eq!(user(Some("Juan"), None).full_name(), "Juan");
    assert_eq!(user(Some(""), Some("Pérez")).full_name(), "Pérez");
    assert_eq!(user(None, Some("")).full_name(), "jdoe");
    assert_eq!(User::default().full_name(), "");
}

#[test]
fn stored_user_drops_the_hash() {
    let stored = StoredUser {
        username: "ana".to_string(),
        role: "operativo".to_string(),
        nombre: Some("Ana".to_string()),
        apellido: None,
        email: Some("ana@example.com".to_string()),
        avatar_url: None,
        password_hash: "$argon2id$x".to_string(),
    };
    let u = stored.into_user();
    assert_eq!(u.username, "ana");
    assert_eq!(u.role, "operativo");
    assert_eq!(u.nombre.as_deref(), Some("Ana"));
    assert_eq!(u.email.as_deref(), Some("ana@example.com"));
}
