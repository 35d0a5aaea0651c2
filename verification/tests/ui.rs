use featherai::models::User;
use featherai::ui::{
    collapse_label, dismiss_message, dismiss_toast, email_label, login_form_error,
    login_refused_message, login_store_error, menu_username, nav_is_active, nav_links,
    network_log_level, role_label, route_access, sentinel_address, sentinel_port, show_toast,
    sidebar_sections, super_admin_role_list, theme_toggle_label, webkit_quirk_needed, AuthState,
    LogLevel, NavIcon, RouteAccess, SentinelPort, ThemeId, ToastItem, ToastVariant,
    AUTO_DISMISS_MS,
};

fn user(role: &str, email: Option<&str>) -> User {
    User {
        username: "ana".to_string(),
        email: email.map(|s| s.to_string()),
        nombre: None,
        apellido: None,
        avatar_url: None,
        role: role.to_string(),
    }
}

#[test]
fn themes() {
    assert_eq!(ThemeId::Light.as_str(), "light");
    assert_eq!(ThemeId::Dark.as_str(), "dark");
    assert_eq!(ThemeId::Light.toggled(), ThemeId::Dark);
    assert_eq!(ThemeId::Dark.toggled().toggled(), ThemeId::Dark);
    assert_eq!(ThemeId::restored(Some("dark".to_string())), ThemeId::Dark);
    assert_eq!(ThemeId::restored(Some("light".to_string())), ThemeId::Light);
    assert_eq!(ThemeId::restored(Some("Dark".to_string())), ThemeId::Light);
    assert_eq!(ThemeId::restored(None), ThemeId::Light);
    assert_eq!(theme_toggle_label(ThemeId::Dark), "Cambiar a claro");
    assert_eq!(theme_toggle_label(ThemeId::Light), "Cambiar a oscuro");
}

#[test]
fn toasts_show_and_dismiss() {
    assert_eq!(AUTO_DISMISS_MS, 6000);
    assert_eq!(ToastVariant::Error.classes(), "bg-red-600 text-white");
    assert_eq!(ToastVariant::Success.classes(), "bg-green-600 text-white");
    assert_eq!(ToastVariant::Info.classes(), "bg-gray-800 text-white");
    let mut toasts: Vec<ToastItem> = Vec::new();
    let a = show_toast(&mut toasts, 0, "uno".to_string(), ToastVariant::Info);
    let b = show_toast(&mut toasts, 1, "dos".to_string(), ToastVariant::Error);
    assert_eq!((a.as_str(), b.as_str()), ("toast-0", "toast-1"));
    assert_eq!(dismiss_message(&a), "toast-dismiss:toast-0");
    dismiss_toast(&mut toasts, &a);
    let left: Vec<&str> = toasts.iter().map(|t| t.message.as_str()).collect();
    assert_eq!(left, vec!["dos"]);
    dismiss_toast(&mut toasts, "toast-9");
    assert_eq!(toasts.len(), 1);
}

#[test]
fn navigation() {
    let links = nav_links();
    assert_eq!((links[0].to, links[0].label, links[0].icon), ("/admin/projects", "Proyectos", NavIcon::Folder));
    assert_eq!((links[1].to, links[1].label, links[1].icon), ("/settings", "Ajustes", NavIcon::Gear));
    assert_eq!(NavIcon::Folder.class(), "bi bi-folder");
    assert_eq!(NavIcon::Gear.class(), "bi bi-gear");
    let sections = sidebar_sections();
    assert_eq!(sections[0].title, "Administración");
    assert_eq!(sections[1].items[0].to, "/settings");
    assert!(nav_is_active("/admin/projects", "/admin/projects"));
    assert!(nav_is_active("/admin/projects/42", "/admin/projects"));
    assert!(!nav_is_active("/admin/projectsx", "/admin/projects"));
    assert!(!nav_is_active("/admin", "/admin/projects"));
    assert_eq!(collapse_label(true), "Expandir sidebar");
    assert_eq!(collapse_label(false), "Colapsar sidebar");
}

#[test]
fn protected_routes() {
    let roles = super_admin_role_list();
    assert_eq!(roles, vec!["super_admin"]);
    let admin = Some(user("super_admin", None));
    let other = Some(user("operativo", None));
    assert_eq!(route_access(false, &admin, Some(&roles)), RouteAccess::RedirectToLogin);
    assert_eq!(route_access(true, &admin, Some(&roles)), RouteAccess::Allow);
    assert_eq!(route_access(true, &other, Some(&roles)), RouteAccess::RedirectToLogin);
    assert_eq!(route_access(true, &other, None), RouteAccess::Allow);
    assert_eq!(route_access(true, &None, Some(&roles)), RouteAccess::RedirectToLogin);
}

#[test]
fn session_and_sign_in_messages() {
    let mut auth = AuthState::signed_out();
    assert!(!auth.is_authenticated);
    auth.sign_in(user("super_admin", None));
    assert!(auth.is_authenticated);
    auth.logout();
    assert!(!auth.is_authenticated && auth.user.is_none());
    assert_eq!(login_form_error("  ", "x"), Some("Completá usuario y contraseña"));
    assert_eq!(login_form_error("admin", ""), Some("Completá usuario y contraseña"));
    assert_eq!(login_form_error("admin", " "), None);
    assert_eq!(login_refused_message(), "Usuario o contraseña inválidos");
    assert_eq!(login_store_error("store: x"), "Error de almacenamiento: store: x");
}

#[test]
fn account_labels() {
    assert_eq!(role_label(Some("super_admin")), "Administración general");
    assert_eq!(role_label(Some("admin")), "Administrador");
    assert_eq!(role_label(Some("operativo")), "Operativo");
    assert_eq!(role_label(Some("otro")), "");
    assert_eq!(role_label(None), "");
    assert_eq!(email_label(&Some(user("admin", Some("a@b.c")))), "a@b.c");
    assert_eq!(email_label(&Some(user("admin", None))), "(No configurado)");
    assert_eq!(email_label(&None), "(No configurado)");
    assert_eq!(menu_username(&Some(user("admin", None))), "ana");
    assert_eq!(menu_username(&None), "Admin");
}

#[test]
fn network_log_levels() {
    assert_eq!(network_log_level(None), None);
    assert_eq!(network_log_level(Some("  ".to_string())), None);
    assert_eq!(network_log_level(Some(" TRUE ".to_string())), Some(LogLevel::Info));
    assert_eq!(network_log_level(Some("1".to_string())), Some(LogLevel::Info));
    assert_eq!(network_log_level(Some("Debug".to_string())), Some(LogLevel::Debug));
    assert_eq!(network_log_level(Some("trace".to_string())), Some(LogLevel::Trace));
    assert_eq!(network_log_level(Some("WARN".to_string())), None, "other levels ask for nothing");
    assert_eq!(network_log_level(Some("off".to_string())), None);
    assert_eq!(network_log_level(Some("0".to_string())), None);
    assert_eq!(network_log_level(Some("foo".to_string())), None, "an unknown value installs nothing");
    assert_eq!(network_log_level(Some(" info ".to_string())), Some(LogLevel::Info));
}

#[test]
fn start_up_switches() {
    assert!(matches!(sentinel_port(None), SentinelPort::Unset));
    assert!(matches!(sentinel_port(Some(" 15433 ".to_string())), SentinelPort::Port(15433)));
    assert!(matches!(sentinel_port(Some("70000".to_string())), SentinelPort::Invalid(ref v) if v == "70000"));
    assert!(matches!(sentinel_port(Some("x".to_string())), SentinelPort::Invalid(_)));
    assert_eq!(sentinel_address(15433), "127.0.0.1:15433");
    assert!(webkit_quirk_needed(&None, &None));
    assert!(!webkit_quirk_needed(&Some(String::new()), &None), "a value the user set wins, even empty");
    assert!(!webkit_quirk_needed(&Some("1".to_string()), &None));
    assert!(!webkit_quirk_needed(&None, &Some("0".to_string())));
}
