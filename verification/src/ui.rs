//! The shell around the screens: the theme, the toasts, the navigation,
//! who may see a route, the sign-in form's messages, the account page's
//! labels, and the opt-in network log level.
use crate::models::User;
use crate::text::{
    ascii_lower, chars_of, decimal, is_blank, push_decimal, push_text, same_text, trim, trimmed,
    unsigned_text_value,
};
use vstd::prelude::*;

verus! {

// ── Theme ────────────────────────────────────────────────────────────────────
/// The active theme.
#[derive(Clone, Copy, PartialEq, Eq, Debug, Structural)]
pub enum ThemeId {
    Light,
    Dark,
}

impl ThemeId {
    pub open spec fn name(self) -> Seq<char> {
        match self {
            ThemeId::Light => "light"@,
            ThemeId::Dark => "dark"@,
        }
    }

    /// The theme's name, as stored and set on the page.
    pub fn as_str(self) -> (r: &'static str)
        ensures
            r@ == self.name(),
    {
        match self {
            ThemeId::Light => "light",
            ThemeId::Dark => "dark",
        }
    }

    /// The other theme.
    pub open spec fn other(self) -> ThemeId {
        match self {
            ThemeId::Light => ThemeId::Dark,
            ThemeId::Dark => ThemeId::Light,
        }
    }

    /// The other theme.
    pub fn toggled(self) -> (r: ThemeId)
        ensures
            r == self.other(),
    {
        match self {
            ThemeId::Light => ThemeId::Dark,
            ThemeId::Dark => ThemeId::Light,
        }
    }

    /// The theme restored from storage: dark when `"dark"` was saved, else
    /// light.
    pub fn restored(saved: Option<String>) -> (r: ThemeId)
        ensures
            r == (if saved is Some && saved->0@ == "dark"@ {
                ThemeId::Dark
            } else {
                ThemeId::Light
            }),
    {
        match saved {
            Some(s) => if same_text(s.as_str(), "dark") {
                ThemeId::Dark
            } else {
                ThemeId::Light
            },
            None => ThemeId::Light,
        }
    }
}

/// Toggling the theme twice gives the theme back, and a toggle always
/// changes it.
pub proof fn law_theme_toggle_twice(t: ThemeId)
    ensures
        t.other().other() == t,
        t.other() != t,
{
}

/// The theme menu item: offers the other theme.
pub fn theme_toggle_label(t: ThemeId) -> (r: &'static str)
    ensures
        r@ == (if t == ThemeId::Dark {
            "Cambiar a claro"@
        } else {
            "Cambiar a oscuro"@
        }),
{
    match t {
        ThemeId::Dark => "Cambiar a claro",
        ThemeId::Light => "Cambiar a oscuro",
    }
}

// ── Toasts ───────────────────────────────────────────────────────────────────
/// How long a toast stays, in milliseconds.
pub const AUTO_DISMISS_MS: u32 = 6000;

/// The kind of a toast.
#[derive(Clone, Copy, PartialEq, Eq, Debug, Structural)]
pub enum ToastVariant {
    Error,
    Success,
    Info,
}

impl ToastVariant {
    pub open spec fn classes_spec(self) -> Seq<char> {
        match self {
            ToastVariant::Error => "bg-red-600 text-white"@,
            ToastVariant::Success => "bg-green-600 text-white"@,
            ToastVariant::Info => "bg-gray-800 text-white"@,
        }
    }

    /// The toast's style classes.
    pub fn classes(self) -> (r: &'static str)
        ensures
            r@ == self.classes_spec(),
    {
        match self {
            ToastVariant::Error => "bg-red-600 text-white",
            ToastVariant::Success => "bg-green-600 text-white",
            ToastVariant::Info => "bg-gray-800 text-white",
        }
    }
}

/// A toast on screen.
pub struct ToastItem {
    pub id: String,
    pub message: String,
    pub variant: ToastVariant,
}

/// The ids of the toasts on screen.
pub open spec fn toast_ids(ts: Seq<ToastItem>) -> Seq<Seq<char>> {
    ts.map_values(|t: ToastItem| t.id@)
}

/// `ts` without the toasts whose id is `id`.
pub open spec fn without_toast(ts: Seq<ToastItem>, id: Seq<char>) -> Seq<ToastItem>
    decreases ts.len(),
{
    if ts.len() == 0 {
        Seq::empty()
    } else if ts[0].id@ == id {
        without_toast(ts.drop_first(), id)
    } else {
        seq![ts[0]] + without_toast(ts.drop_first(), id)
    }
}

/// The id of the `n`-th toast of the session.
pub open spec fn toast_id(n: nat) -> Seq<char> {
    "toast-"@ + decimal(n)
}

/// The message that dismisses toast `id` when its timer fires.
pub open spec fn dismiss_message_of(id: Seq<char>) -> Seq<char> {
    "toast-dismiss:"@ + id
}

/// Shows a toast: it goes last, with the id of the session's `n`-th toast
/// (the caller never gives the same `n` twice). Returns its id.
pub fn show_toast(toasts: &mut Vec<ToastItem>, n: u64, message: String, variant: ToastVariant) -> (r: String)
    ensures
        r@ == toast_id(n as nat),
        final(toasts)@.len() == old(toasts)@.len() + 1,
        final(toasts)@.drop_last() == old(toasts)@,
        final(toasts)@.last().id@ == r@,
        final(toasts)@.last().message == message,
        final(toasts)@.last().variant == variant,
{
    let mut id = String::new();
    push_text(&mut id, "toast-");
    push_decimal(&mut id, n);
    let r = id.clone();
    toasts.push(ToastItem { id, message, variant });
    assert(toasts@.drop_last() =~= old(toasts)@);
    r
}

/// The message the timer of toast `id` sends.
pub fn dismiss_message(id: &str) -> (r: String)
    ensures
        r@ == dismiss_message_of(id@),
{
    let mut s = String::new();
    push_text(&mut s, "toast-dismiss:");
    push_text(&mut s, id);
    s
}

/// Closes the toasts with id `id` (the others stay, in order).
pub fn dismiss_toast(toasts: &mut Vec<ToastItem>, id: &str)
    ensures
        final(toasts)@ == without_toast(old(toasts)@, id@),
{
    let ghost orig = toasts@;
    let n = toasts.len();
    let mut i: usize = n;
    assert(orig.subrange(0, n as int) =~= orig);
    assert(orig.subrange(n as int, n as int) =~= Seq::<ToastItem>::empty());
    while i > 0
        invariant
            n == orig.len(),
            i <= n,
            toasts@ == orig.subrange(0, i as int) + without_toast(orig.subrange(i as int, n as int), id@),
        decreases i,
    {
        let ghost w = without_toast(orig.subrange(i as int, n as int), id@);
        proof {
            let sub = orig.subrange(i - 1, n as int);
            assert(sub[0] == orig[i - 1]);
            assert(sub.drop_first() =~= orig.subrange(i as int, n as int));
        }
        assert(toasts@[i - 1] == orig[i - 1]);
        if same_text(toasts[i - 1].id.as_str(), id) {
            toasts.remove(i - 1);
            assert(toasts@ =~= orig.subrange(0, i - 1) + w);
        } else {
            assert(toasts@ =~= orig.subrange(0, i - 1) + (seq![orig[i - 1]] + w));
        }
        i = i - 1;
    }
    assert(orig.subrange(0, 0) + without_toast(orig.subrange(0, n as int), id@) =~= without_toast(orig, id@));
}

/// Dismissing a toast just shown takes exactly it away again.
pub proof fn law_dismiss_undoes_show(before: Seq<ToastItem>, shown: ToastItem)
    requires
        !toast_ids(before).contains(shown.id@),
    ensures
        without_toast(before.push(shown), shown.id@) == before,
    decreases before.len(),
{
    if before.len() == 0 {
        assert(before.push(shown)[0] == shown);
        assert(before.push(shown).drop_first() =~= Seq::<ToastItem>::empty());
        assert(without_toast(Seq::<ToastItem>::empty(), shown.id@) == Seq::<ToastItem>::empty());
        assert(without_toast(before.push(shown), shown.id@) == without_toast(before.push(shown).drop_first(), shown.id@));
        assert(before =~= Seq::<ToastItem>::empty());
    } else {
        let rest = before.drop_first();
        assert(!toast_ids(rest).contains(shown.id@)) by {
            if toast_ids(rest).contains(shown.id@) {
                let j = choose|j: int| 0 <= j < toast_ids(rest).len() && toast_ids(rest)[j] == shown.id@;
                assert(toast_ids(before)[j + 1] == shown.id@);
            }
        }
        law_dismiss_undoes_show(rest, shown);
        assert(toast_ids(before)[0] == before[0].id@);
        assert(before[0].id@ != shown.id@);
        assert(before.push(shown)[0] == before[0]);
        assert(before.push(shown).drop_first() =~= rest.push(shown));
        assert(without_toast(before.push(shown), shown.id@) == seq![before[0]] + without_toast(rest.push(shown), shown.id@));
        assert(seq![before[0]] + rest =~= before);
    }
}

// ── Navigation ───────────────────────────────────────────────────────────────
/// A navigation icon.
#[derive(Clone, Copy, PartialEq, Eq, Debug, Structural)]
pub enum NavIcon {
    Folder,
    Gear,
}

impl NavIcon {
    /// The icon's Bootstrap Icons class.
    pub fn class(self) -> (r: &'static str)
        ensures
            r@ == match self {
                NavIcon::Folder => "bi bi-folder"@,
                NavIcon::Gear => "bi bi-gear"@,
            },
    {
        match self {
            NavIcon::Folder => "bi bi-folder",
            NavIcon::Gear => "bi bi-gear",
        }
    }
}

/// A navigation entry.
#[derive(Clone, Copy, PartialEq, Eq, Debug)]
pub struct NavLink {
    pub to: &'static str,
    pub label: &'static str,
    pub icon: NavIcon,
}

/// The navigation entries: projects, then settings.
pub fn nav_links() -> (r: Vec<NavLink>)
    ensures
        r@.len() == 2,
        r@[0].to@ == "/admin/projects"@ && r@[0].label@ == "Proyectos"@ && r@[0].icon == NavIcon::Folder,
        r@[1].to@ == "/settings"@ && r@[1].label@ == "Ajustes"@ && r@[1].icon == NavIcon::Gear,
{
    let mut r: Vec<NavLink> = Vec::new();
    r.push(NavLink { to: "/admin/projects", label: "Proyectos", icon: NavIcon::Folder });
    r.push(NavLink { to: "/settings", label: "Ajustes", icon: NavIcon::Gear });
    r
}

/// A sidebar section: a title and its entries.
pub struct SidebarSection {
    pub title: &'static str,
    pub items: Vec<NavLink>,
}

/// The sidebar: "Administración" with the projects entry, "Cuenta" with the
/// settings entry.
pub fn sidebar_sections() -> (r: Vec<SidebarSection>)
    ensures
        r@.len() == 2,
        r@[0].title@ == "Administración"@ && r@[0].items@.len() == 1 && r@[0].items@[0].to@
            == "/admin/projects"@,
        r@[1].title@ == "Cuenta"@ && r@[1].items@.len() == 1 && r@[1].items@[0].to@ == "/settings"@,
{
    let links = nav_links();
    let mut admin: Vec<NavLink> = Vec::new();
    admin.push(links[0]);
    let mut account: Vec<NavLink> = Vec::new();
    account.push(links[1]);
    let mut r: Vec<SidebarSection> = Vec::new();
    r.push(SidebarSection { title: "Administración", items: admin });
    r.push(SidebarSection { title: "Cuenta", items: account });
    r
}

/// An entry is active on its own path and on the paths below it.
pub open spec fn nav_active(path: Seq<char>, to: Seq<char>) -> bool {
    path == to || (path.len() > to.len() && path.subrange(0, to.len() as int) == to && path[to.len() as int] == '/')
}

/// Whether the entry to `to` is active at `path`.
pub fn nav_is_active(path: &str, to: &str) -> (r: bool)
    ensures
        r == nav_active(path@, to@),
{
    let p = chars_of(path);
    let t = chars_of(to);
    if p.len() == t.len() {
        return same_text(path, to);
    }
    if p.len() < t.len() || p[t.len()] != '/' {
        return false;
    }
    let mut i: usize = 0;
    while i < t.len()
        invariant
            p@ == path@,
            t@ == to@,
            t@.len() < p@.len(),
            i <= t@.len(),
            forall|k: int| 0 <= k < i ==> p@[k] == t@[k],
        decreases t@.len() - i,
    {
        if p[i] != t[i] {
            return false;
        }
        i = i + 1;
    }
    assert(path@.subrange(0, to@.len() as int) =~= to@);
    true
}

/// The sidebar's collapse button: offers the other state.
pub fn collapse_label(collapsed: bool) -> (r: &'static str)
    ensures
        r@ == (if collapsed {
            "Expandir sidebar"@
        } else {
            "Colapsar sidebar"@
        }),
{
    if collapsed {
        "Expandir sidebar"
    } else {
        "Colapsar sidebar"
    }
}

// ── Who may see a route ──────────────────────────────────────────────────────
/// The roles allowed in the administration routes.
pub open spec fn super_admin_roles() -> Seq<Seq<char>> {
    seq!["super_admin"@]
}

/// What a protected route does.
#[derive(Clone, Copy, PartialEq, Eq, Debug, Structural)]
pub enum RouteAccess {
    /// Show the content.
    Allow,
    /// Replace the route with the sign-in page.
    RedirectToLogin,
}

/// A route shows its content to a signed-in user whose role is one of
/// `roles` (any role when there is no list); everyone else goes to the
/// sign-in page.
pub open spec fn access_of(signed_in: bool, role: Option<Seq<char>>, roles: Option<Seq<Seq<char>>>) -> RouteAccess {
    if !signed_in {
        RouteAccess::RedirectToLogin
    } else {
        match roles {
            None => RouteAccess::Allow,
            Some(rs) => match role {
                Some(r) => if rs.contains(r) {
                    RouteAccess::Allow
                } else {
                    RouteAccess::RedirectToLogin
                },
                None => RouteAccess::RedirectToLogin,
            },
        }
    }
}

/// The texts of a list of string slices.
pub open spec fn str_views(v: Seq<&str>) -> Seq<Seq<char>> {
    v.map_values(|x: &str| x@)
}

/// What a protected route does for the current session.
pub fn route_access(signed_in: bool, user: &Option<User>, roles: Option<&Vec<&str>>) -> (r: RouteAccess)
    ensures
        r == access_of(
            signed_in,
            match user {
                Some(u) => Some(u.role@),
                None => None,
            },
            match roles {
                Some(rs) => Some(str_views(rs@)),
                None => None,
            },
        ),
{
    if !signed_in {
        return RouteAccess::RedirectToLogin;
    }
    match roles {
        None => RouteAccess::Allow,
        Some(rs) => match user {
            None => RouteAccess::RedirectToLogin,
            Some(u) => {
                let ghost views = str_views(rs@);
                let mut i: usize = 0;
                while i < rs.len()
                    invariant
                        signed_in,
                        roles == Some(rs),
                        *user == Some(*u),
                        views == str_views(rs@),
                        i <= rs@.len(),
                        forall|k: int| 0 <= k < i ==> views[k] != u.role@,
                    decreases rs@.len() - i,
                {
                    if same_text(rs[i], u.role.as_str()) {
                        assert(views[i as int] == u.role@);
                        assert(views.contains(u.role@));
                        assert(access_of(true, Some(u.role@), Some(views)) == RouteAccess::Allow);
                        return RouteAccess::Allow;
                    }
                    i = i + 1;
                }
                RouteAccess::RedirectToLogin
            },
        },
    }
}

/// The roles of the administration routes.
pub fn super_admin_role_list() -> (r: Vec<&'static str>)
    ensures
        str_views(r@) == super_admin_roles(),
{
    let mut r: Vec<&'static str> = Vec::new();
    r.push("super_admin");
    assert(str_views(r@) =~= super_admin_roles());
    r
}

// ── Session ──────────────────────────────────────────────────────────────────
/// The session: who is signed in.
pub struct AuthState {
    pub user: Option<User>,
    pub is_authenticated: bool,
}

impl AuthState {
    /// Nobody signed in (also what signing out leaves).
    pub fn signed_out() -> (r: AuthState)
        ensures
            r.user is None,
            !r.is_authenticated,
    {
        AuthState { user: None, is_authenticated: false }
    }

    /// Signs `user` in.
    pub fn sign_in(&mut self, user: User)
        ensures
            final(self).is_authenticated,
            final(self).user == Some(user),
    {
        self.is_authenticated = true;
        self.user = Some(user);
    }

    /// Signs out.
    pub fn logout(&mut self)
        ensures
            final(self).user is None,
            !final(self).is_authenticated,
    {
        self.user = None;
        self.is_authenticated = false;
    }
}

// ── Sign-in form ─────────────────────────────────────────────────────────────
/// Why the sign-in form is not sent: a blank user name or an empty password.
pub fn login_form_error(username: &str, password: &str) -> (r: Option<&'static str>)
    ensures
        r is Some <==> (trim(username@).len() == 0 || password@.len() == 0),
        r matches Some(m) ==> m@ == "Completá usuario y contraseña"@,
{
    if is_blank(username) || password.unicode_len() == 0 {
        Some("Completá usuario y contraseña")
    } else {
        None
    }
}

/// What the sign-in form says when the credentials are refused.
pub fn login_refused_message() -> (r: &'static str)
    ensures
        r@ == "Usuario o contraseña inválidos"@,
{
    "Usuario o contraseña inválidos"
}

/// What the sign-in form says when the store failed (`error` is its text).
pub fn login_store_error(error: &str) -> (r: String)
    ensures
        r@ == "Error de almacenamiento: "@ + error@,
{
    let mut s = String::new();
    push_text(&mut s, "Error de almacenamiento: ");
    push_text(&mut s, error);
    s
}

// ── Account page ─────────────────────────────────────────────────────────────
pub open spec fn role_label_of(role: Option<Seq<char>>) -> Seq<char> {
    match role {
        Some(r) => if r == "super_admin"@ {
            "Administración general"@
        } else if r == "admin"@ {
            "Administrador"@
        } else if r == "operativo"@ {
            "Operativo"@
        } else {
            ""@
        },
        None => ""@,
    }
}

/// How the account page names a role (nothing for an unknown one).
pub fn role_label(role: Option<&str>) -> (r: &'static str)
    ensures
        r@ == role_label_of(
            match role {
                Some(x) => Some(x@),
                None => None,
            },
        ),
{
    match role {
        Some(r) => if same_text(r, "super_admin") {
            "Administración general"
        } else if same_text(r, "admin") {
            "Administrador"
        } else if same_text(r, "operativo") {
            "Operativo"
        } else {
            ""
        },
        None => "",
    }
}

/// The account page's e-mail line: the address, or `"(No configurado)"`.
pub fn email_label(user: &Option<User>) -> (r: String)
    ensures
        r@ == match user {
            Some(u) => match u.email {
                Some(e) => e@,
                None => "(No configurado)"@,
            },
            None => "(No configurado)"@,
        },
{
    match user {
        Some(u) => match &u.email {
            Some(e) => e.clone(),
            None => "(No configurado)".to_string(),
        },
        None => "(No configurado)".to_string(),
    }
}

/// The user name in the account menu: the signed-in user's, else `"Admin"`.
pub fn menu_username(user: &Option<User>) -> (r: String)
    ensures
        r@ == match user {
            Some(u) => u.username@,
            None => "Admin"@,
        },
{
    match user {
        Some(u) => u.username.clone(),
        None => "Admin".to_string(),
    }
}

// ── Network log level ────────────────────────────────────────────────────────
/// The level of the network log.
#[derive(Clone, Copy, PartialEq, Eq, Debug, Structural)]
pub enum LogLevel {
    Info,
    Debug,
    Trace,
}

fn ascii_lower_exec(s: &str) -> (r: String)
    ensures
        r@ == ascii_lower(s@),
{
    let v = chars_of(s);
    let mut r = String::new();
    let mut i: usize = 0;
    while i < v.len()
        invariant
            v@ == s@,
            i <= v@.len(),
            r@ == ascii_lower(s@.subrange(0, i as int)),
        decreases v@.len() - i,
    {
        let c = v[i];
        let d = if 'A' <= c && c <= 'Z' {
            crate::text::ascii_shift(c)
        } else {
            c
        };
        crate::text::push_char(&mut r, d);
        i = i + 1;
        assert(r@ =~= ascii_lower(s@.subrange(0, i as int)));
    }
    assert(s@.subrange(0, v@.len() as int) =~= s@);
    r
}

/// The network log level `FEATHRAI_LOG` asks for: none when it is missing
/// or blank; trimmed and in any ASCII case, `1`, `true` and `info` are
/// info, `debug` and `trace` theirs; any other value asks for nothing.
pub open spec fn log_level_of(raw: Option<String>) -> Option<LogLevel> {
    match raw {
        None => None,
        Some(v) => {
            let k = ascii_lower(trim(v@));
            if k == "1"@ || k == "true"@ || k == "info"@ {
                Some(LogLevel::Info)
            } else if k == "debug"@ {
                Some(LogLevel::Debug)
            } else if k == "trace"@ {
                Some(LogLevel::Trace)
            } else {
                None
            }
        },
    }
}

/// The network log level for the value of `FEATHRAI_LOG` (see
/// [`log_level_of`]).
pub fn network_log_level(raw: Option<String>) -> (r: Option<LogLevel>)
    ensures
        r == log_level_of(raw),
{
    match raw {
        None => None,
        Some(v) => {
            let t = trimmed(v.as_str());
            let k = ascii_lower_exec(t.as_str());
            let k = k.as_str();
            if same_text(k, "1") || same_text(k, "true") || same_text(k, "info") {
                Some(LogLevel::Info)
            } else if same_text(k, "debug") {
                Some(LogLevel::Debug)
            } else if same_text(k, "trace") {
                Some(LogLevel::Trace)
            } else {
                None
            }
        },
    }
}


// ── Start-up switches ────────────────────────────────────────────────────────
/// What `FEATHRAI_SENTINEL_PORT` asks for.
pub enum SentinelPort {
    /// The variable is not set: no admin RPC.
    Unset,
    /// It is set but is not a port number (its value, for the warning).
    Invalid(String),
    /// Serve the admin RPC on `127.0.0.1` at this port.
    Port(u16),
}

/// The admin RPC port asked for by the value of `FEATHRAI_SENTINEL_PORT`: its
/// trimmed text as a `u16`.
pub fn sentinel_port(raw: Option<String>) -> (r: SentinelPort)
    ensures
        match raw {
            None => r is Unset,
            Some(v) => match unsigned_text_value(trim(v@)) {
                Some(n) => if n <= u16::MAX {
                    r matches SentinelPort::Port(p) && p == n
                } else {
                    r matches SentinelPort::Invalid(x) && x@ == v@
                },
                None => r matches SentinelPort::Invalid(x) && x@ == v@,
            },
        },
{
    match raw {
        None => SentinelPort::Unset,
        Some(v) => {
            let t = trimmed(v.as_str());
            match crate::text::parse_unsigned(t.as_str(), 65535) {
                Some(n) => SentinelPort::Port(n as u16),
                None => SentinelPort::Invalid(v),
            }
        },
    }
}

/// The address the admin RPC listens on.
pub fn sentinel_address(port: u16) -> (r: String)
    ensures
        r@ == "127.0.0.1:"@ + decimal(port as nat),
{
    let mut s = String::new();
    push_text(&mut s, "127.0.0.1:");
    push_decimal(&mut s, port as u64);
    s
}

/// Whether to apply the WebKitGTK workaround for NVIDIA's driver: only when
/// the user defined neither `WEBKIT_DISABLE_DMABUF_RENDERER` nor
/// `__NV_DISABLE_EXPLICIT_SYNC` (a value the user set, any value, wins).
pub fn webkit_quirk_needed(dmabuf_renderer: &Option<String>, explicit_sync: &Option<String>) -> (r: bool)
    ensures
        r == (dmabuf_renderer is None && explicit_sync is None),
{
    dmabuf_renderer.is_none() && explicit_sync.is_none()
}

} // verus!
