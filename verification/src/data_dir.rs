//! Where an installation keeps its data: the directory chosen from the
//! environment and the operating system, the directories older versions
//! used, and what to report about moving a database out of one of them.
//!
//! Paths are text here. The caller reads the environment, gives the values
//! to these functions, and does the file system work they decide on.
use crate::text::{decimal, is_blank, push_char, push_decimal, push_text, trim, trimmed, views_of};
use vstd::prelude::*;

verus! {

/// The operating system the app runs on.
#[derive(Clone, Copy, PartialEq, Eq, Debug, Structural)]
pub enum TargetOs {
    Windows,
    MacOs,
    /// Linux and the other Unix systems.
    OtherUnix,
    /// Android, with the uid the app's process runs as.
    Android { uid: u32 },
}

/// The app's package name on Android.
pub open spec fn android_app_id() -> Seq<char> {
    "com.featherai.app"@
}

/// The environment variables the data dir is chosen from, as read (a
/// missing variable is `None`).
pub struct DirEnv {
    /// `FEATHRAI_DATA_DIR`.
    pub data_dir: Option<String>,
    /// `HOME`.
    pub home: Option<String>,
    /// `XDG_DATA_HOME`.
    pub xdg_data_home: Option<String>,
    /// `LOCALAPPDATA`.
    pub local_app_data: Option<String>,
    /// `APPDATA`.
    pub app_data: Option<String>,
}

/// A variable's value as a path: trimmed, and nothing when it is missing or
/// blank (an empty `APPDATA` would name the working directory, not one of the
/// system's).
pub open spec fn env_path_of(raw: Option<String>) -> Option<Seq<char>> {
    match raw {
        Some(v) => if trim(v@).len() == 0 {
            None
        } else {
            Some(trim(v@))
        },
        None => None,
    }
}

/// A variable's value as a path (see [`env_path_of`]).
pub fn env_path(raw: &Option<String>) -> (r: Option<String>)
    ensures
        r matches Some(p) ==> env_path_of(*raw) == Some(p@),
        r is None ==> env_path_of(*raw) is None,
{
    match raw {
        Some(v) => if is_blank(v.as_str()) {
            None
        } else {
            Some(trimmed(v.as_str()))
        },
        None => None,
    }
}

/// A path separator of the system.
pub open spec fn is_separator(os: TargetOs, c: char) -> bool {
    c == '/' || (os == TargetOs::Windows && c == '\\')
}

/// The separator the system writes.
pub open spec fn separator(os: TargetOs) -> char {
    if os == TargetOs::Windows {
        '\\'
    } else {
        '/'
    }
}

/// A bare Windows drive such as `C:`, after which no separator is added.
pub open spec fn is_bare_drive(os: TargetOs, p: Seq<char>) -> bool {
    os == TargetOs::Windows && p.len() == 2 && p[1] == ':' && (('a' <= p[0] && p[0] <= 'z') || (
    'A' <= p[0] && p[0] <= 'Z'))
}

/// A relative path appended to `base` the way `Path::join` does: with a
/// separator in between unless `base` is empty, already ends with one, or
/// is a bare drive.
pub open spec fn join_path(os: TargetOs, base: Seq<char>, rel: Seq<char>) -> Seq<char> {
    if base.len() == 0 || is_separator(os, base.last()) || is_bare_drive(os, base) {
        base + rel
    } else {
        base + seq![separator(os)] + rel
    }
}

/// Appends the relative path `rel` to `base` (see [`join_path`]).
pub fn join(os: TargetOs, base: &str, rel: &str) -> (r: String)
    ensures
        r@ == join_path(os, base@, rel@),
{
    let v = crate::text::chars_of(base);
    let n = v.len();
    let bare_drive = match os {
        TargetOs::Windows => n == 2 && v[1] == ':' && (('a' <= v[0] && v[0] <= 'z') || ('A'
            <= v[0] && v[0] <= 'Z')),
        _ => false,
    };
    let ends_with_separator = n > 0 && (v[n - 1] == '/' || (os == TargetOs::Windows && v[n - 1]
        == '\\'));
    let mut s = crate::text::string_of(&v, 0, n);
    assert(v@.subrange(0, n as int) =~= base@);
    if !(n == 0 || ends_with_separator || bare_drive) {
        match os {
            TargetOs::Windows => push_char(&mut s, '\\'),
            _ => push_char(&mut s, '/'),
        }
    }
    push_text(&mut s, rel);
    s
}

/// Whether a Unix path is absolute.
pub open spec fn is_absolute_unix(p: Seq<char>) -> bool {
    p.len() > 0 && p[0] == '/'
}

/// The system's conventional data dir for the app:
/// - Windows: `%LOCALAPPDATA%\featherai` (else `%APPDATA%\featherai`);
/// - macOS: `$HOME/Library/Application Support/featherai`;
/// - other Unix: `$XDG_DATA_HOME/featherai` when that is absolute (the XDG
///   spec ignores relative values), else `$HOME/.local/share/featherai`;
/// - Android: the app's files dir for the user its uid belongs to,
///   `/data/user/<uid / 100000>/com.featherai.app/files`.
pub open spec fn os_data_dir_of(os: TargetOs, env: DirEnv) -> Option<Seq<char>> {
    match os {
        TargetOs::Android { uid } => Some(android_files_dir_of(android_app_id(), uid as nat)),
        TargetOs::Windows => match env_path_of(env.local_app_data) {
            Some(p) => Some(join_path(os, p, "featherai"@)),
            None => match env_path_of(env.app_data) {
                Some(p) => Some(join_path(os, p, "featherai"@)),
                None => None,
            },
        },
        TargetOs::MacOs => match env_path_of(env.home) {
            Some(p) => Some(join_path(os, p, "Library/Application Support/featherai"@)),
            None => None,
        },
        TargetOs::OtherUnix => match env_path_of(env.xdg_data_home) {
            Some(p) => if is_absolute_unix(p) {
                Some(join_path(os, p, "featherai"@))
            } else {
                match env_path_of(env.home) {
                    Some(h) => Some(join_path(os, h, ".local/share/featherai"@)),
                    None => None,
                }
            },
            None => match env_path_of(env.home) {
                Some(h) => Some(join_path(os, h, ".local/share/featherai"@)),
                None => None,
            },
        },
    }
}

/// The system's conventional data dir for the app (see
/// [`os_data_dir_of`]). It goes by the system the app runs on, not by which
/// variables happen to be set: a Windows shell with `HOME` still gets
/// `%LOCALAPPDATA%`.
pub fn os_data_dir(os: TargetOs, env: &DirEnv) -> (r: Option<String>)
    ensures
        r matches Some(p) ==> os_data_dir_of(os, *env) == Some(p@),
        r is None ==> os_data_dir_of(os, *env) is None,
{
    match os {
        TargetOs::Android { uid } => {
            let r = android_files_dir("com.featherai.app", uid);
            proof {
                reveal_strlit("com.featherai.app");
            }
            Some(r)
        },
        TargetOs::Windows => match env_path(&env.local_app_data) {
            Some(p) => Some(join(os, p.as_str(), "featherai")),
            None => match env_path(&env.app_data) {
                Some(p) => Some(join(os, p.as_str(), "featherai")),
                None => None,
            },
        },
        TargetOs::MacOs => match env_path(&env.home) {
            Some(p) => Some(join(os, p.as_str(), "Library/Application Support/featherai")),
            None => None,
        },
        TargetOs::OtherUnix => {
            let xdg = match env_path(&env.xdg_data_home) {
                Some(p) => {
                    let absolute = p.unicode_len() > 0 && p.get_char(0) == '/';
                    if absolute {
                        Some(p)
                    } else {
                        None
                    }
                },
                None => None,
            };
            match xdg {
                Some(p) => Some(join(os, p.as_str(), "featherai")),
                None => match env_path(&env.home) {
                    Some(h) => Some(join(os, h.as_str(), ".local/share/featherai")),
                    None => None,
                },
            }
        },
    }
}

/// The app's data dir: `$FEATHRAI_DATA_DIR` when set (an explicit choice),
/// else the system's, else `./featherai-data`.
pub open spec fn default_data_dir_of(os: TargetOs, env: DirEnv) -> Seq<char> {
    match env_path_of(env.data_dir) {
        Some(p) => p,
        None => match os_data_dir_of(os, env) {
            Some(p) => p,
            None => "./featherai-data"@,
        },
    }
}

/// The app's data dir (see [`default_data_dir_of`]).
pub fn default_data_dir(os: TargetOs, env: &DirEnv) -> (r: String)
    ensures
        r@ == default_data_dir_of(os, *env),
{
    match env_path(&env.data_dir) {
        Some(p) => p,
        None => match os_data_dir(os, env) {
            Some(p) => p,
            None => "./featherai-data".to_string(),
        },
    }
}

/// The data dirs older versions used, in their order of precedence:
/// `$HOME/.local/share/featherai` (on any system), then
/// `%APPDATA%\featherai`.
pub open spec fn legacy_data_dirs_of(os: TargetOs, env: DirEnv) -> Seq<Seq<char>> {
    let home = match env_path_of(env.home) {
        Some(h) => seq![join_path(os, h, ".local/share/featherai"@)],
        None => Seq::empty(),
    };
    let app_data = match env_path_of(env.app_data) {
        Some(a) => seq![join_path(os, a, "featherai"@)],
        None => Seq::empty(),
    };
    home + app_data
}

/// The data dirs older versions used (see [`legacy_data_dirs_of`]).
pub fn legacy_data_dirs(os: TargetOs, env: &DirEnv) -> (r: Vec<String>)
    ensures
        views_of(r@) == legacy_data_dirs_of(os, *env),
{
    let mut dirs: Vec<String> = Vec::new();
    match env_path(&env.home) {
        Some(h) => dirs.push(join(os, h.as_str(), ".local/share/featherai")),
        None => {},
    }
    let ghost first = dirs@;
    match env_path(&env.app_data) {
        Some(a) => dirs.push(join(os, a.as_str(), "featherai")),
        None => {},
    }
    assert(views_of(dirs@) =~= legacy_data_dirs_of(os, *env));
    dirs
}

/// This run's data dir and the older ones whose database is to move into it
/// when it has none yet. With `FEATHRAI_DATA_DIR` set the user chose the
/// directory, and nothing is moved there.
pub fn prepare_data_dir(os: TargetOs, env: &DirEnv) -> (r: (String, Vec<String>))
    ensures
        r.0@ == default_data_dir_of(os, *env),
        views_of(r.1@) == if env_path_of(env.data_dir) is Some {
            Seq::empty()
        } else {
            legacy_data_dirs_of(os, *env)
        },
{
    let dir = default_data_dir(os, env);
    match env_path(&env.data_dir) {
        Some(_) => {
            let none: Vec<String> = Vec::new();
            assert(views_of(none@) =~= Seq::<Seq<char>>::empty());
            (dir, none)
        },
        None => (dir, legacy_data_dirs(os, env)),
    }
}

/// Whether the local database is available: this library backs the native
/// app, which always has it.
pub fn available() -> (r: bool)
    ensures
        r,
{
    true
}

/// Android's internal files dir of an app for the user a process uid
/// belongs to (`uid = user * 100000 + app`): `/data/user/<user>/<app_id>/files`.
pub open spec fn android_files_dir_of(app_id: Seq<char>, uid: nat) -> Seq<char> {
    "/data/user/"@ + decimal(uid / 100000) + seq!['/'] + app_id + "/files"@
}

/// The app's files dir on Android, by the uid of the process (a work
/// profile or secondary user does not share user 0's).
pub fn android_files_dir(app_id: &str, uid: u32) -> (r: String)
    ensures
        r@ == android_files_dir_of(app_id@, uid as nat),
{
    let mut s = String::new();
    push_text(&mut s, "/data/user/");
    push_decimal(&mut s, (uid / 100000) as u64);
    push_char(&mut s, '/');
    push_text(&mut s, app_id);
    push_text(&mut s, "/files");
    s
}


// ── Moving a database out of an older data dir ──────────────────────────────
/// The older dirs (with whether each holds a database) that a database can
/// move from into `new_dir`: those other than `new_dir` that hold one, in
/// order.
pub open spec fn dirs_with_base(new_dir: Seq<char>, candidates: Seq<(Seq<char>, bool)>) -> Seq<
    Seq<char>,
>
    decreases candidates.len(),
{
    if candidates.len() == 0 {
        Seq::empty()
    } else {
        let rest = dirs_with_base(new_dir, candidates.drop_last());
        let (dir, has_base) = candidates.last();
        if dir != new_dir && has_base {
            rest.push(dir)
        } else {
            rest
        }
    }
}

pub open spec fn candidate_views(c: Seq<(String, bool)>) -> Seq<(Seq<char>, bool)> {
    c.map_values(|x: (String, bool)| (x.0@, x.1))
}

/// The older dirs a database could move from: none when `new_dir` already
/// holds one (it is never touched), else those of [`dirs_with_base`]. The
/// first is the one to move.
pub fn migration_sources(new_dir: &str, new_has_base: bool, candidates: &Vec<(String, bool)>) -> (r:
    Vec<String>)
    ensures
        views_of(r@) == if new_has_base {
            Seq::empty()
        } else {
            dirs_with_base(new_dir@, candidate_views(candidates@))
        },
{
    let mut found: Vec<String> = Vec::new();
    if new_has_base {
        assert(views_of(found@) =~= Seq::<Seq<char>>::empty());
        return found;
    }
    let ghost all = candidate_views(candidates@);
    let mut k: usize = 0;
    assert(all.subrange(0, 0) =~= Seq::<(Seq<char>, bool)>::empty());
    assert(views_of(found@) =~= Seq::<Seq<char>>::empty());
    while k < candidates.len()
        invariant
            all == candidate_views(candidates@),
            k <= candidates@.len(),
            views_of(found@) == dirs_with_base(new_dir@, all.subrange(0, k as int)),
        decreases candidates@.len() - k,
    {
        let ghost next = all.subrange(0, k as int + 1);
        assert(next.drop_last() =~= all.subrange(0, k as int));
        assert(next.last() == (candidates@[k as int].0@, candidates@[k as int].1));
        let (dir, has_base) = (&candidates[k].0, candidates[k].1);
        if has_base && !crate::text::same_text(dir.as_str(), new_dir) {
            let ghost before = found@;
            found.push(dir.clone());
            assert(views_of(found@) =~= views_of(before).push(dir@));
        }
        k = k + 1;
    }
    assert(all.subrange(0, candidates@.len() as int) =~= all);
    found
}

/// What the log says about a move.
pub enum MigrationNote {
    /// More than one older dir holds a database; the first one moves.
    SeveralFound { found: Vec<String> },
    /// These entries already existed in the new dir and were not overwritten.
    NotOverwritten { names: Vec<String> },
    /// Every entry moved (`count` of them); the emptied old dir is removed.
    Moved { count: usize },
    /// These entries could not move and stay in the old dir.
    LeftBehind { failures: Vec<String> },
}

/// The notes of a move from the first of `found`, given how many entries
/// moved, which were skipped because the new dir had them, and which failed:
/// a note when there was more than one candidate, one when something was
/// skipped, and then either "moved" (when nothing failed, and the old dir is
/// removed) or "left behind".
pub fn migration_notes(found: Vec<String>, moved: usize, skipped: Vec<String>, failed: Vec<String>) -> (r:
    Vec<MigrationNote>)
    ensures
        r@.len() == (if found@.len() > 1 {
            1int
        } else {
            0
        }) + (if skipped@.len() > 0 {
            1int
        } else {
            0
        }) + 1,
        found@.len() > 1 ==> (r@[0] matches MigrationNote::SeveralFound { found: f } && f@
            == found@),
        skipped@.len() > 0 ==> (r@[r@.len() - 2] matches MigrationNote::NotOverwritten {
            names,
        } && names@ == skipped@),
        failed@.len() == 0 ==> (r@[r@.len() - 1] matches MigrationNote::Moved { count } && count
            == moved),
        failed@.len() > 0 ==> (r@[r@.len() - 1] matches MigrationNote::LeftBehind { failures }
            && failures@ == failed@),
{
    let mut notes: Vec<MigrationNote> = Vec::new();
    let several = found.len() > 1;
    if several {
        notes.push(MigrationNote::SeveralFound { found });
    }
    if skipped.len() > 0 {
        notes.push(MigrationNote::NotOverwritten { names: skipped });
    }
    if failed.len() == 0 {
        notes.push(MigrationNote::Moved { count: moved });
    } else {
        notes.push(MigrationNote::LeftBehind { failures: failed });
    }
    notes
}

} // verus!
