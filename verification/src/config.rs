//! Where the vault, its salt and the session live, and the user's settings.

use vstd::prelude::*;

use crate::text::{append_chars, chars_of, string_from_chars};

verus! {

/// The settings read from `stash.toml`; every field may be absent.
#[derive(Debug)]
pub struct Config {
    pub db: Option<String>,
    pub session_timeout_minutes: Option<u64>,
    pub clipboard_clear_seconds: Option<u64>,
    pub browser: Option<String>,
    /// Private-mode flags of browsers not known here: name and flag.
    pub browser_flags: Vec<(String, String)>,
}

impl Default for Config {
    fn default() -> (r: Config)
        ensures
            r.db is None,
            r.session_timeout_minutes is None,
            r.clipboard_clear_seconds is None,
            r.browser is None,
            r.browser_flags@.len() == 0,
    {
        Config {
            db: None,
            session_timeout_minutes: None,
            clipboard_clear_seconds: None,
            browser: None,
            browser_flags: Vec::new(),
        }
    }
}

/// The vault to open: the `--db` flag, else `STASH_DB`, else the configured
/// path, else the default one.
pub fn choose_db_path(
    flag: Option<String>,
    env: Option<String>,
    configured: Option<String>,
    default: String,
) -> (r: String)
    ensures
        r@ == match (flag, env, configured) {
            (Some(p), _, _) => p@,
            (None, Some(p), _) => p@,
            (None, None, Some(p)) => p@,
            (None, None, None) => default@,
        },
{
    match flag {
        Some(p) => p,
        None => match env {
            Some(p) => p,
            None => match configured {
                Some(p) => p,
                None => default,
            },
        },
    }
}

/// Seconds after which a copied item is cleared from the clipboard: the
/// `--clear-after` flag, else the configured value, else 0 (never).
pub fn clear_after_seconds(flag: Option<u64>, configured: Option<u64>) -> (r: u64)
    ensures
        r == match (flag, configured) {
            (Some(s), _) => s,
            (None, Some(s)) => s,
            (None, None) => 0u64,
        },
{
    match flag {
        Some(s) => s,
        None => match configured {
            Some(s) => s,
            None => 0,
        },
    }
}

/// `name` appended to the directory `dir` as one more path component
/// (a relative `name`, as `Path::join` treats it on Unix).
pub open spec fn join_path(dir: Seq<char>, name: Seq<char>) -> Seq<char> {
    if dir.len() == 0 {
        name
    } else if dir.last() == '/' {
        dir + name
    } else {
        dir + seq!['/'] + name
    }
}

/// Appends the path component `name` to the directory `dir`.
pub fn join_path_str(dir: &str, name: &str) -> (r: String)
    ensures
        r@ == join_path(dir@, name@),
{
    let mut out = chars_of(dir);
    let n = chars_of(name);
    if out.len() > 0 && out[out.len() - 1] != '/' {
        out.push('/');
    }
    append_chars(&mut out, &n);
    proof {
        if dir@.len() > 0 && dir@.last() != '/' {
            assert(out@ =~= dir@ + seq!['/'] + name@);
        }
    }
    string_from_chars(out)
}

/// The directory that holds the vault: `stash` under the local data directory.
pub fn data_dir(local_data_dir: &str) -> (r: String)
    ensures
        r@ == join_path(local_data_dir@, "stash"@),
{
    join_path_str(local_data_dir, "stash")
}

/// The default vault file, `stash.db` in the data directory.
pub fn db_path(data_dir: &str) -> (r: String)
    ensures
        r@ == join_path(data_dir@, "stash.db"@),
{
    join_path_str(data_dir, "stash.db")
}

/// The session file, `.session` in the data directory.
pub fn session_path(data_dir: &str) -> (r: String)
    ensures
        r@ == join_path(data_dir@, ".session"@),
{
    join_path_str(data_dir, ".session")
}

/// The record of the session's timeout, `.session_timeout` in the data
/// directory.
pub fn session_timeout_path(data_dir: &str) -> (r: String)
    ensures
        r@ == join_path(data_dir@, ".session_timeout"@),
{
    join_path_str(data_dir, ".session_timeout")
}

/// The settings file, `stash/stash.toml` under the configuration directory.
pub fn config_path(config_dir: &str) -> (r: String)
    ensures
        r@ == join_path(join_path(config_dir@, "stash"@), "stash.toml"@),
{
    let d = join_path_str(config_dir, "stash");
    join_path_str(d.as_str(), "stash.toml")
}

/// What `Path::with_extension` makes of `path` and `ext`.
pub uninterp spec fn with_extension(path: Seq<char>, ext: Seq<char>) -> Seq<char>;

/// `path` with its extension replaced by `ext` (std's `Path::with_extension`);
/// the result is named `with_extension`. std panics on an extension that
/// holds a path separator, which `requires` rules out.
#[verifier::external_body]
fn path_with_extension(path: &str, ext: &str) -> (r: String)
    requires
        forall|i: int| 0 <= i < ext@.len() ==> ext@[i] != '/',
    ensures
        r@ == with_extension(path@, ext@),
{
    std::path::Path::new(path).with_extension(ext).to_string_lossy().into_owned()
}

/// The salt file that belongs to the vault at `db_path`: the same path with
/// the extension `salt`.
pub fn salt_path_for_db(db_path: &str) -> (r: String)
    ensures
        r@ == with_extension(db_path@, "salt"@),
{
    proof {
        reveal_strlit("salt");
    }
    path_with_extension(db_path, "salt")
}

/// Where a migration writes the new vault before it replaces the old one:
/// the vault's path with the extension `db.new`.
pub fn new_vault_path(db_path: &str) -> (r: String)
    ensures
        r@ == with_extension(db_path@, "db.new"@),
{
    proof {
        reveal_strlit("db.new");
    }
    path_with_extension(db_path, "db.new")
}

/// Where the editor's scratch file goes: `XDG_RUNTIME_DIR` (a per-user
/// tmpfs) where it is set and is a directory, else the system's temporary
/// directory.
pub fn resolve_secure_tmp_dir(xdg_runtime_dir: Option<String>, xdg_is_dir: bool, temp_dir: String) -> (r: String)
    ensures
        r@ == match xdg_runtime_dir {
            Some(d) => if xdg_is_dir {
                d@
            } else {
                temp_dir@
            },
            None => temp_dir@,
        },
{
    match xdg_runtime_dir {
        Some(d) => if xdg_is_dir {
            d
        } else {
            temp_dir
        },
        None => temp_dir,
    }
}

/// What the salt file holds: the salt and a newline.
pub fn salt_file_content(salt: &str) -> (r: String)
    ensures
        r@ == salt@.push('\n'),
{
    let mut v = chars_of(salt);
    v.push('\n');
    string_from_chars(v)
}

/// The files whose permissions are tightened to the owner alone: the vault
/// and SQLite's `-wal` and `-shm` files beside it.
pub fn restrict_db_permissions(path: &str) -> (r: Vec<String>)
    ensures
        r@.len() == 3,
        r@[0]@ == path@,
        r@[1]@ == path@ + "-wal"@,
        r@[2]@ == path@ + "-shm"@,
{
    let base = chars_of(path);
    let mut wal = chars_of(path);
    append_chars(&mut wal, &chars_of("-wal"));
    let mut shm = chars_of(path);
    append_chars(&mut shm, &chars_of("-shm"));
    vec![string_from_chars(base), string_from_chars(wal), string_from_chars(shm)]
}

} // verus!
