//! Keeping the session in the system keychain: which keychain a platform
//! has (the macOS keychain, the Secret Service through `secret-tool` on
//! Linux, none elsewhere), which program to run, with what, and what its
//! answer means.

use vstd::prelude::*;
use vstd::utf8::{decode_utf8, valid_utf8};

use crate::encoding::utf8_string;
use crate::tagging::strings_view;
use crate::text::{chars_of, str_eq, string_from_chars};

verus! {

/// The keychain that holds the session entry on a platform.
#[derive(Clone, Copy, Debug, PartialEq, Eq, Structural)]
pub enum Backend {
    /// The macOS keychain, reached through the Security framework.
    MacKeychain,
    /// The Secret Service, reached through `secret-tool`.
    SecretService,
    /// No keychain: nothing is stored, read or removed.
    Unsupported,
}

/// The keychain of the platform named `os` (as `std::env::consts::OS` names
/// it).
pub open spec fn backend_spec(os: Seq<char>) -> Backend {
    if os == "macos"@ {
        Backend::MacKeychain
    } else if os == "linux"@ {
        Backend::SecretService
    } else {
        Backend::Unsupported
    }
}

/// The keychain of the platform named `os`.
pub fn backend_for(os: &str) -> (r: Backend)
    ensures
        r == backend_spec(os@),
{
    if str_eq(os, "macos") {
        Backend::MacKeychain
    } else if str_eq(os, "linux") {
        Backend::SecretService
    } else {
        Backend::Unsupported
    }
}

/// The session entry as the macOS keychain names it: service `stash`,
/// account `session`.
pub fn mac_entry() -> (r: (String, String))
    ensures
        r.0@ == "stash"@,
        r.1@ == "session"@,
{
    (string_from_chars(chars_of("stash")), string_from_chars(chars_of("session")))
}

/// Whether the session went to the keychain: only where the platform has
/// one, and that keychain took it.
pub fn stored_in_keychain(backend: Backend, backend_succeeded: bool) -> (r: bool)
    ensures
        r == (backend != Backend::Unsupported && backend_succeeded),
{
    match backend {
        Backend::Unsupported => false,
        _ => backend_succeeded,
    }
}

/// A run of the keychain program: its arguments and, where it reads one,
/// what goes to its standard input.
#[derive(Debug)]
pub struct KeychainCall {
    pub program: String,
    pub args: Vec<String>,
    pub input: Option<String>,
}

/// The arguments that pick the session entry: service `stash`, user
/// `session`.
pub open spec fn entry_args() -> Seq<Seq<char>> {
    seq!["service"@, "stash"@, "username"@, "session"@]
}

fn strings(parts: Vec<&'static str>) -> (r: Vec<String>)
    ensures
        strings_view(r@) == parts@.map_values(|s: &str| s@),
{
    let mut out: Vec<String> = Vec::new();
    let mut i: usize = 0;
    while i < parts.len()
        invariant
            i <= parts@.len(),
            strings_view(out@) == parts@.take(i as int).map_values(|s: &str| s@),
        decreases parts@.len() - i,
    {
        let ghost old_out = strings_view(out@);
        let x = string_from_chars(chars_of(parts[i]));
        out.push(x);
        assert(strings_view(out@) =~= old_out.push(x@));
        assert(x@ == parts@[i as int]@);
        assert(strings_view(out@) =~= parts@.take(i as int + 1).map_values(|s: &str| s@));
        i = i + 1;
    }
    assert(parts@.take(parts@.len() as int) =~= parts@);
    out
}

/// The run that stores `content` as the session entry.
pub fn save(content: &str) -> (r: KeychainCall)
    ensures
        r.program@ == "secret-tool"@,
        strings_view(r.args@) == seq!["store"@, "--label=stash session key"@] + entry_args(),
        r.input matches Some(i) && i@ == content@,
{
    let args = strings(vec!["store", "--label=stash session key", "service", "stash", "username", "session"]);
    assert(strings_view(args@) =~= seq!["store"@, "--label=stash session key"@] + entry_args());
    KeychainCall {
        program: string_from_chars(chars_of("secret-tool")),
        args,
        input: Some(string_from_chars(chars_of(content))),
    }
}

/// Whether storing went through: the program started, took the whole
/// input, and exited with success.
pub fn save_succeeded(spawned: bool, wrote_input: bool, exited_ok: bool) -> (r: bool)
    ensures
        r == (spawned && wrote_input && exited_ok),
{
    spawned && wrote_input && exited_ok
}

/// The run that reads the session entry.
pub fn load() -> (r: KeychainCall)
    ensures
        r.program@ == "secret-tool"@,
        strings_view(r.args@) == seq!["lookup"@] + entry_args(),
        r.input is None,
{
    let args = strings(vec!["lookup", "service", "stash", "username", "session"]);
    assert(strings_view(args@) =~= seq!["lookup"@] + entry_args());
    KeychainCall { program: string_from_chars(chars_of("secret-tool")), args, input: None }
}

/// What a lookup found: its output, where the program succeeded with some
/// output that is UTF-8.
pub fn loaded(succeeded: bool, output: &[u8]) -> (r: Option<String>)
    ensures
        r is Some <==> (succeeded && output@.len() > 0 && valid_utf8(output@)),
        r matches Some(s) ==> s@ == decode_utf8(output@),
{
    if succeeded && output.len() > 0 {
        utf8_string(output)
    } else {
        None
    }
}

/// The run that removes the session entry.
pub fn clear() -> (r: KeychainCall)
    ensures
        r.program@ == "secret-tool"@,
        strings_view(r.args@) == seq!["clear"@] + entry_args(),
        r.input is None,
{
    let args = strings(vec!["clear", "service", "stash", "username", "session"]);
    assert(strings_view(args@) =~= seq!["clear"@] + entry_args());
    KeychainCall { program: string_from_chars(chars_of("secret-tool")), args, input: None }
}

} // verus!
