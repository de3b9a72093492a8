//! Which clipboard program to use, and how to clear the clipboard later.

use vstd::prelude::*;

use crate::browser::SpawnOutcome;
use crate::tagging::strings_view;
use crate::text::{append_chars, chars_of, decimal, decimal_chars, string_from_chars};

verus! {

/// A clipboard program.
#[derive(Clone, Copy, Debug, PartialEq, Eq, Structural)]
pub enum Backend {
    Pbcopy,
    WlCopy,
    Xclip,
    Xsel,
    ClipExe,
}

/// The programs, in the order they are tried.
pub open spec fn backend_order() -> Seq<Backend> {
    seq![Backend::Pbcopy, Backend::WlCopy, Backend::Xclip, Backend::Xsel, Backend::ClipExe]
}

/// The program's name.
pub open spec fn backend_cmd(b: Backend) -> Seq<char> {
    match b {
        Backend::Pbcopy => "pbcopy"@,
        Backend::WlCopy => "wl-copy"@,
        Backend::Xclip => "xclip"@,
        Backend::Xsel => "xsel"@,
        Backend::ClipExe => "clip.exe"@,
    }
}

/// The arguments that make the program copy its input.
pub open spec fn backend_copy_args(b: Backend) -> Seq<Seq<char>> {
    match b {
        Backend::Xclip => seq!["-selection"@, "clipboard"@],
        Backend::Xsel => seq!["--clipboard"@, "--input"@],
        _ => Seq::empty(),
    }
}

/// The shell command that empties the clipboard with this program.
pub open spec fn backend_clear(b: Backend) -> Seq<char> {
    match b {
        Backend::Pbcopy => "printf '' | pbcopy"@,
        Backend::WlCopy => "wl-copy --clear"@,
        Backend::Xclip => "printf '' | xclip -selection clipboard"@,
        Backend::Xsel => "xsel --clipboard --clear"@,
        Backend::ClipExe => "echo.|clip"@,
    }
}

impl Backend {
    /// The program's name.
    pub fn cmd(self) -> (r: &'static str)
        ensures
            r@ == backend_cmd(self),
    {
        match self {
            Backend::Pbcopy => "pbcopy",
            Backend::WlCopy => "wl-copy",
            Backend::Xclip => "xclip",
            Backend::Xsel => "xsel",
            Backend::ClipExe => "clip.exe",
        }
    }

    /// The arguments that make the program copy its input.
    pub fn copy_args(self) -> (r: Vec<&'static str>)
        ensures
            r@.map_values(|s: &str| s@) == backend_copy_args(self),
    {
        let r: Vec<&'static str> = match self {
            Backend::Xclip => vec!["-selection", "clipboard"],
            Backend::Xsel => vec!["--clipboard", "--input"],
            _ => Vec::new(),
        };
        assert(r@.map_values(|s: &str| s@) =~= backend_copy_args(self));
        r
    }

    /// The shell command that empties the clipboard with this program.
    pub fn clear_fragment(self) -> (r: &'static str)
        ensures
            r@ == backend_clear(self),
    {
        match self {
            Backend::Pbcopy => "printf '' | pbcopy",
            Backend::WlCopy => "wl-copy --clear",
            Backend::Xclip => "printf '' | xclip -selection clipboard",
            Backend::Xsel => "xsel --clipboard --clear",
            Backend::ClipExe => "echo.|clip",
        }
    }
}

/// The program at `index` in the order they are tried.
pub fn backend_at(index: usize) -> (r: Backend)
    requires
        index < backend_order().len(),
    ensures
        r == backend_order()[index as int],
{
    if index == 0 {
        Backend::Pbcopy
    } else if index == 1 {
        Backend::WlCopy
    } else if index == 2 {
        Backend::Xclip
    } else if index == 3 {
        Backend::Xsel
    } else {
        Backend::ClipExe
    }
}

/// The clipboard program that a copy succeeded with; clearing uses it too.
#[derive(Clone, Copy, Debug, PartialEq, Eq, Structural)]
pub struct Clipboard(pub Backend);

/// The next move while trying the clipboard programs in order.
#[derive(Debug, PartialEq, Eq, Structural)]
pub enum CopyStep {
    /// The copy went through this program.
    Copied(Clipboard),
    /// Try the program at this index next.
    Try(usize),
    /// Give up with the launch error.
    Fail,
    /// None of the programs is installed.
    NoClipboard,
}

/// After trying the program at `index`, what to do next: stop on success or
/// on a real error, move on when it is not installed.
pub fn copy_step(index: usize, outcome: SpawnOutcome) -> (r: CopyStep)
    requires
        index < backend_order().len(),
    ensures
        outcome is Spawned ==> r == CopyStep::Copied(Clipboard(backend_order()[index as int])),
        outcome is Failed ==> r is Fail,
        outcome is NotFound && index + 1 < backend_order().len() ==> r == CopyStep::Try((index + 1) as usize),
        outcome is NotFound && index + 1 == backend_order().len() ==> r is NoClipboard,
{
    match outcome {
        SpawnOutcome::Spawned => CopyStep::Copied(Clipboard(backend_at(index))),
        SpawnOutcome::Failed => CopyStep::Fail,
        SpawnOutcome::NotFound => {
            if index + 1 < 5 {
                CopyStep::Try(index + 1)
            } else {
                CopyStep::NoClipboard
            }
        },
    }
}

/// The shell command, run in the background, that waits `after_secs`
/// seconds and then empties the clipboard.
pub open spec fn clear_script_spec(b: Backend, after_secs: u64) -> Seq<char> {
    "sleep "@ + decimal(after_secs as nat) + "; "@ + backend_clear(b)
}

impl Clipboard {
    /// The program and arguments that clear the clipboard after `after_secs`
    /// seconds: `sh -c "sleep N; <clear command>"`.
    pub fn clear_command(&self, after_secs: u64) -> (r: (String, Vec<String>))
        ensures
            r.0@ == "sh"@,
            strings_view(r.1@) == seq!["-c"@, clear_script_spec(self.0, after_secs)],
    {
        let mut s = chars_of("sleep ");
        append_chars(&mut s, &decimal_chars(after_secs as u128));
        append_chars(&mut s, &chars_of("; "));
        append_chars(&mut s, &chars_of(self.0.clear_fragment()));
        let args = vec![string_from_chars(chars_of("-c")), string_from_chars(s)];
        assert(strings_view(args@) =~= seq!["-c"@, clear_script_spec(self.0, after_secs)]);
        (string_from_chars(chars_of("sh")), args)
    }
}

/// What `stash show --copy` prints once the content is on the clipboard.
pub open spec fn copy_messages_spec(shortname: Seq<char>, clear_after: u64) -> Seq<Seq<char>> {
    seq!["Copied '"@ + shortname + "' to clipboard."@] + if clear_after > 0 {
        seq!["Clipboard will be cleared in "@ + decimal(clear_after as nat) + " second(s)."@]
    } else {
        Seq::empty()
    }
}

/// The messages of a copy; a clear is scheduled only where `clear_after` is
/// not 0.
pub fn copy_messages(shortname: &str, clear_after: u64) -> (r: Vec<String>)
    ensures
        strings_view(r@) == copy_messages_spec(shortname@, clear_after),
{
    let mut a = chars_of("Copied '");
    append_chars(&mut a, &chars_of(shortname));
    append_chars(&mut a, &chars_of("' to clipboard."));
    let mut out = vec![string_from_chars(a)];
    if clear_after > 0 {
        let mut b = chars_of("Clipboard will be cleared in ");
        append_chars(&mut b, &decimal_chars(clear_after as u128));
        append_chars(&mut b, &chars_of(" second(s)."));
        out.push(string_from_chars(b));
    }
    assert(strings_view(out@) =~= copy_messages_spec(shortname@, clear_after));
    out
}

} // verus!
