//! The values that the command line hands to the commands.

use vstd::prelude::*;

use crate::text::str_eq;

verus! {

/// What `stash auth` is asked to do.
#[derive(Debug, PartialEq, Eq, Structural)]
pub enum AuthAction {
    /// Authenticate with the master password; the timeout, in minutes,
    /// overrides the configured one (0: the session never expires).
    Login { timeout: Option<u64> },
    /// Show the current session's status.
    Status,
    /// Clear the current session.
    Logout,
    /// Change the master password and re-encrypt the vault.
    Reset,
}

/// The two kinds of item.
#[derive(Clone, Copy, Debug, PartialEq, Eq, Structural)]
pub enum ItemType {
    Url,
    Note,
}

/// The name of an item type, as stored and printed.
pub open spec fn item_type_name(t: ItemType) -> Seq<char> {
    match t {
        ItemType::Url => "url"@,
        ItemType::Note => "note"@,
    }
}

impl ItemType {
    /// The name of the type: `url` or `note`.
    pub fn as_str(&self) -> (r: &'static str)
        ensures
            r@ == item_type_name(*self),
    {
        match self {
            ItemType::Url => "url",
            ItemType::Note => "note",
        }
    }

    /// The type with the name `s`, if there is one.
    pub fn from_name(s: &str) -> (r: Option<ItemType>)
        ensures
            r matches Some(t) ==> item_type_name(t) == s@,
            r is None ==> s@ != "url"@ && s@ != "note"@,
    {
        if str_eq(s, "url") {
            Some(ItemType::Url)
        } else if str_eq(s, "note") {
            Some(ItemType::Note)
        } else {
            None
        }
    }
}

/// The session timeout to use: the one given on the command line, else the
/// configured one, else 15 minutes.
pub fn effective_timeout(given: Option<u64>, configured: Option<u64>) -> (r: u64)
    ensures
        r == match given {
            Some(t) => t,
            None => match configured {
                Some(c) => c,
                None => 15u64,
            },
        },
{
    match given {
        Some(t) => t,
        None => match configured {
            Some(c) => c,
            None => 15,
        },
    }
}

} // verus!
