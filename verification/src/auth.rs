//! The decisions of `stash auth`: new vault or existing one, the master
//! password's rules, and what a login reports.

use vstd::prelude::*;

use crate::text::{
    append_chars, chars_of, decimal, decimal_chars, str_eq, string_from_chars, trim_chars, trim_ws,
};
use vstd::string::StringSliceAdditionalSpecFns;

verus! {

/// The shortest master password accepted, in bytes.
pub const MIN_PASSWORD_LEN: usize = 12;

/// Why `stash auth` stopped.
#[derive(Clone, Copy, Debug, PartialEq, Eq, Structural)]
pub enum AuthError {
    /// A vault file without a salt file: the old format, to be migrated.
    OldFormatVault,
    /// The new master password is shorter than `MIN_PASSWORD_LEN` bytes.
    PasswordTooShort,
    /// The confirmation differs from the new master password.
    PasswordsDiffer,
}

/// Decides, before any password is asked, whether the login creates a new
/// vault (`Ok(true)`): it does where there is no salt file, and refuses a
/// vault file that has none.
pub fn login_precheck(salt_exists: bool, db_exists: bool) -> (r: Result<bool, AuthError>)
    ensures
        salt_exists ==> r == Ok::<bool, AuthError>(false),
        !salt_exists && db_exists ==> r == Err::<bool, AuthError>(AuthError::OldFormatVault),
        !salt_exists && !db_exists ==> r == Ok::<bool, AuthError>(true),
{
    let is_new = !salt_exists;
    if is_new && db_exists {
        Err(AuthError::OldFormatVault)
    } else {
        Ok(is_new)
    }
}

/// Checks a new master password's length, in bytes.
pub fn check_new_password(password: &str) -> (r: Result<(), AuthError>)
    ensures
        r is Ok <==> password.spec_bytes().len() >= MIN_PASSWORD_LEN,
        r is Err ==> r == Err::<(), AuthError>(AuthError::PasswordTooShort),
{
    if password.as_bytes().len() < MIN_PASSWORD_LEN {
        Err(AuthError::PasswordTooShort)
    } else {
        Ok(())
    }
}

/// Checks that the confirmation repeats the new master password.
pub fn check_confirmation(password: &str, confirm: &str) -> (r: Result<(), AuthError>)
    ensures
        r is Ok <==> password@ == confirm@,
        r is Err ==> r == Err::<(), AuthError>(AuthError::PasswordsDiffer),
{
    if str_eq(password, confirm) {
        Ok(())
    } else {
        Err(AuthError::PasswordsDiffer)
    }
}

/// The salt as read from the salt file (surrounding whitespace dropped).
pub fn salt_from_file(content: &str) -> (r: String)
    ensures
        r@ == trim_ws(content@),
{
    string_from_chars(trim_chars(&chars_of(content)))
}

/// What a successful login reports.
pub open spec fn login_message_spec(timeout_minutes: u64, used_keychain: bool) -> Seq<char> {
    let storage = if used_keychain {
        " (keychain)"@
    } else {
        Seq::empty()
    };
    if timeout_minutes == 0 {
        "Logged in. Session does not expire."@ + storage
    } else {
        "Logged in. Session expires in "@ + decimal(timeout_minutes as nat) + " minute(s)."@ + storage
    }
}

/// Reports a successful login: how long the session lasts, and whether the
/// key went to the system keychain.
pub fn login_message(timeout_minutes: u64, used_keychain: bool) -> (r: String)
    ensures
        r@ == login_message_spec(timeout_minutes, used_keychain),
{
    let mut l = if timeout_minutes == 0 {
        chars_of("Logged in. Session does not expire.")
    } else {
        let mut l = chars_of("Logged in. Session expires in ");
        append_chars(&mut l, &decimal_chars(timeout_minutes as u128));
        append_chars(&mut l, &chars_of(" minute(s)."));
        l
    };
    if used_keychain {
        append_chars(&mut l, &chars_of(" (keychain)"));
    }
    let r = string_from_chars(l);
    assert(r@ =~= login_message_spec(timeout_minutes, used_keychain));
    r
}

} // verus!
