//! Converting a vault from the field-encrypted format (every content and tag
//! sealed with ChaCha20-Poly1305 in a plain SQLite file) to the format that
//! encrypts the whole database.

use vstd::prelude::*;
use vstd::utf8::{decode_utf8, valid_utf8};

use crate::crypto::{decrypt, decrypt_spec};
use crate::encoding::{b64_decode, base64_decoded, utf8_string};
use crate::listing::opt_view;
use crate::text::{append_chars, chars_of, decimal, decimal_chars, string_from_chars};

verus! {

/// Why a migration stopped.
#[derive(Debug)]
pub enum MigrateError {
    /// The salt file exists: the vault is already in the new format.
    AlreadyMigrated,
    /// There is no vault file.
    NoVault,
    /// The old vault has no salt in its metadata.
    MissingSalt,
    /// The old vault's metadata has no encrypted canary.
    MissingCanary,
    /// The old vault's metadata has no canary nonce.
    MissingCanaryNonce,
    /// The canary, or its nonce, is not valid Base64.
    InvalidCanary,
    /// The canary does not decrypt: the password is wrong.
    IncorrectPassword,
    /// The item with this short name does not decrypt.
    ItemUndecryptable { shortname: String },
    /// The item with this short name decrypts to bytes that are not UTF-8.
    ItemNotUtf8 { shortname: String },
    /// An archived version does not decrypt.
    HistoryUndecryptable,
    /// An archived version decrypts to bytes that are not UTF-8.
    HistoryNotUtf8,
    /// A tag does not decrypt.
    TagUndecryptable,
    /// A tag decrypts to bytes that are not UTF-8.
    TagNotUtf8,
}

/// Checks, before any password is asked, that there is a vault to migrate
/// and that it is not migrated already.
pub fn migrate_precheck(salt_exists: bool, db_exists: bool) -> (r: Result<(), MigrateError>)
    ensures
        salt_exists ==> r == Err::<(), MigrateError>(MigrateError::AlreadyMigrated),
        !salt_exists && !db_exists ==> r == Err::<(), MigrateError>(MigrateError::NoVault),
        !salt_exists && db_exists ==> r is Ok,
{
    if salt_exists {
        Err(MigrateError::AlreadyMigrated)
    } else if !db_exists {
        Err(MigrateError::NoVault)
    } else {
        Ok(())
    }
}

/// What checking the old vault's canary gives: the canary and its nonce (as
/// stored, in Base64; `None` where missing) must decrypt under `key`.
pub open spec fn canary_check_spec(key: Seq<u8>, enc: Option<Seq<char>>, nonce: Option<Seq<char>>) -> Result<
    (),
    MigrateError,
> {
    match enc {
        None => Err(MigrateError::MissingCanary),
        Some(e) => match base64_decoded(e) {
            None => Err(MigrateError::InvalidCanary),
            Some(eb) => match nonce {
                None => Err(MigrateError::MissingCanaryNonce),
                Some(n) => match base64_decoded(n) {
                    None => Err(MigrateError::InvalidCanary),
                    Some(nb) => if decrypt_spec(key, eb, nb) is Some {
                        Ok(())
                    } else {
                        Err(MigrateError::IncorrectPassword)
                    },
                },
            },
        },
    }
}

/// Checks the password, through the key derived from it, against the old
/// vault's encrypted canary.
pub fn check_canary(key: &[u8; 32], canary_enc: Option<&str>, canary_nonce: Option<&str>) -> (r: Result<
    (),
    MigrateError,
>)
    ensures
        r == canary_check_spec(key@, opt_str(canary_enc), opt_str(canary_nonce)),
{
    let e = match canary_enc {
        None => return Err(MigrateError::MissingCanary),
        Some(e) => e,
    };
    let eb = match b64_decode(e) {
        None => return Err(MigrateError::InvalidCanary),
        Some(b) => b,
    };
    let n = match canary_nonce {
        None => return Err(MigrateError::MissingCanaryNonce),
        Some(n) => n,
    };
    let nb = match b64_decode(n) {
        None => return Err(MigrateError::InvalidCanary),
        Some(b) => b,
    };
    match decrypt(key, eb.as_slice(), nb.as_slice()) {
        Ok(_) => Ok(()),
        Err(_) => Err(MigrateError::IncorrectPassword),
    }
}

/// The characters of an optional `&str`.
pub open spec fn opt_str(o: Option<&str>) -> Option<Seq<char>> {
    match o {
        Some(s) => Some(s@),
        None => None,
    }
}

/// An item of the old vault, its content still sealed.
#[derive(Debug)]
pub struct OldItem {
    pub id: i64,
    pub shortname: String,
    pub item_type: String,
    pub content_enc: Vec<u8>,
    pub nonce: Vec<u8>,
    pub created_at: String,
    pub updated_at: String,
    pub browser: Option<String>,
}

/// An archived version of the old vault, its content still sealed.
#[derive(Debug)]
pub struct OldHistory {
    pub item_id: i64,
    pub content_enc: Vec<u8>,
    pub nonce: Vec<u8>,
    pub version: i64,
    pub created_at: String,
}

/// A tag of the old vault, still sealed.
#[derive(Debug)]
pub struct OldTag {
    pub item_id: i64,
    pub tag_enc: Vec<u8>,
    pub nonce: Vec<u8>,
}

/// An item for the new vault (same row id and times as before).
#[derive(Debug)]
pub struct NewItem {
    pub id: i64,
    pub shortname: String,
    pub item_type: String,
    pub content: String,
    pub browser: Option<String>,
    pub created_at: String,
    pub updated_at: String,
}

/// An archived version for the new vault.
#[derive(Debug)]
pub struct NewHistory {
    pub item_id: i64,
    pub content: String,
    pub version: i64,
    pub created_at: String,
}

/// A tag for the new vault.
#[derive(Debug)]
pub struct NewTag {
    pub item_id: i64,
    pub tag: String,
}

/// The text a sealed field holds: it must decrypt under `key`, to UTF-8.
/// `Err(false)` where it does not decrypt, `Err(true)` where it is not UTF-8.
pub open spec fn opened_text(key: Seq<u8>, enc: Seq<u8>, nonce: Seq<u8>) -> Result<Seq<char>, bool> {
    match decrypt_spec(key, enc, nonce) {
        None => Err(false),
        Some(p) => if valid_utf8(p) {
            Ok(decode_utf8(p))
        } else {
            Err(true)
        },
    }
}

fn open_text(key: &[u8; 32], enc: &Vec<u8>, nonce: &Vec<u8>) -> (r: Result<String, bool>)
    ensures
        match (r, opened_text(key@, enc@, nonce@)) {
            (Ok(s), Ok(t)) => s@ == t,
            (Err(a), Err(b)) => a == b,
            _ => false,
        },
{
    let p = match decrypt(key, enc.as_slice(), nonce.as_slice()) {
        Ok(p) => p,
        Err(_) => return Err(false),
    };
    match utf8_string(p.as_slice()) {
        Some(s) => Ok(s),
        None => Err(true),
    }
}

/// A new item as characters.
pub open spec fn new_item_view(x: NewItem) -> (i64, Seq<char>, Seq<char>, Seq<char>, Option<Seq<char>>, Seq<char>, Seq<char>) {
    (x.id, x.shortname@, x.item_type@, x.content@, opt_view(x.browser), x.created_at@, x.updated_at@)
}

/// What an old item becomes: the same fields, the content opened.
pub open spec fn convert_item_spec(key: Seq<u8>, o: OldItem) -> Result<
    (i64, Seq<char>, Seq<char>, Seq<char>, Option<Seq<char>>, Seq<char>, Seq<char>),
    MigrateError,
> {
    match opened_text(key, o.content_enc@, o.nonce@) {
        Ok(c) => Ok((o.id, o.shortname@, o.item_type@, c, opt_view(o.browser), o.created_at@, o.updated_at@)),
        Err(false) => Err(MigrateError::ItemUndecryptable { shortname: o.shortname }),
        Err(true) => Err(MigrateError::ItemNotUtf8 { shortname: o.shortname }),
    }
}

/// The old items converted in order; the first that fails stops it.
pub open spec fn convert_items_spec(key: Seq<u8>, os: Seq<OldItem>) -> Result<
    Seq<(i64, Seq<char>, Seq<char>, Seq<char>, Option<Seq<char>>, Seq<char>, Seq<char>)>,
    MigrateError,
>
    decreases os.len(),
{
    if os.len() == 0 {
        Ok(Seq::empty())
    } else {
        match convert_items_spec(key, os.drop_last()) {
            Err(e) => Err(e),
            Ok(prev) => match convert_item_spec(key, os.last()) {
                Err(e) => Err(e),
                Ok(x) => Ok(prev.push(x)),
            },
        }
    }
}

fn clone_opt(o: &Option<String>) -> (r: Option<String>)
    ensures
        opt_view(r) == opt_view(*o),
{
    match o {
        Some(s) => Some(s.clone()),
        None => None,
    }
}

/// Opens the content of every old item, in order.
pub fn convert_items(key: &[u8; 32], old: &Vec<OldItem>) -> (r: Result<Vec<NewItem>, MigrateError>)
    ensures
        match (r, convert_items_spec(key@, old@)) {
            (Ok(v), Ok(s)) => v@.map_values(|x: NewItem| new_item_view(x)) == s,
            (Err(e), Err(s)) => e == s,
            _ => false,
        },
{
    let mut out: Vec<NewItem> = Vec::new();
    let mut i: usize = 0;
    assert(old@.take(0) =~= Seq::<OldItem>::empty());
    assert(out@.map_values(|x: NewItem| new_item_view(x)) =~= Seq::empty());
    while i < old.len()
        invariant
            i <= old@.len(),
            convert_items_spec(key@, old@.take(i as int)) == Ok::<
                Seq<(i64, Seq<char>, Seq<char>, Seq<char>, Option<Seq<char>>, Seq<char>, Seq<char>)>,
                MigrateError,
            >(out@.map_values(|x: NewItem| new_item_view(x))),
        decreases old@.len() - i,
    {
        let o = &old[i];
        let ghost cur = old@.take(i as int + 1);
        assert(cur.drop_last() =~= old@.take(i as int));
        assert(cur.last() == *o);
        let content = match open_text(key, &o.content_enc, &o.nonce) {
            Ok(c) => c,
            Err(not_utf8) => {
                proof {
                    lemma_items_prefix_err(key@, old@, i as int + 1);
                }
                if not_utf8 {
                    return Err(MigrateError::ItemNotUtf8 { shortname: o.shortname.clone() });
                } else {
                    return Err(MigrateError::ItemUndecryptable { shortname: o.shortname.clone() });
                }
            },
        };
        let ghost old_out = out@;
        out.push(
            NewItem {
                id: o.id,
                shortname: o.shortname.clone(),
                item_type: o.item_type.clone(),
                content,
                browser: clone_opt(&o.browser),
                created_at: o.created_at.clone(),
                updated_at: o.updated_at.clone(),
            },
        );
        assert(out@.map_values(|x: NewItem| new_item_view(x)) =~= old_out.map_values(
            |x: NewItem| new_item_view(x),
        ).push(new_item_view(out@.last())));
        i = i + 1;
    }
    assert(old@.take(old@.len() as int) =~= old@);
    Ok(out)
}

proof fn lemma_items_prefix_err(key: Seq<u8>, os: Seq<OldItem>, j: int)
    requires
        0 < j <= os.len(),
        convert_items_spec(key, os.take(j)) is Err,
    ensures
        convert_items_spec(key, os) == convert_items_spec(key, os.take(j)),
    decreases os.len(),
{
    if j < os.len() {
        assert(os.drop_last().take(j) =~= os.take(j));
        lemma_items_prefix_err(key, os.drop_last(), j);
    } else {
        assert(os.take(j) =~= os);
    }
}

/// Migrating the items: it succeeds exactly when every item's content
/// decrypts under the key to UTF-8 text; then there is one new item per old
/// item, in order, with the same id, name, type, browser preference and
/// times, and the decrypted text as its content.
pub proof fn converted_items_keep_their_fields(key: Seq<u8>, os: Seq<OldItem>)
    ensures
        convert_items_spec(key, os) is Ok <==> forall|k: int|
            #![trigger os[k]]
            0 <= k < os.len() ==> (decrypt_spec(key, os[k].content_enc@, os[k].nonce@) matches Some(p)
                && valid_utf8(p)),
        convert_items_spec(key, os) matches Ok(s) ==> s.len() == os.len() && forall|k: int|
            #![trigger s[k]]
            0 <= k < os.len() ==> s[k].0 == os[k].id && s[k].1 == os[k].shortname@ && s[k].2
                == os[k].item_type@ && (decrypt_spec(key, os[k].content_enc@, os[k].nonce@) matches Some(p)
                && s[k].3 == decode_utf8(p)) && s[k].4 == opt_view(os[k].browser) && s[k].5
                == os[k].created_at@ && s[k].6 == os[k].updated_at@,
    decreases os.len(),
{
    if os.len() > 0 {
        let init = os.drop_last();
        converted_items_keep_their_fields(key, init);
        let last = os.len() - 1;
        assert(os[last] == os.last());
        assert forall|k: int| 0 <= k < init.len() implies #[trigger] init[k] == os[k] by {}
        match convert_items_spec(key, init) {
            Err(_) => {
                let k = choose|k: int|
                    #![trigger init[k]]
                    0 <= k < init.len() && !(decrypt_spec(key, init[k].content_enc@, init[k].nonce@) matches Some(
                        p,
                    ) && valid_utf8(p));
                assert(os[k] == init[k]);
            },
            Ok(prev) => {
                match convert_item_spec(key, os.last()) {
                    Err(_) => {},
                    Ok(x) => {
                        let s = prev.push(x);
                        assert forall|k: int| 0 <= k < os.len() implies (decrypt_spec(
                            key,
                            #[trigger] os[k].content_enc@,
                            os[k].nonce@,
                        ) matches Some(p) && valid_utf8(p)) by {
                            if k < last {
                                assert(init[k] == os[k]);
                            }
                        }
                        assert forall|k: int| 0 <= k < os.len() implies #[trigger] s[k].0 == os[k].id
                            && s[k].1 == os[k].shortname@ && s[k].2 == os[k].item_type@ && (decrypt_spec(
                            key,
                            os[k].content_enc@,
                            os[k].nonce@,
                        ) matches Some(p) && s[k].3 == decode_utf8(p)) && s[k].4 == opt_view(os[k].browser)
                            && s[k].5 == os[k].created_at@ && s[k].6 == os[k].updated_at@ by {
                            if k < last {
                                assert(init[k] == os[k]);
                                assert(s[k] == prev[k]);
                            }
                        }
                    },
                }
            },
        }
    }
}

/// The password is accepted exactly when the old vault's canary and its
/// nonce are both stored, both valid Base64, and the canary decrypts under
/// the key derived from it; a wrong password is reported as such only when
/// the canary itself is readable.
pub proof fn canary_accepts_exactly_the_right_key(key: Seq<u8>, enc: Option<Seq<char>>, nonce: Option<Seq<char>>)
    ensures
        canary_check_spec(key, enc, nonce) is Ok <==> (enc matches Some(e) && nonce matches Some(n)
            && base64_decoded(e) is Some && base64_decoded(n) is Some && decrypt_spec(
            key,
            base64_decoded(e)->0,
            base64_decoded(n)->0,
        ) is Some),
        canary_check_spec(key, enc, nonce) == Err::<(), MigrateError>(MigrateError::IncorrectPassword) <==> (
        enc matches Some(e) && nonce matches Some(n) && base64_decoded(e) is Some && base64_decoded(n) is Some
            && decrypt_spec(key, base64_decoded(e)->0, base64_decoded(n)->0) is None),
{
}

/// A new archived version as characters.
pub open spec fn new_history_view(x: NewHistory) -> (i64, Seq<char>, i64, Seq<char>) {
    (x.item_id, x.content@, x.version, x.created_at@)
}

/// What an old archived version becomes.
pub open spec fn convert_history_one(key: Seq<u8>, o: OldHistory) -> Result<(i64, Seq<char>, i64, Seq<char>), MigrateError> {
    match opened_text(key, o.content_enc@, o.nonce@) {
        Ok(c) => Ok((o.item_id, c, o.version, o.created_at@)),
        Err(false) => Err(MigrateError::HistoryUndecryptable),
        Err(true) => Err(MigrateError::HistoryNotUtf8),
    }
}

/// The old archived versions converted in order; the first that fails
/// stops it.
pub open spec fn convert_history_spec(key: Seq<u8>, os: Seq<OldHistory>) -> Result<
    Seq<(i64, Seq<char>, i64, Seq<char>)>,
    MigrateError,
>
    decreases os.len(),
{
    if os.len() == 0 {
        Ok(Seq::empty())
    } else {
        match convert_history_spec(key, os.drop_last()) {
            Err(e) => Err(e),
            Ok(prev) => match convert_history_one(key, os.last()) {
                Err(e) => Err(e),
                Ok(x) => Ok(prev.push(x)),
            },
        }
    }
}

proof fn lemma_history_prefix_err(key: Seq<u8>, os: Seq<OldHistory>, j: int)
    requires
        0 < j <= os.len(),
        convert_history_spec(key, os.take(j)) is Err,
    ensures
        convert_history_spec(key, os) == convert_history_spec(key, os.take(j)),
    decreases os.len(),
{
    if j < os.len() {
        assert(os.drop_last().take(j) =~= os.take(j));
        lemma_history_prefix_err(key, os.drop_last(), j);
    } else {
        assert(os.take(j) =~= os);
    }
}

/// Opens the content of every old archived version, in order.
pub fn convert_history(key: &[u8; 32], old: &Vec<OldHistory>) -> (r: Result<Vec<NewHistory>, MigrateError>)
    ensures
        match (r, convert_history_spec(key@, old@)) {
            (Ok(v), Ok(s)) => v@.map_values(|x: NewHistory| new_history_view(x)) == s,
            (Err(e), Err(s)) => e == s,
            _ => false,
        },
{
    let mut out: Vec<NewHistory> = Vec::new();
    let mut i: usize = 0;
    assert(old@.take(0) =~= Seq::<OldHistory>::empty());
    assert(out@.map_values(|x: NewHistory| new_history_view(x)) =~= Seq::empty());
    while i < old.len()
        invariant
            i <= old@.len(),
            convert_history_spec(key@, old@.take(i as int)) == Ok::<Seq<(i64, Seq<char>, i64, Seq<char>)>, MigrateError>(
                out@.map_values(|x: NewHistory| new_history_view(x)),
            ),
        decreases old@.len() - i,
    {
        let o = &old[i];
        let ghost cur = old@.take(i as int + 1);
        assert(cur.drop_last() =~= old@.take(i as int));
        assert(cur.last() == *o);
        let content = match open_text(key, &o.content_enc, &o.nonce) {
            Ok(c) => c,
            Err(not_utf8) => {
                proof {
                    lemma_history_prefix_err(key@, old@, i as int + 1);
                }
                if not_utf8 {
                    return Err(MigrateError::HistoryNotUtf8);
                } else {
                    return Err(MigrateError::HistoryUndecryptable);
                }
            },
        };
        let ghost old_out = out@;
        out.push(NewHistory { item_id: o.item_id, content, version: o.version, created_at: o.created_at.clone() });
        assert(out@.map_values(|x: NewHistory| new_history_view(x)) =~= old_out.map_values(
            |x: NewHistory| new_history_view(x),
        ).push(new_history_view(out@.last())));
        i = i + 1;
    }
    assert(old@.take(old@.len() as int) =~= old@);
    Ok(out)
}

/// Migrating the archived versions: it succeeds exactly when every version's
/// content decrypts under the key to UTF-8 text; then there is one new
/// version per old one, in order, with the same item, number and time, and
/// the decrypted text as its content.
pub proof fn converted_history_keeps_its_fields(key: Seq<u8>, os: Seq<OldHistory>)
    ensures
        convert_history_spec(key, os) is Ok <==> forall|k: int|
            #![trigger os[k]]
            0 <= k < os.len() ==> (decrypt_spec(key, os[k].content_enc@, os[k].nonce@) matches Some(p)
                && valid_utf8(p)),
        convert_history_spec(key, os) matches Ok(s) ==> s.len() == os.len() && forall|k: int|
            #![trigger s[k]]
            0 <= k < os.len() ==> s[k].0 == os[k].item_id && (decrypt_spec(key, os[k].content_enc@, os[k].nonce@) matches Some(
                p,
            ) && s[k].1 == decode_utf8(p)) && s[k].2 == os[k].version && s[k].3 == os[k].created_at@,
    decreases os.len(),
{
    if os.len() > 0 {
        let init = os.drop_last();
        converted_history_keeps_its_fields(key, init);
        let last = os.len() - 1;
        assert(os[last] == os.last());
        assert forall|k: int| 0 <= k < init.len() implies #[trigger] init[k] == os[k] by {}
        match convert_history_spec(key, init) {
            Err(_) => {
                let k = choose|k: int|
                    #![trigger init[k]]
                    0 <= k < init.len() && !(decrypt_spec(key, init[k].content_enc@, init[k].nonce@) matches Some(
                        p,
                    ) && valid_utf8(p));
                assert(os[k] == init[k]);
            },
            Ok(prev) => {
                match convert_history_one(key, os.last()) {
                    Err(_) => {},
                    Ok(x) => {
                        let s = prev.push(x);
                        assert forall|k: int| 0 <= k < os.len() implies (decrypt_spec(
                            key,
                            #[trigger] os[k].content_enc@,
                            os[k].nonce@,
                        ) matches Some(p) && valid_utf8(p)) by {
                            if k < last {
                                assert(init[k] == os[k]);
                            }
                        }
                        assert forall|k: int| 0 <= k < os.len() implies #[trigger] s[k].0 == os[k].item_id && (decrypt_spec(key, os[k].content_enc@, os[k].nonce@) matches Some(
                p,
            ) && s[k].1 == decode_utf8(p)) && s[k].2 == os[k].version && s[k].3 == os[k].created_at@ by {
                            if k < last {
                                assert(init[k] == os[k]);
                                assert(s[k] == prev[k]);
                            }
                        }
                    },
                }
            },
        }
    }
}

/// A new tag as characters.
pub open spec fn new_tag_view(x: NewTag) -> (i64, Seq<char>) {
    (x.item_id, x.tag@)
}

/// What an old tag becomes.
pub open spec fn convert_tag_one(key: Seq<u8>, o: OldTag) -> Result<(i64, Seq<char>), MigrateError> {
    match opened_text(key, o.tag_enc@, o.nonce@) {
        Ok(t) => Ok((o.item_id, t)),
        Err(false) => Err(MigrateError::TagUndecryptable),
        Err(true) => Err(MigrateError::TagNotUtf8),
    }
}

/// The old tags converted in order; the first that fails stops it.
pub open spec fn convert_tags_spec(key: Seq<u8>, os: Seq<OldTag>) -> Result<Seq<(i64, Seq<char>)>, MigrateError>
    decreases os.len(),
{
    if os.len() == 0 {
        Ok(Seq::empty())
    } else {
        match convert_tags_spec(key, os.drop_last()) {
            Err(e) => Err(e),
            Ok(prev) => match convert_tag_one(key, os.last()) {
                Err(e) => Err(e),
                Ok(x) => Ok(prev.push(x)),
            },
        }
    }
}

proof fn lemma_tags_prefix_err(key: Seq<u8>, os: Seq<OldTag>, j: int)
    requires
        0 < j <= os.len(),
        convert_tags_spec(key, os.take(j)) is Err,
    ensures
        convert_tags_spec(key, os) == convert_tags_spec(key, os.take(j)),
    decreases os.len(),
{
    if j < os.len() {
        assert(os.drop_last().take(j) =~= os.take(j));
        lemma_tags_prefix_err(key, os.drop_last(), j);
    } else {
        assert(os.take(j) =~= os);
    }
}

/// Opens every old tag, in order.
pub fn convert_tags(key: &[u8; 32], old: &Vec<OldTag>) -> (r: Result<Vec<NewTag>, MigrateError>)
    ensures
        match (r, convert_tags_spec(key@, old@)) {
            (Ok(v), Ok(s)) => v@.map_values(|x: NewTag| new_tag_view(x)) == s,
            (Err(e), Err(s)) => e == s,
            _ => false,
        },
{
    let mut out: Vec<NewTag> = Vec::new();
    let mut i: usize = 0;
    assert(old@.take(0) =~= Seq::<OldTag>::empty());
    assert(out@.map_values(|x: NewTag| new_tag_view(x)) =~= Seq::empty());
    while i < old.len()
        invariant
            i <= old@.len(),
            convert_tags_spec(key@, old@.take(i as int)) == Ok::<Seq<(i64, Seq<char>)>, MigrateError>(
                out@.map_values(|x: NewTag| new_tag_view(x)),
            ),
        decreases old@.len() - i,
    {
        let o = &old[i];
        let ghost cur = old@.take(i as int + 1);
        assert(cur.drop_last() =~= old@.take(i as int));
        assert(cur.last() == *o);
        let tag = match open_text(key, &o.tag_enc, &o.nonce) {
            Ok(t) => t,
            Err(not_utf8) => {
                proof {
                    lemma_tags_prefix_err(key@, old@, i as int + 1);
                }
                if not_utf8 {
                    return Err(MigrateError::TagNotUtf8);
                } else {
                    return Err(MigrateError::TagUndecryptable);
                }
            },
        };
        let ghost old_out = out@;
        out.push(NewTag { item_id: o.item_id, tag });
        assert(out@.map_values(|x: NewTag| new_tag_view(x)) =~= old_out.map_values(
            |x: NewTag| new_tag_view(x),
        ).push(new_tag_view(out@.last())));
        i = i + 1;
    }
    assert(old@.take(old@.len() as int) =~= old@);
    Ok(out)
}

/// The line that reports a finished migration.
pub open spec fn migration_summary_spec(items: nat, history: nat, tags: nat) -> Seq<char> {
    "Migration complete. "@ + decimal(items) + " item(s), "@ + decimal(history)
        + " history entry/entries, "@ + decimal(tags) + " tag(s) migrated."@
}

/// Reports a finished migration.
pub fn migration_summary(items: usize, history: usize, tags: usize) -> (r: String)
    ensures
        r@ == migration_summary_spec(items as nat, history as nat, tags as nat),
{
    let mut l = chars_of("Migration complete. ");
    append_chars(&mut l, &decimal_chars(items as u128));
    append_chars(&mut l, &chars_of(" item(s), "));
    append_chars(&mut l, &decimal_chars(history as u128));
    append_chars(&mut l, &chars_of(" history entry/entries, "));
    append_chars(&mut l, &decimal_chars(tags as u128));
    append_chars(&mut l, &chars_of(" tag(s) migrated."));
    string_from_chars(l)
}

/// Migrating the tags: it succeeds exactly when every tag decrypts under the
/// key to UTF-8 text; then there is one new tag per old one, in order, on
/// the same item, with the decrypted text.
pub proof fn converted_tags_keep_their_items(key: Seq<u8>, os: Seq<OldTag>)
    ensures
        convert_tags_spec(key, os) is Ok <==> forall|k: int|
            #![trigger os[k]]
            0 <= k < os.len() ==> (decrypt_spec(key, os[k].tag_enc@, os[k].nonce@) matches Some(p)
                && valid_utf8(p)),
        convert_tags_spec(key, os) matches Ok(s) ==> s.len() == os.len() && forall|k: int|
            #![trigger s[k]]
            0 <= k < os.len() ==> s[k].0 == os[k].item_id && (decrypt_spec(key, os[k].tag_enc@, os[k].nonce@) matches Some(p)
                && s[k].1 == decode_utf8(p)),
    decreases os.len(),
{
    if os.len() > 0 {
        let init = os.drop_last();
        converted_tags_keep_their_items(key, init);
        let last = os.len() - 1;
        assert(os[last] == os.last());
        assert forall|k: int| 0 <= k < init.len() implies #[trigger] init[k] == os[k] by {}
        match convert_tags_spec(key, init) {
            Err(_) => {
                let k = choose|k: int|
                    #![trigger init[k]]
                    0 <= k < init.len() && !(decrypt_spec(key, init[k].tag_enc@, init[k].nonce@) matches Some(
                        p,
                    ) && valid_utf8(p));
                assert(os[k] == init[k]);
            },
            Ok(prev) => {
                match convert_tag_one(key, os.last()) {
                    Err(_) => {},
                    Ok(x) => {
                        let s = prev.push(x);
                        assert forall|k: int| 0 <= k < os.len() implies (decrypt_spec(
                            key,
                            #[trigger] os[k].tag_enc@,
                            os[k].nonce@,
                        ) matches Some(p) && valid_utf8(p)) by {
                            if k < last {
                                assert(init[k] == os[k]);
                            }
                        }
                        assert forall|k: int| 0 <= k < os.len() implies #[trigger] s[k].0 == os[k].item_id && (decrypt_spec(key, os[k].tag_enc@, os[k].nonce@) matches Some(p)
                && s[k].1 == decode_utf8(p)) by {
                            if k < last {
                                assert(init[k] == os[k]);
                                assert(s[k] == prev[k]);
                            }
                        }
                    },
                }
            },
        }
    }
}

} // verus!
