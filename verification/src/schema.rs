//! Opening the encrypted vault: what a refused key means, and the columns
//! that older vaults lack.

use vstd::prelude::*;

use crate::tagging::strings_view;
use crate::text::str_eq;

verus! {

/// Why the vault did not open.
#[derive(Clone, Copy, Debug, PartialEq, Eq, Structural)]
pub enum OpenFailure {
    /// The file is a vault in the old, unencrypted format: migrate it.
    OldFormat,
    /// The key is wrong, or the file is damaged.
    WrongKeyOrCorrupt,
    /// Any other error, reported as it is.
    Other,
}

/// Classifies an error of the first statements run on a vault.
/// `not_a_database` is SQLite's "file is not a database" (what a wrong key
/// gives); only then do the files matter: a vault file without a salt file
/// is in the old format.
pub fn classify_open_error(not_a_database: bool, db_exists: bool, salt_exists: bool) -> (r: OpenFailure)
    ensures
        !not_a_database ==> r == OpenFailure::Other,
        not_a_database && db_exists && !salt_exists ==> r == OpenFailure::OldFormat,
        not_a_database && !(db_exists && !salt_exists) ==> r == OpenFailure::WrongKeyOrCorrupt,
{
    if !not_a_database {
        OpenFailure::Other
    } else if db_exists && !salt_exists {
        OpenFailure::OldFormat
    } else {
        OpenFailure::WrongKeyOrCorrupt
    }
}

/// Whether `name` is among the column names.
pub open spec fn has_column(cols: Seq<Seq<char>>, name: Seq<char>) -> bool {
    cols.contains(name)
}

/// The statements that bring an older vault's tables up to date: the
/// `browser`, `private` and `title` columns of `items`, then the `title`
/// column of `history`, each added where it is missing.
pub open spec fn upgrade_statements_spec(item_cols: Seq<Seq<char>>, history_cols: Seq<Seq<char>>) -> Seq<Seq<char>> {
    (if has_column(item_cols, "browser"@) {
        Seq::empty()
    } else {
        seq!["ALTER TABLE items ADD COLUMN browser TEXT"@]
    }) + (if has_column(item_cols, "private"@) {
        Seq::empty()
    } else {
        seq!["ALTER TABLE items ADD COLUMN private INTEGER"@]
    }) + (if has_column(item_cols, "title"@) {
        Seq::empty()
    } else {
        seq!["ALTER TABLE items ADD COLUMN title TEXT"@]
    }) + (if has_column(history_cols, "title"@) {
        Seq::empty()
    } else {
        seq!["ALTER TABLE history ADD COLUMN title TEXT"@]
    })
}

/// Bringing the tables up to date is idempotent: once the columns are
/// there, nothing is left to add.
pub proof fn upgrades_are_idempotent(item_cols: Seq<Seq<char>>, history_cols: Seq<Seq<char>>)
    ensures
        upgrade_statements_spec(
            item_cols.push("browser"@).push("private"@).push("title"@),
            history_cols.push("title"@),
        ) == Seq::<Seq<char>>::empty(),
{
    let ic = item_cols.push("browser"@).push("private"@).push("title"@);
    let hc = history_cols.push("title"@);
    assert(ic[ic.len() - 3] == "browser"@);
    assert(ic[ic.len() - 2] == "private"@);
    assert(ic[ic.len() - 1] == "title"@);
    assert(hc[hc.len() - 1] == "title"@);
    assert(upgrade_statements_spec(ic, hc) =~= Seq::<Seq<char>>::empty());
}

/// `name` as a one-column list where `cols` lacks it, else nothing.
pub open spec fn column_if_missing(cols: Seq<Seq<char>>, name: Seq<char>) -> Seq<Seq<char>> {
    if has_column(cols, name) {
        Seq::empty()
    } else {
        seq![name]
    }
}

/// The columns of `items` once the upgrade statements have run: the old
/// ones, then each added column in the order the statements add it.
pub open spec fn item_columns_after(item_cols: Seq<Seq<char>>) -> Seq<Seq<char>> {
    item_cols + column_if_missing(item_cols, "browser"@) + column_if_missing(item_cols, "private"@)
        + column_if_missing(item_cols, "title"@)
}

/// The columns of `history` once the upgrade statements have run.
pub open spec fn history_columns_after(history_cols: Seq<Seq<char>>) -> Seq<Seq<char>> {
    history_cols + column_if_missing(history_cols, "title"@)
}

proof fn column_present_after(cols: Seq<Seq<char>>, extra: Seq<Seq<char>>, name: Seq<char>)
    requires
        has_column(cols, name) || extra.contains(name),
    ensures
        has_column(cols + extra, name),
{
    if has_column(cols, name) {
        let i = choose|i: int| 0 <= i < cols.len() && cols[i] == name;
        assert((cols + extra)[i] == name);
    } else {
        let i = choose|i: int| 0 <= i < extra.len() && extra[i] == name;
        assert((cols + extra)[cols.len() + i] == name);
    }
}

/// Upgrading an older vault's tables: afterwards `items` has the columns
/// `browser`, `private` and `title` and `history` has `title`; the columns
/// it had are kept, first and in their order; one column is added per
/// statement; and a second upgrade has nothing left to run.
pub proof fn upgrade_completes_columns(item_cols: Seq<Seq<char>>, history_cols: Seq<Seq<char>>)
    ensures
        has_column(item_columns_after(item_cols), "browser"@),
        has_column(item_columns_after(item_cols), "private"@),
        has_column(item_columns_after(item_cols), "title"@),
        has_column(history_columns_after(history_cols), "title"@),
        item_columns_after(item_cols).take(item_cols.len() as int) == item_cols,
        history_columns_after(history_cols).take(history_cols.len() as int) == history_cols,
        item_columns_after(item_cols).len() + history_columns_after(history_cols).len() == item_cols.len()
            + history_cols.len() + upgrade_statements_spec(item_cols, history_cols).len(),
        upgrade_statements_spec(item_columns_after(item_cols), history_columns_after(history_cols))
            == Seq::<Seq<char>>::empty(),
{
    let b = column_if_missing(item_cols, "browser"@);
    let p = column_if_missing(item_cols, "private"@);
    let t = column_if_missing(item_cols, "title"@);
    let ic2 = item_columns_after(item_cols);
    assert(ic2 == item_cols + (b + p + t));
    assert(seq!["browser"@][0] == "browser"@);
    assert(seq!["private"@][0] == "private"@);
    assert(seq!["title"@][0] == "title"@);
    if !has_column(item_cols, "browser"@) {
        assert((b + p + t)[0] == "browser"@);
    }
    if !has_column(item_cols, "private"@) {
        assert((b + p + t)[b.len() as int] == "private"@);
    }
    if !has_column(item_cols, "title"@) {
        assert((b + p + t)[(b.len() + p.len()) as int] == "title"@);
    }
    column_present_after(item_cols, b + p + t, "browser"@);
    column_present_after(item_cols, b + p + t, "private"@);
    column_present_after(item_cols, b + p + t, "title"@);
    let h = column_if_missing(history_cols, "title"@);
    if !has_column(history_cols, "title"@) {
        assert(h[0] == "title"@);
    }
    column_present_after(history_cols, h, "title"@);
    assert(ic2.take(item_cols.len() as int) =~= item_cols);
    assert(history_columns_after(history_cols).take(history_cols.len() as int) =~= history_cols);
    assert(upgrade_statements_spec(ic2, history_columns_after(history_cols)) =~= Seq::<
        Seq<char>,
    >::empty());
}

fn contains_name(cols: &Vec<String>, name: &str) -> (r: bool)
    ensures
        r == has_column(strings_view(cols@), name@),
{
    let ghost cv = strings_view(cols@);
    let mut i: usize = 0;
    while i < cols.len()
        invariant
            i <= cols@.len(),
            cv == strings_view(cols@),
            forall|k: int| 0 <= k < i ==> cv[k] != name@,
        decreases cols@.len() - i,
    {
        if str_eq(cols[i].as_str(), name) {
            assert(cv[i as int] == name@);
            return true;
        }
        i = i + 1;
    }
    false
}

/// The statements to run on a vault whose `items` and `history` tables have
/// the given columns.
pub fn upgrade_statements(item_cols: &Vec<String>, history_cols: &Vec<String>) -> (r: Vec<&'static str>)
    ensures
        r@.map_values(|s: &str| s@) == upgrade_statements_spec(
            strings_view(item_cols@),
            strings_view(history_cols@),
        ),
{
    let mut out: Vec<&'static str> = Vec::new();
    if !contains_name(item_cols, "browser") {
        out.push("ALTER TABLE items ADD COLUMN browser TEXT");
    }
    let ghost a = out@;
    if !contains_name(item_cols, "private") {
        out.push("ALTER TABLE items ADD COLUMN private INTEGER");
    }
    let ghost b = out@;
    if !contains_name(item_cols, "title") {
        out.push("ALTER TABLE items ADD COLUMN title TEXT");
    }
    let ghost c = out@;
    if !contains_name(history_cols, "title") {
        out.push("ALTER TABLE history ADD COLUMN title TEXT");
    }
    assert(out@.map_values(|s: &str| s@) =~= upgrade_statements_spec(
        strings_view(item_cols@),
        strings_view(history_cols@),
    ));
    out
}

} // verus!
