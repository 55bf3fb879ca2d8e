//! The statements of the chat database's schema upgrade, and when it is
//! needed.  Running them on the SQLite file is the caller's part.

use vstd::prelude::*;

use crate::text::{chars_eq, chars_of, extend_str, string_of, string_views};

verus! {

/// Whether `column` is among the column `names` of a table.
pub fn column_listed(names: &Vec<String>, column: &str) -> (r: bool)
    ensures
        r == string_views(names@).contains(column@),
{
    let c = chars_of(column);
    let mut i: usize = 0;
    while i < names.len()
        invariant
            i <= names@.len(),
            c@ == column@,
            forall|k: int| 0 <= k < i ==> string_views(names@)[k] != column@,
        decreases names@.len() - i,
    {
        if chars_eq(&chars_of(&names[i]), &c) {
            assert(string_views(names@)[i as int] == column@);
            return true;
        }
        i = i + 1;
    }
    false
}

/// The statement listing the columns of `table`.
pub fn table_info_sql(table: &str) -> (r: String)
    ensures
        r@ == "PRAGMA table_info("@ + table@ + ")"@,
{
    let mut v: Vec<char> = Vec::new();
    extend_str(&mut v, "PRAGMA table_info(");
    extend_str(&mut v, table);
    extend_str(&mut v, ")");
    string_of(&v)
}

/// The statement adding `column` with declaration `decl` to `table`.
pub fn add_column_sql(table: &str, column: &str, decl: &str) -> (r: String)
    ensures
        r@ == "ALTER TABLE "@ + table@ + " ADD COLUMN "@ + column@ + " "@ + decl@,
{
    let mut v: Vec<char> = Vec::new();
    extend_str(&mut v, "ALTER TABLE ");
    extend_str(&mut v, table);
    extend_str(&mut v, " ADD COLUMN ");
    extend_str(&mut v, column);
    extend_str(&mut v, " ");
    extend_str(&mut v, decl);
    string_of(&v)
}

/// The upgrade for a table with columns `names`: the statement that adds
/// `column`, or none when it is already there.
pub fn column_upgrade(names: &Vec<String>, table: &str, column: &str, decl: &str) -> (r: Option<String>)
    ensures
        string_views(names@).contains(column@) ==> r is None,
        !string_views(names@).contains(column@) ==> (r matches Some(s) && s@ == "ALTER TABLE "@
            + table@ + " ADD COLUMN "@ + column@ + " "@ + decl@),
{
    if column_listed(names, column) {
        None
    } else {
        Some(add_column_sql(table, column, decl))
    }
}

} // verus!
