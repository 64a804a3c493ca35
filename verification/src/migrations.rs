//! Changes to the database's tables.
use crate::text;
use vstd::prelude::*;

verus! {

/// The statements of a migration that are still to be run: none where it was applied before, and else each
/// part of it between blank lines.
pub fn apply_migration(applied: bool, sql: &str) -> (r: Option<Vec<String>>)
    ensures
        match r {
            Some(v) => !applied && text::texts(v@) == text::split_text(sql@, "\n\n"@),
            None => applied,
        },
{
    if applied {
        None
    } else {
        proof {
            reveal_strlit("\n\n");
        }
        Some(text::split(sql, "\n\n"))
    }
}

/// The statements of a migration, with blank lines between them, are the migration: nothing is left out.
pub proof fn statements_are_the_migration(sql: Seq<char>)
    ensures
        text::join_text(text::split_text(sql, "\n\n"@), "\n\n"@) == sql,
{
    reveal_strlit("\n\n");
    text::join_undoes_split(sql, "\n\n"@);
}

} // verus!
