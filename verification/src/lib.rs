//! A personal-finance record keeper built around a verified, generic
//! undo/redo engine.
//!
//! Every mutating command opens a *step*; each row-level write performed
//! through the CRUD facade captures the operation that would reverse it,
//! anchored to the open step.  Undoing replays the most recent step's
//! captured operations in reverse, atomically, then discards the step.
//! Retention is bounded: only the most recent steps are kept.

use vstd::prelude::*;

pub mod accounts;
pub mod date;
pub mod db;
pub mod engine;
pub mod migrate;
pub mod model;
pub mod facade;
pub mod info;
pub mod laws;
pub mod numfmt;
pub mod rowmap;
pub mod store;
pub mod tags;
pub mod undo;

verus! {

/// Errors surfaced by the store and the command layer.
///
/// Variants carry only the data needed to render a message, so every
/// contract can pin down the exact error value.
#[derive(Debug, PartialEq, Eq)]
pub enum DbError {
    /// A migration script failed; the persisted version reflects only
    /// fully-committed migrations.
    MigrationFailure { name: String },
    /// No undoable step exists.
    NothingToUndo,
    /// A uniqueness constraint rejected a write and no pre-existing row
    /// could stand in for it.
    NotUnique,
    /// An account or alias was looked up and not found.
    AccountNotFound,
    /// A numeric identifier could not be parsed.
    InvalidId,
    /// A date's components do not form a calendar day.
    InvalidDate,
    /// The space of row or step identifiers is exhausted.
    Full,
    /// A persisted undo history could not be validated against the
    /// loaded tables.
    InvalidHistory,
}

impl DbError {
    /// A single-line message for the operator, as the command layer shows it.
    pub fn message(&self) -> (r: String)
        ensures
            r@.len() > 0,
    {
        let s: &str = match self {
            DbError::MigrationFailure { name: _ } => "failed to apply migration.",
            DbError::NothingToUndo => "there is nothing to undo.",
            DbError::NotUnique => "values are not unique, but can't find the duplicate.",
            DbError::AccountNotFound => "account or alias not found.",
            DbError::InvalidId => "id is not a number",
            DbError::InvalidDate => "the date is not a calendar day.",
            DbError::Full => "the store is full.",
            DbError::InvalidHistory => "the undo history does not match the data.",
        };
        proof {
            reveal_strlit("failed to apply migration.");
            reveal_strlit("there is nothing to undo.");
            reveal_strlit("values are not unique, but can't find the duplicate.");
            reveal_strlit("account or alias not found.");
            reveal_strlit("id is not a number");
            reveal_strlit("the date is not a calendar day.");
            reveal_strlit("the store is full.");
            reveal_strlit("the undo history does not match the data.");
        }
        String::from_str(s)
    }
}

/// Runs the action behind an operator confirmation prompt.  The prompt
/// itself is shown by the surrounding program; the library always
/// proceeds.
pub fn with_confirmation<F: FnOnce() -> Result<(), DbError>>(prompt: &str, action: F) -> (r:
    Result<(), DbError>)
    requires
        action.requires(()),
    ensures
        action.ensures((), r),
{
    let _ = prompt;
    action()
}

} // verus!
