//! What the rows that the database returns mean to the caller.
use crate::error::{AppError, AppErrorType};
use crate::models::{QuestionId, Tag, TagId};
use vstd::prelude::*;
use vstd::string::StringExecFns;

verus! {

/// Whether an error is the one that stands for a statement that returned no row.
pub open spec fn is_missing_row(error: AppError) -> bool {
    &&& error.cause.is_some() && error.cause.unwrap()@ == "Unknown error"@
    &&& error.message.is_some() && error.message.unwrap()@ == "Error creating todolist"@
    &&& error.error_type == AppErrorType::DbError
}

/// The error for a statement that returned no row.
pub fn missing_row() -> (error: AppError)
    ensures
        is_missing_row(error),
{
    AppError {
        cause: Some(String::from_str("Unknown error")),
        message: Some(String::from_str("Error creating todolist")),
        error_type: AppErrorType::DbError,
    }
}

/// The last of the rows that a statement returned, or the error for no row.
pub fn last_row<T>(rows: Vec<T>) -> (outcome: Result<T, AppError>)
    ensures
        match outcome {
            Ok(row) => rows@.len() > 0 && row == rows@.last(),
            Err(error) => rows@.len() == 0 && is_missing_row(error),
        },
{
    let mut rows = rows;
    match rows.pop() {
        Some(row) => Ok(row),
        None => Err(missing_row()),
    }
}

/// What the insertion of a question gave: the identifier of the question that
/// was created, or nothing where the question was there and no row came back.
pub fn create_or_skip(rows: Vec<QuestionId>) -> (created: Option<QuestionId>)
    ensures
        created == if rows@.len() > 0 {
            Some(rows@.last())
        } else {
            None
        },
{
    let mut rows = rows;
    rows.pop()
}

/// The identifier of the tag that was found or created for a title.
pub fn get_tag_id(rows: Vec<TagId>) -> (outcome: Result<TagId, AppError>)
    ensures
        match outcome {
            Ok(row) => rows@.len() > 0 && row == rows@.last(),
            Err(error) => rows@.len() == 0 && is_missing_row(error),
        },
{
    last_row(rows)
}

/// The tag that was created.
pub fn create_tag(rows: Vec<Tag>) -> (outcome: Result<Tag, AppError>)
    ensures
        match outcome {
            Ok(row) => rows@.len() > 0 && row == rows@.last(),
            Err(error) => rows@.len() == 0 && is_missing_row(error),
        },
{
    last_row(rows)
}

/// Whether an update of a tag changed the tag: it changed exactly one row.
pub fn update_tag(changed: u64) -> (updated: bool)
    ensures
        updated == (changed == 1),
{
    changed == 1
}

/// Whether the insertion of a link made the link: it changed exactly one row.
pub fn create_tag_quest_rel(changed: u64) -> (created: bool)
    ensures
        created == (changed == 1),
{
    changed == 1
}

} // verus!
