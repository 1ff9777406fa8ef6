//! Where the files of the dictionary are kept.

use crate::error::AppError;
use std::path::PathBuf;
use vstd::prelude::*;
use vstd::string::StringExecFns;

verus! {

/// The directory of the dictionary, below the user's home directory.
pub const DATA_DIRECTORY: &'static str = ".local/share/rdict";

/// The corpus, in the directory of the dictionary.
pub const CORPUS_FILE: &'static str = "en.jsonl";

/// The corpus while it is being downloaded. It takes the corpus's name only
/// once it is complete.
pub const PARTIAL_FILE: &'static str = "en.jsonl.part";

/// The store, in the directory of the dictionary.
pub const STORE_FILE: &'static str = "en.db";

/// What is said where there is no home directory.
pub open spec fn no_home_text() -> Seq<char> {
    "Failed to retrieve home directory"@
}

/// A path of the file system. Nothing is known of it: it only passes
/// through.
#[verifier::external_type_specification]
#[verifier::external_body]
pub struct ExPathBuf(PathBuf);

/// `dirs::home_dir`: the home directory of the user who runs the program,
/// where the environment tells one. Nothing is stated of it.
#[verifier::external_body]
fn home_dir() -> Option<PathBuf> {
    dirs::home_dir()
}

/// The home directory `found`, or the error for a user without one.
pub fn home_directory_from(found: Option<PathBuf>) -> (r: Result<PathBuf, AppError>)
    ensures
        match found {
            Some(path) => r == Ok::<PathBuf, AppError>(path),
            None => r matches Err(AppError::Box(message)) && message@ == no_home_text(),
        },
{
    match found {
        Some(path) => Ok(path),
        None => Err(AppError::Box(String::from_str("Failed to retrieve home directory"))),
    }
}

/// The home directory of the user. The one error that can come says that
/// there is none.
pub fn get_home_directory() -> (r: Result<PathBuf, AppError>)
    ensures
        r matches Err(e) ==> e matches AppError::Box(message) && message@ == no_home_text(),
{
    home_directory_from(home_dir())
}

} // verus!
