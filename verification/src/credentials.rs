//! The rules for the API key: which of the places it may come from counts,
//! and what may be stored.

use vstd::prelude::*;
use vstd::string::*;
use crate::text::{is_blank, text_of, trim, trimmed};

verus! {

/// The variable of the environment that may hold the key.
pub const KEY_VARIABLE: &'static str = "GEMINI_API_KEY";

/// The directory of the application below the user's configuration.
pub const CONFIG_DIRECTORY: &'static str = "mojimix";

/// The file that holds the stored key.
pub const KEY_FILE: &'static str = "api_key";

/// What an attempt to store a blank key is refused with.
pub const EMPTY_KEY: &'static str = "API key cannot be empty";

/// What a request without a key is refused with.
pub const NO_KEY: &'static str = "No API key configured";

/// The key that the environment gives, taken by itself.
pub open spec fn environment_key(value: Option<String>) -> Option<Seq<char>> {
    match value {
        Some(v) => if is_blank(v@) {
            None
        } else {
            Some(v@)
        },
        None => None,
    }
}

/// The key that the key file gives, taken by itself.
pub open spec fn file_key(contents: Option<String>) -> Option<Seq<char>> {
    match contents {
        Some(c) => if is_blank(c@) {
            None
        } else {
            Some(trimmed(c@))
        },
        None => None,
    }
}

/// The key in force: the environment's if it gives one, else the key
/// file's.
pub open spec fn key_in_force(value: Option<String>, contents: Option<String>) -> Option<
    Seq<char>,
> {
    match environment_key(value) {
        Some(key) => Some(key),
        None => file_key(contents),
    }
}

/// The key that the environment gives: the variable's value as it is,
/// unless it is unset or blank.
pub fn key_from_environment(value: Option<String>) -> (key: Option<String>)
    ensures
        text_of(key) == environment_key(value),
{
    match value {
        Some(v) => {
            if trim(v.as_str()).as_str().unicode_len() == 0 {
                None
            } else {
                Some(v)
            }
        },
        None => None,
    }
}

/// The key that the key file gives: its contents trimmed, unless the file
/// could not be read or holds nothing but white space.
pub fn key_from_file(contents: Option<String>) -> (key: Option<String>)
    ensures
        text_of(key) == file_key(contents),
{
    match contents {
        Some(c) => {
            let key: String = trim(c.as_str());
            if key.as_str().unicode_len() == 0 {
                None
            } else {
                Some(key)
            }
        },
        None => None,
    }
}

/// Chooses the key: the environment comes first, and the key file counts
/// only where the environment gives none.
pub fn choose_key(value: Option<String>, contents: Option<String>) -> (key: Option<String>)
    ensures
        text_of(key) == key_in_force(value, contents),
{
    match key_from_environment(value) {
        Some(key) => Some(key),
        None => key_from_file(contents),
    }
}

/// The key as it is stored: trimmed. A blank key is refused.
pub fn key_to_store(key: &str) -> (r: Result<String, String>)
    ensures
        match r {
            Ok(k) => !is_blank(key@) && k@ == trimmed(key@),
            Err(e) => is_blank(key@) && e@ == EMPTY_KEY@,
        },
{
    let trimmed_key: String = trim(key);
    if trimmed_key.as_str().unicode_len() == 0 {
        Err(String::from_str(EMPTY_KEY))
    } else {
        Ok(trimmed_key)
    }
}

} // verus!
