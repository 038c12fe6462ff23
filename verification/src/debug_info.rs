//! Debug maps as they are found on disk.
use vstd::prelude::*;

use crate::debug_map::ProgramDebugMap;

verus! {

/// What is found where a debug map is looked for.
pub enum Found {
    /// No file.
    Missing,
    /// A file that cannot be read.
    Unreadable,
    /// A file that holds no debug map.
    Malformed,
    /// A file that holds this debug map.
    Parsed(ProgramDebugMap),
}

/// The debug map that has been found at the path. That there is none is no error; the errors name the
/// path.
pub open spec fn loaded(path: Seq<char>, found: Found) -> Result<
    Option<ProgramDebugMap>,
    Seq<char>,
> {
    match found {
        Found::Missing => Ok(None),
        Found::Unreadable => Err("failed to read debug info at "@ + path),
        Found::Malformed => Err("failed to parse debug info at "@ + path),
        Found::Parsed(map) => Ok(Some(map)),
    }
}

/// What loading a debug map came to.
pub open spec fn load_view(result: Result<Option<ProgramDebugMap>, String>) -> Result<
    Option<ProgramDebugMap>,
    Seq<char>,
> {
    match result {
        Ok(map) => Ok(map),
        Err(text) => Err(text@),
    }
}

/// The debug map that has been found at the path. That there is none is no error.
pub fn load(path: &str, found: Found) -> (result: Result<Option<ProgramDebugMap>, String>)
    ensures
        load_view(result) == loaded(path@, found),
{
    match found {
        Found::Missing => Ok(None),
        Found::Unreadable => {
            let mut text = "failed to read debug info at ".to_string();
            text.append(path);
            Err(text)
        },
        Found::Malformed => {
            let mut text = "failed to parse debug info at ".to_string();
            text.append(path);
            Err(text)
        },
        Found::Parsed(map) => Ok(Some(map)),
    }
}

} // verus!
