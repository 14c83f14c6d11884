//! The conversion of a line-delimited file into one JSON array.

use vstd::prelude::*;
use vstd::string::StringExecFns;

use crate::json::{json_pretty, lines_documents, pretty_array_of_lines, JsonView};

verus! {

/// Why a path cannot name the output of a conversion.
#[derive(Debug)]
pub enum InvalidPathError {
    NoFileStem(String),
    NoParentDir(String),
}

/// Why a line-delimited file was not converted. The first of the two texts
/// of a variant is the path of the file concerned, the last says what went
/// wrong. The writing of the array itself cannot fail.
#[derive(Debug)]
pub enum FileConversionError {
    ReadFileContents(String, String),
    WriteIntoFile(String, String),
    InvalidPath(InvalidPathError),
    CreateOutputFile(String, String),
}

/// The name of the file that the conversion of the file at `path` writes,
/// next to that file: the file's stem and the extension `json`. `file_stem`
/// is the stem of `path` where it has one, and `has_parent` says whether
/// `path` has a parent directory.
pub fn json_file_name(path: &str, file_stem: Option<&str>, has_parent: bool) -> (r: Result<
    String,
    InvalidPathError,
>)
    ensures
        match file_stem {
            Some(stem) => if has_parent {
                r matches Ok(name) && name@ == stem@ + ".json"@
            } else {
                r matches Err(InvalidPathError::NoParentDir(p)) && p@ == path@
            },
            None => r matches Err(InvalidPathError::NoFileStem(p)) && p@ == path@,
        },
{
    match file_stem {
        Some(stem) => {
            if has_parent {
                let mut name = String::from_str(stem);
                name.append(".json");
                Ok(name)
            } else {
                Err(InvalidPathError::NoParentDir(String::from_str(path)))
            }
        },
        None => Err(InvalidPathError::NoFileStem(String::from_str(path))),
    }
}

/// Converts the lines of a line-delimited file into the text of one
/// indented JSON array of the documents that the lines hold. A line that is
/// no JSON is passed over.
pub fn convert_jsonl_file_into_json(lines: &Vec<String>) -> (r: String)
    ensures
        r@ == json_pretty(JsonView::Array(lines_documents(lines@))),
{
    pretty_array_of_lines(lines)
}

} // verus!
