//! The decisions that formatting makes around the formatter itself: what
//! a program must have captured to be formatted, and what is returned for
//! the formatter's output.

use vstd::prelude::*;

use crate::text::str_eq;

verus! {

/// The message for a program whose text info was not provided.
pub open spec fn missing_text_info_message() -> Seq<char> {
    "The text info must be provided in order to format a program."@
}

/// The message for a program whose tokens were not captured.
pub open spec fn missing_tokens_message() -> Seq<char> {
    "The tokens must be captured in order to format a program."@
}

/// The message for a program whose comments were not captured.
pub open spec fn missing_comments_message() -> Seq<char> {
    "The comments must be captured in order to format a program."@
}

/// Checks that a program has what formatting needs, in this order: its
/// text info, its tokens and its comments. The error names the first that
/// is missing.
pub fn check_program_captured(has_text_info: bool, has_tokens: bool, has_comments: bool) -> (res: Result<(), String>)
    ensures
        !has_text_info ==> (res matches Err(e) && e@ == missing_text_info_message()),
        has_text_info && !has_tokens ==> (res matches Err(e) && e@ == missing_tokens_message()),
        has_text_info && has_tokens && !has_comments ==> (res matches Err(e) && e@ == missing_comments_message()),
        has_text_info && has_tokens && has_comments ==> res is Ok,
{
    if !has_text_info {
        return Err(String::from_str("The text info must be provided in order to format a program."));
    }
    if !has_tokens {
        return Err(String::from_str("The tokens must be captured in order to format a program."));
    }
    if !has_comments {
        return Err(String::from_str("The comments must be captured in order to format a program."));
    }
    Ok(())
}

/// The formatter's output as a change: `None` when it is the file's text,
/// and otherwise the output.
pub fn changed_text(result: String, file_text: &str) -> (res: Option<String>)
    ensures
        result@ == file_text@ ==> res is None,
        result@ != file_text@ ==> (res matches Some(s) && s@ == result@),
{
    if str_eq(result.as_str(), file_text) {
        None
    } else {
        Some(result)
    }
}

/// What formatting a file returns for the formatted program: the
/// formatted text when it changed, and otherwise the text without its byte
/// order mark when the file had one (removing it is a change), or `None`.
pub fn format_text_result(had_bom: bool, formatted: Option<String>, text_without_bom: &str) -> (res: Option<String>)
    ensures
        formatted is Some ==> res == formatted,
        formatted is None && had_bom ==> (res matches Some(s) && s@ == text_without_bom@),
        formatted is None && !had_bom ==> res is None,
{
    match formatted {
        Some(new_text) => Some(new_text),
        None => {
            if had_bom {
                Some(String::from_str(text_without_bom))
            } else {
                None
            }
        },
    }
}

} // verus!
