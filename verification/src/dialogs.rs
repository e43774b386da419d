//! What is asked before something is undone or deleted, and what follows the answer.
use vstd::prelude::*;
use crate::clips::{is_deletable_recording, may_be_deleted};
use crate::install::{is_below, is_in_user_cache};
use crate::text::{cat2, cat3};

verus! {

/// A question with a way out: what it asks, and the answer that goes ahead.
#[derive(Debug, PartialEq, Eq)]
pub struct Question {
    pub heading: String,
    pub body: String,
    /// The name of the answer that goes ahead.
    pub answer: &'static str,
    pub label: &'static str,
}

/// What a question says.
#[verifier::ext_equal]
pub struct QuestionModel {
    pub heading: Seq<char>,
    pub body: Seq<char>,
    pub answer: Seq<char>,
    pub label: Seq<char>,
}

impl DeepView for Question {
    type V = QuestionModel;

    open spec fn deep_view(&self) -> QuestionModel {
        QuestionModel {
            heading: self.heading@,
            body: self.body@,
            answer: self.answer@,
            label: self.label@,
        }
    }
}

/// Asks whether the system's own settings should be restored.
pub fn confirm_revert() -> (r: Question)
    ensures
        r.deep_view() == (QuestionModel {
            heading: "Restore the system's own settings?"@,
            body: "The two files Raven Gaming wrote are deleted, so the kernel's defaults come back at the next boot. The values already in force stay until then.\n\nLarge games may stop starting again if the memory-mapping limit was what was keeping them running."@,
            answer: "revert"@,
            label: "Restore defaults"@,
        }),
{
    Question {
        heading: String::from_str("Restore the system's own settings?"),
        body: String::from_str(
            "The two files Raven Gaming wrote are deleted, so the kernel's defaults come back at the next boot. The values already in force stay until then.\n\nLarge games may stop starting again if the memory-mapping limit was what was keeping them running.",
        ),
        answer: "revert",
        label: "Restore defaults",
    }
}

/// Asks whether a shader cache should be cleared; an error where it is not inside the cache, which
/// `resolved` and `cache` decide: the path and the cache directory with every link resolved.
pub fn confirm_clear_cache(path: &str, resolved: Option<&str>, cache: Option<&str>) -> (r: Result<
    Question,
    String,
>)
    ensures
        r is Ok <==> resolved is Some && cache is Some && is_below(resolved->0@, cache->0@),
        r is Ok ==> r->Ok_0.deep_view() == (QuestionModel {
            heading: "Clear the shader cache?"@,
            body: path@
                + " is deleted. Nothing is lost permanently — games rebuild their shaders — but the next run of each game will stutter while it does."@,
            answer: "clear"@,
            label: "Clear"@,
        }),
        r is Err ==> r->Err_0@
            == "That folder is not inside your cache, so it will not be touched"@,
{
    if !is_in_user_cache(resolved, cache) {
        return Err(
            String::from_str("That folder is not inside your cache, so it will not be touched"),
        );
    }
    Ok(
        Question {
            heading: String::from_str("Clear the shader cache?"),
            body: cat2(
                path,
                " is deleted. Nothing is lost permanently — games rebuild their shaders — but the next run of each game will stutter while it does.",
            ),
            answer: "clear",
            label: "Clear",
        },
    )
}

/// What follows an answer.
#[derive(Debug, PartialEq, Eq)]
pub enum Answered {
    /// Nothing is done.
    Declined,
    /// It may be deleted.
    Delete,
    /// It may not, and this is said.
    Refused(&'static str),
}

/// What follows the answer to clearing a cache. Where the cache is is looked at again: the question
/// has been open, and looking is cheap next to deleting the wrong directory.
pub fn clear_answered(answer: &str, resolved: Option<&str>, cache: Option<&str>) -> (r: Answered)
    ensures
        r is Declined <==> answer@ != "clear"@,
        r is Delete <==> answer@ == "clear"@ && resolved is Some && cache is Some && is_below(
            resolved->0@,
            cache->0@,
        ),
        r is Refused ==> r->Refused_0@
            == "That folder is not inside your cache, so it was not touched"@,
{
    if !crate::text::equal(answer, "clear") {
        Answered::Declined
    } else if is_in_user_cache(resolved, cache) {
        Answered::Delete
    } else {
        Answered::Refused("That folder is not inside your cache, so it was not touched")
    }
}

/// What is said after a cache was cleared, or could not be.
pub fn clear_outcome(error: Option<&str>) -> (r: String)
    ensures
        r@ == (match error {
            Some(e) => "Could not clear it: "@ + e@,
            None => "Shader cache cleared"@,
        }),
{
    match error {
        Some(e) => cat2("Could not clear it: ", e),
        None => String::from_str("Shader cache cleared"),
    }
}

/// Asks whether a recording should be deleted.
pub fn confirm_delete_recording(name: &str) -> (r: Question)
    ensures
        r.deep_view() == (QuestionModel {
            heading: "Delete "@ + name@ + "?"@,
            body: "The recording file is removed for good. An MP4 already exported from it is kept."@,
            answer: "delete"@,
            label: "Delete"@,
        }),
{
    Question {
        heading: cat3("Delete ", name, "?"),
        body: String::from_str(
            "The recording file is removed for good. An MP4 already exported from it is kept.",
        ),
        answer: "delete",
        label: "Delete",
    }
}

/// What follows the answer to deleting a recording: only ever a recording inside the recordings
/// folder is deleted.
pub fn delete_answered(answer: &str, path: &str, folder: &str) -> (r: Answered)
    ensures
        r is Declined <==> answer@ != "delete"@,
        r is Delete <==> answer@ == "delete"@ && may_be_deleted(path@, folder@),
        r is Refused ==> r->Refused_0@ == "That file is not a recording in the recordings folder"@,
{
    if !crate::text::equal(answer, "delete") {
        Answered::Declined
    } else if is_deletable_recording(path, folder) {
        Answered::Delete
    } else {
        Answered::Refused("That file is not a recording in the recordings folder")
    }
}

/// What is said after a recording was deleted, or could not be.
pub fn delete_outcome(error: Option<&str>) -> (r: String)
    ensures
        r@ == (match error {
            Some(e) => "Could not delete it: "@ + e@,
            None => "Recording deleted"@,
        }),
{
    match error {
        Some(e) => cat2("Could not delete it: ", e),
        None => String::from_str("Recording deleted"),
    }
}

} // verus!
