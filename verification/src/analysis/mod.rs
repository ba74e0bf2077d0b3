//! Analyses that extend the core scan model. Each is a [`crate::Analysis`]:
//! it either ran and produced a result, or it names why it did not.
use vstd::prelude::*;

use crate::boundary;
use crate::NotEvaluated;

pub mod cargo;
pub mod git;
pub mod profile;

verus! {

/// How much weight a finding's evidence carries.
///
/// `Certain` is reserved for a value a manifest or a lockfile declares.
/// Anything read out of prose, inferred from a naming convention, or produced
/// by a heuristic is `Inferred`, however obvious it looks.
#[derive(Debug, Clone, Copy, PartialEq, Eq)]
pub enum Confidence {
    /// Declared by a manifest or lockfile entry.
    Certain,
    /// Read from prose, a naming convention, or a heuristic.
    Inferred,
}

impl Default for Confidence {
    fn default() -> (confidence: Self)
        ensures
            confidence == Confidence::Inferred,
    {
        Confidence::Inferred
    }
}

impl Confidence {
    /// The stable lowercase token, matching the JSON contract's spelling.
    pub fn label(self) -> (token: &'static str)
        ensures
            token@ == match self {
                Confidence::Certain => "certain"@,
                Confidence::Inferred => "inferred"@,
            },
    {
        match self {
            Confidence::Certain => "certain",
            Confidence::Inferred => "inferred",
        }
    }
}


/// What looking for a file at a fixed path found.
#[derive(Debug, Clone, PartialEq, Eq)]
pub enum FileRead {
    /// No regular file there: nothing at all, a directory, or something else.
    Missing,
    /// A regular file of `len` bytes, and what reading it gave (`None` when
    /// the read failed). A file over the size limit need not be read: its
    /// contents are never consulted.
    Found { len: u64, contents: Option<Vec<u8>> },
}

/// Whether a file of `len` bytes is small enough to be read at all.
pub fn is_within_limit(len: u64, max_bytes: u64) -> (read: bool)
    ensures
        read == (len <= max_bytes),
{
    len <= max_bytes
}

/// What reading a file named `label` under a `max_bytes` cap gives: its text,
/// or why there is none. `label` is the file's own name, never anything read
/// from the file.
pub open spec fn bounded_read_is(label: Seq<char>, max_bytes: u64, file: FileRead, result: Result<String, NotEvaluated>) -> bool {
    match file {
        FileRead::Missing => result matches Err(NotEvaluated::InputUnavailable(d))
            && d@ == "no "@ + label + " at the repository root"@,
        FileRead::Found { len, contents } => if len > max_bytes {
            result matches Err(NotEvaluated::Failed(d)) && d@ == label + " exceeds the size limit"@
        } else {
            match contents {
                None => result matches Err(NotEvaluated::Failed(d)) && d@ == label + " could not be read"@,
                Some(bytes) => if vstd::utf8::valid_utf8(bytes@) {
                    result matches Ok(text) && text@ == vstd::utf8::decode_utf8(bytes@)
                } else {
                    result matches Err(NotEvaluated::Failed(d)) && d@ == label + " is not valid UTF-8"@
                },
            }
        },
    }
}

/// Reads a file as UTF-8 text, refusing anything over `max_bytes` on its
/// size alone, before its contents are looked at.
pub fn read_bounded(label: &str, max_bytes: u64, file: FileRead) -> (result: Result<String, NotEvaluated>)
    ensures
        bounded_read_is(label@, max_bytes, file, result),
{
    match file {
        FileRead::Missing => {
            let mut detail = String::new();
            crate::text::push_str(&mut detail, "no ");
            crate::text::push_str(&mut detail, label);
            crate::text::push_str(&mut detail, " at the repository root");
            Err(NotEvaluated::InputUnavailable(detail))
        },
        FileRead::Found { len, contents } => {
            if len > max_bytes {
                let mut detail = crate::text::owned(label);
                crate::text::push_str(&mut detail, " exceeds the size limit");
                return Err(NotEvaluated::Failed(detail));
            }
            match contents {
                None => {
                    let mut detail = crate::text::owned(label);
                    crate::text::push_str(&mut detail, " could not be read");
                    Err(NotEvaluated::Failed(detail))
                },
                Some(bytes) => match boundary::string_from_utf8(bytes) {
                    Some(text) => Ok(text),
                    None => {
                        let mut detail = crate::text::owned(label);
                        crate::text::push_str(&mut detail, " is not valid UTF-8");
                        Err(NotEvaluated::Failed(detail))
                    },
                },
            }
        },
    }
}

} // verus!
