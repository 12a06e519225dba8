//! Redaction records of the secret sanitizer, and the rewriting of one
//! match. Finding the matches is the caller's part.

use crate::chars::{from_chars, push_all, to_chars};
use crate::number::{decimal, decimal_text};
use vstd::prelude::*;

verus! {

/// One redacted secret.
#[derive(Debug, Clone)]
pub struct Redaction {
    /// Which pattern matched.
    pub _kind: &'static str,
    /// What stands in the text in place of the secret.
    pub _placeholder: String,
}

impl Redaction {
    /// A record of the given kind and placeholder.
    pub fn new(kind: &'static str, placeholder: String) -> (r: Redaction)
        ensures
            r._kind@ == kind@,
            r._placeholder@ == placeholder@,
    {
        Redaction { _kind: kind, _placeholder: placeholder }
    }
}

/// The placeholder for the `counter`-th redaction, of the given kind:
/// `[REDACTED:kind#counter]`.
pub open spec fn placeholder_text(kind: Seq<char>, counter: nat) -> Seq<char> {
    "[REDACTED:"@ + kind + seq!['#'] + decimal(counter) + seq![']']
}

/// Writes the placeholder for the `counter`-th redaction.
pub fn placeholder(kind: &str, counter: u64) -> (out: String)
    ensures
        out@ == placeholder_text(kind@, counter as nat),
{
    let mut out = to_chars("[REDACTED:");
    push_all(&mut out, to_chars(kind).as_slice());
    out.push('#');
    push_all(&mut out, decimal_text(counter).as_slice());
    out.push(']');
    from_chars(out.as_slice())
}

/// Replaces one match by its placeholder: given the text before the match
/// and the text after it, returns the rewritten text and the record of the
/// redaction.
pub fn redact(before: &str, after: &str, kind: &'static str, counter: u64) -> (out: (
    String,
    Redaction,
))
    ensures
        out.0@ == before@ + placeholder_text(kind@, counter as nat) + after@,
        out.1._kind@ == kind@,
        out.1._placeholder@ == placeholder_text(kind@, counter as nat),
{
    let mark = placeholder(kind, counter);
    let mut text = to_chars(before);
    push_all(&mut text, to_chars(mark.as_str()).as_slice());
    push_all(&mut text, to_chars(after).as_slice());
    (from_chars(text.as_slice()), Redaction::new(kind, mark))
}

} // verus!
