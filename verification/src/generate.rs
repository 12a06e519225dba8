//! The text handling around a completion: preparing the user's description
//! and extracting the answer from the model's reply.

use crate::chars::{from_chars, has_content, push_all, sub_chars, to_chars, trim, trimmed};
use crate::search::{find, find_from, find_sub};
use vstd::prelude::*;

verus! {

/// Why no result could be taken from a reply.
#[derive(Debug, Clone, Copy, PartialEq, Eq, Structural)]
pub enum GenerateError {
    /// The reply holds no complete `<aicommit>` block.
    MissingCommitTag,
    /// The branch name came out empty.
    EmptyBranchName,
}

impl GenerateError {
    /// The error in words.
    pub open spec fn text(self) -> Seq<char> {
        match self {
            GenerateError::MissingCommitTag => "Start tag <aicommit> not found"@,
            GenerateError::EmptyBranchName => "Failed to generate valid branch name"@,
        }
    }

    /// The error in words.
    pub fn message(&self) -> (out: String)
        ensures
            out@ == self.text(),
    {
        match self {
            GenerateError::MissingCommitTag => "Start tag <aicommit> not found".to_owned(),
            GenerateError::EmptyBranchName => "Failed to generate valid branch name".to_owned(),
        }
    }
}

/// The user's description as it goes into the prompt: unchanged when it is
/// blank, behind the words `commit message: ` otherwise.
pub open spec fn described(description: Seq<char>) -> Seq<char> {
    if trim(description).len() == 0 {
        description
    } else {
        "commit message: "@ + description
    }
}

/// Prepares the user's description for the prompt.
pub fn describe_change(description: &str) -> (out: String)
    ensures
        out@ == described(description@),
{
    let chars = to_chars(description);
    if has_content(chars.as_slice()) {
        let mut out = to_chars("commit message: ");
        push_all(&mut out, chars.as_slice());
        from_chars(out.as_slice())
    } else {
        from_chars(chars.as_slice())
    }
}

/// The opening tag of the model's reasoning.
pub open spec fn think_open() -> Seq<char> {
    "<think>"@
}

/// The closing tag of the model's reasoning.
pub open spec fn think_close() -> Seq<char> {
    "</think>"@
}

/// A reply without the model's reasoning: when an opening tag stands before
/// the first closing tag, everything from the first opening tag up to that
/// closing tag is dropped; the closing tag itself stays. A closing tag with
/// no opening tag anywhere counts as preceded by one at the very end, so
/// nothing is dropped.
pub open spec fn without_thinking(reply: Seq<char>) -> Seq<char> {
    let start = match find(reply, think_open()) {
        Some(i) => i,
        None => reply.len() as int,
    };
    let end = match find(reply, think_close()) {
        Some(i) => i,
        None => 0,
    };
    if start < end {
        reply.subrange(0, start) + reply.subrange(end, reply.len() as int)
    } else {
        reply
    }
}

/// Drops the model's reasoning from a reply.
pub fn delete_thinking_contents(orig: &[char]) -> (out: Vec<char>)
    ensures
        out@ == without_thinking(orig@),
{
    let open = to_chars("<think>");
    let close = to_chars("</think>");
    let start = match find_sub(orig, open.as_slice(), 0) {
        Some(i) => i,
        None => orig.len(),
    };
    let end = match find_sub(orig, close.as_slice(), 0) {
        Some(i) => i,
        None => 0,
    };
    if start < end {
        let mut out = sub_chars(orig, 0, start);
        push_all(&mut out, sub_chars(orig, end, orig.len()).as_slice());
        out
    } else {
        let out = sub_chars(orig, 0, orig.len());
        proof {
            assert(out@ =~= orig@);
        }
        out
    }
}

/// The opening tag of an answer.
pub open spec fn answer_open() -> Seq<char> {
    "<aicommit>"@
}

/// The closing tag of an answer.
pub open spec fn answer_close() -> Seq<char> {
    "</aicommit>"@
}

/// The answer in a reply from which the reasoning is already gone: the text
/// between the first opening tag and the first closing tag after it, without
/// the whitespace around it; none when either tag is missing.
pub open spec fn first_answer(reply: Seq<char>) -> Option<Seq<char>> {
    match find(reply, answer_open()) {
        Some(a) => match find_from(reply, answer_close(), a + answer_open().len()) {
            Some(e) => Some(trim(reply.subrange(a + answer_open().len(), e))),
            None => None,
        },
        None => None,
    }
}

/// The answer of a reply, its reasoning dropped first.
pub open spec fn answer_of(reply: Seq<char>) -> Option<Seq<char>> {
    first_answer(without_thinking(reply))
}

/// The value of an extraction.
pub open spec fn text_view(r: Result<String, GenerateError>) -> Result<Seq<char>, GenerateError> {
    match r {
        Ok(s) => Ok(s@),
        Err(e) => Err(e),
    }
}

/// Takes the answer out of the model's reply.
pub fn extract_aicommit_message(response: &str) -> (out: Result<String, GenerateError>)
    ensures
        text_view(out) == (match answer_of(response@) {
            Some(answer) => Ok::<Seq<char>, GenerateError>(answer),
            None => Err(GenerateError::MissingCommitTag),
        }),
{
    let reply = delete_thinking_contents(to_chars(response).as_slice());
    let open = to_chars("<aicommit>");
    let close = to_chars("</aicommit>");
    match find_sub(reply.as_slice(), open.as_slice(), 0) {
        Some(a) => {
            let from = a + open.len();
            match find_sub(reply.as_slice(), close.as_slice(), from) {
                Some(e) => {
                    let content = trimmed(sub_chars(reply.as_slice(), from, e).as_slice());
                    Ok(from_chars(content.as_slice()))
                },
                None => Err(GenerateError::MissingCommitTag),
            }
        },
        None => Err(GenerateError::MissingCommitTag),
    }
}

/// The branch name made of an optional prefix and the extracted name, each
/// without the whitespace around it.
pub open spec fn branch_name(prefix: Option<Seq<char>>, name: Seq<char>) -> Seq<char> {
    match prefix {
        Some(p) => trim(p) + trim(name),
        None => trim(name),
    }
}

/// The value of an optional text.
pub open spec fn prefix_view(prefix: Option<&str>) -> Option<Seq<char>> {
    match prefix {
        Some(p) => Some(p@),
        None => None,
    }
}

/// Puts the prefix before the extracted branch name. An empty result is an
/// error.
pub fn finish_branch_name(prefix: Option<&str>, name: &str) -> (out: Result<String, GenerateError>)
    ensures
        text_view(out) == (if branch_name(prefix_view(prefix), name@).len() == 0 {
            Err::<Seq<char>, GenerateError>(GenerateError::EmptyBranchName)
        } else {
            Ok(branch_name(prefix_view(prefix), name@))
        }),
{
    let mut branch: Vec<char> = match prefix {
        Some(p) => trimmed(to_chars(p).as_slice()),
        None => Vec::new(),
    };
    push_all(&mut branch, trimmed(to_chars(name).as_slice()).as_slice());
    proof {
        assert(branch@ =~= branch_name(prefix_view(prefix), name@));
    }
    if branch.len() == 0 {
        Err(GenerateError::EmptyBranchName)
    } else {
        Ok(from_chars(branch.as_slice()))
    }
}

} // verus!
