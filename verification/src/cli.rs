//! Command-line options, as values, and what follows from them.

use crate::config::{CommitLanguage, Config, Verbosity};
use vstd::prelude::*;

verus! {

/// The options of one invocation.
#[derive(Debug)]
pub struct Args {
    /// Path to the file containing the diff to analyze.
    pub diff_file: Option<String>,
    /// Override of the conventional-commit setting.
    pub conventional: Option<bool>,
    /// Override of the message language.
    pub language: Option<CommitLanguage>,
    /// Override of the level of detail.
    pub verbosity: Option<Verbosity>,
    /// Generate a branch name.
    pub generate_branch: bool,
    /// Override of the branch prefix.
    pub branch_prefix: Option<String>,
    /// Additional prompt that gives context for the change.
    pub prompt: Option<String>,
    /// Diff range, such as `HEAD~1`.
    pub range: Option<String>,
    /// Generate a commit message; with `generate_branch`, both are generated.
    pub generate_message: bool,
    /// Send the diff unsanitized.
    pub no_sanitize: bool,
    /// Print the result unwrapped.
    pub no_wrap: bool,
    /// Override of the wrapping width.
    pub wrap_width: Option<usize>,
}

/// What one invocation generates.
#[derive(Debug, Clone, Copy, PartialEq, Eq, Structural)]
pub enum Output {
    /// A branch name and a commit message.
    BranchAndMessage,
    /// A branch name only.
    Branch,
    /// A commit message only.
    Message,
}

impl Args {
    /// What this invocation generates: both when both are asked for, a
    /// branch name when only that is asked for, a commit message otherwise.
    pub fn output(&self) -> (o: Output)
        ensures
            o == (if self.generate_branch && self.generate_message {
                Output::BranchAndMessage
            } else if self.generate_branch {
                Output::Branch
            } else {
                Output::Message
            }),
    {
        if self.generate_branch && self.generate_message {
            Output::BranchAndMessage
        } else if self.generate_branch {
            Output::Branch
        } else {
            Output::Message
        }
    }

    /// Whether the output is wrapped: unless the command line forbids it or
    /// the configuration has it switched off.
    pub fn wrapping_enabled(&self, config: &Config) -> (b: bool)
        ensures
            b == (!self.no_wrap && config.text_wrap.enabled),
    {
        !self.no_wrap && config.text_wrap.enabled
    }

    /// Lets the command line override the configuration: each of the
    /// conventional-commit setting, the language and the level of detail
    /// where it is given, and the sanitizer where it is switched off.
    pub fn apply_to(&self, config: &mut Config)
        ensures
            final(config).conventional == (match self.conventional {
                Some(c) => c,
                None => old(config).conventional,
            }),
            final(config).language == (match self.language {
                Some(l) => l,
                None => old(config).language,
            }),
            final(config).verbosity == (match self.verbosity {
                Some(v) => v,
                None => old(config).verbosity,
            }),
            final(config).sanitize_secrets == (!self.no_sanitize && old(config).sanitize_secrets),
            final(config).api_base == old(config).api_base,
            final(config).api_key == old(config).api_key,
            final(config).model == old(config).model,
            final(config).max_tokens == old(config).max_tokens,
            final(config).branch_prefix == old(config).branch_prefix,
            final(config).custom_sanitize_patterns == old(config).custom_sanitize_patterns,
            final(config).text_wrap == old(config).text_wrap,
    {
        if let Some(c) = self.conventional {
            config.conventional = c;
        }
        if let Some(l) = self.language {
            config.language = l;
        }
        if let Some(v) = self.verbosity {
            config.verbosity = v;
        }
        if self.no_sanitize {
            config.sanitize_secrets = false;
        }
    }
}

} // verus!
