//! Filling the prompt template.

use crate::chars::{from_chars, to_chars};
use crate::config::{CommitLanguage, Verbosity};
use crate::constants::PromptTemplateReplaceLabel;
use crate::search::{replace, replace_all};
use vstd::prelude::*;

verus! {

/// The values that fill a prompt template.
pub struct TemplateContext<'a> {
    pub conventional: bool,
    pub language: CommitLanguage,
    pub verbosity: Verbosity,
    pub diff_content: &'a str,
}

impl<'a> TemplateContext<'a> {
    /// A context with the given values.
    pub fn new(
        conventional: bool,
        language: CommitLanguage,
        verbosity: Verbosity,
        diff_content: &'a str,
    ) -> (context: Self)
        ensures
            context.conventional == conventional,
            context.language == language,
            context.verbosity == verbosity,
            context.diff_content@ == diff_content@,
    {
        Self { conventional, language, verbosity, diff_content }
    }
}

/// A truth value as text.
pub open spec fn bool_text(b: bool) -> Seq<char> {
    if b {
        "true"@
    } else {
        "false"@
    }
}

/// A template with its placeholders filled, one kind after the other: the
/// conventional-commit flag, the language, the level of detail, the diff.
/// Text that an earlier value brought in is searched by the later steps.
pub open spec fn rendered(
    template: Seq<char>,
    conventional: bool,
    language: CommitLanguage,
    verbosity: Verbosity,
    diff: Seq<char>,
) -> Seq<char> {
    replace(
        replace(
            replace(
                replace(
                    template,
                    PromptTemplateReplaceLabel::ConventionalCommit.label(),
                    bool_text(conventional),
                ),
                PromptTemplateReplaceLabel::Language.label(),
                language.name(),
            ),
            PromptTemplateReplaceLabel::VerbosityLevel.label(),
            verbosity.template_level(),
        ),
        PromptTemplateReplaceLabel::Diff.label(),
        diff,
    )
}

/// Fills the placeholders of `template` with the values of `context`.
pub fn render_template(template: &str, context: TemplateContext) -> (out: String)
    ensures
        out@ == rendered(
            template@,
            context.conventional,
            context.language,
            context.verbosity,
            context.diff_content@,
        ),
{
    let flag = if context.conventional {
        to_chars("true")
    } else {
        to_chars("false")
    };
    let step1 = replace_all(
        to_chars(template).as_slice(),
        to_chars(PromptTemplateReplaceLabel::ConventionalCommit.get_label()).as_slice(),
        flag.as_slice(),
    );
    let step2 = replace_all(
        step1.as_slice(),
        to_chars(PromptTemplateReplaceLabel::Language.get_label()).as_slice(),
        to_chars(context.language.to_string().as_str()).as_slice(),
    );
    let step3 = replace_all(
        step2.as_slice(),
        to_chars(PromptTemplateReplaceLabel::VerbosityLevel.get_label()).as_slice(),
        to_chars(context.verbosity.to_template_level()).as_slice(),
    );
    let step4 = replace_all(
        step3.as_slice(),
        to_chars(PromptTemplateReplaceLabel::Diff.get_label()).as_slice(),
        to_chars(context.diff_content).as_slice(),
    );
    from_chars(step4.as_slice())
}

/// A template with the placeholder for the user's description filled: with
/// the description when there is one, with nothing otherwise.
pub open spec fn described_template(template: Seq<char>, description: Option<Seq<char>>) -> Seq<char> {
    replace(
        template,
        PromptTemplateReplaceLabel::UserDescription.label(),
        match description {
            Some(d) => d,
            None => Seq::empty(),
        },
    )
}

/// The value of an optional text.
pub open spec fn description_view(description: Option<&str>) -> Option<Seq<char>> {
    match description {
        Some(d) => Some(d@),
        None => None,
    }
}

/// Fills the placeholder for the user's description.
pub fn with_user_description(template: &str, description: Option<&str>) -> (out: String)
    ensures
        out@ == described_template(template@, description_view(description)),
{
    let value = match description {
        Some(d) => to_chars(d),
        None => Vec::new(),
    };
    let filled = replace_all(
        to_chars(template).as_slice(),
        to_chars(PromptTemplateReplaceLabel::UserDescription.get_label()).as_slice(),
        value.as_slice(),
    );
    from_chars(filled.as_slice())
}

} // verus!
