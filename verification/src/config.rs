//! Persisted settings.

use crate::chars::{from_chars, to_chars};
use vstd::prelude::*;

verus! {

/// The value that switches a setting on when the configuration omits it.
pub fn default_true() -> (b: bool)
    ensures
        b,
{
    true
}

/// A user-defined pattern for the secret sanitizer.
#[derive(Debug, Clone)]
pub struct CustomSanitizePattern {
    /// A short name for the pattern, such as `INTERNAL_URL`.
    pub name: String,
    /// The regular expression, as text.
    pub regex: String,
}

/// Persisted text-wrapping preferences, from which a
/// [`WrapConfig`](crate::text_wrapper::WrapConfig) is built for each run.
#[derive(Debug, Clone)]
pub struct TextWrapConfig {
    /// Whether generated text is wrapped at all.
    pub enabled: bool,
    /// Line width used when the command line gives none.
    pub default_width: usize,
    /// Split words on runs of whitespace rather than on single spaces.
    pub preserve_words: bool,
    /// Allow a word wider than a line to be split.
    pub break_long_words: bool,
    /// Put fenced code blocks on lines of their own.
    pub handle_code_blocks: bool,
    /// Keep links in their `[text](url)` form.
    pub preserve_links: bool,
    /// Prefix of every continuation line.
    pub hanging_indent: String,
}

impl Default for TextWrapConfig {
    /// Wrapping on, at eighty columns, every feature on, no hanging indent.
    fn default() -> (config: TextWrapConfig)
        ensures
            config.enabled,
            config.default_width == 80,
            config.preserve_words,
            config.break_long_words,
            config.handle_code_blocks,
            config.preserve_links,
            config.hanging_indent@ == Seq::<char>::empty(),
    {
        TextWrapConfig {
            enabled: true,
            default_width: 80,
            preserve_words: true,
            break_long_words: true,
            handle_code_blocks: true,
            preserve_links: true,
            hanging_indent: String::new(),
        }
    }
}

/// How much detail a commit message gives.
#[derive(Debug, Clone, Copy, PartialEq, Eq, Structural)]
pub enum Verbosity {
    /// Detailed commit message.
    Verbose,
    /// Normal commit message.
    Normal,
    /// Quiet commit message.
    Quiet,
}

impl Default for Verbosity {
    fn default() -> (v: Verbosity)
        ensures
            v == Verbosity::Quiet,
    {
        Verbosity::Quiet
    }
}

impl Verbosity {
    /// The level as the prompt template words it.
    pub open spec fn template_level(self) -> Seq<char> {
        match self {
            Verbosity::Verbose => "详细"@,
            Verbosity::Normal => "中等"@,
            Verbosity::Quiet => "简洁"@,
        }
    }

    /// The level as the prompt template words it.
    pub fn to_template_level(&self) -> (level: &'static str)
        ensures
            level@ == self.template_level(),
    {
        match self {
            Verbosity::Verbose => "详细",
            Verbosity::Normal => "中等",
            Verbosity::Quiet => "简洁",
        }
    }
}

/// The language a commit message is written in.
#[derive(Debug, Clone, Copy, PartialEq, Eq, Structural)]
pub enum CommitLanguage {
    English,
    Chinese,
}

impl Default for CommitLanguage {
    fn default() -> (l: CommitLanguage)
        ensures
            l == CommitLanguage::Chinese,
    {
        CommitLanguage::Chinese
    }
}

impl CommitLanguage {
    /// The language's name in that language.
    pub open spec fn name(self) -> Seq<char> {
        match self {
            CommitLanguage::English => "English"@,
            CommitLanguage::Chinese => "中文"@,
        }
    }

    /// The language's name in that language.
    pub fn to_string(&self) -> (name: String)
        ensures
            name@ == self.name(),
    {
        match self {
            CommitLanguage::English => "English".to_owned(),
            CommitLanguage::Chinese => "中文".to_owned(),
        }
    }
}

/// The endpoint that is used when none is configured.
pub open spec fn fallback_api_base() -> Seq<char> {
    "https://api.openai.com/v1"@
}

/// `base`, ending in exactly the slash it had or in one that is added.
pub open spec fn with_trailing_slash(base: Seq<char>) -> Seq<char> {
    if base.len() > 0 && base.last() == '/' {
        base
    } else {
        base.push('/')
    }
}

/// The settings of the tool.
#[derive(Debug)]
pub struct Config {
    /// The endpoint as configured; see [`Config::api_base`] for the one in use.
    pub api_base: Option<String>,
    pub api_key: String,
    pub model: Option<String>,
    /// The maximum number of tokens to generate in the commit message.
    pub max_tokens: Option<u32>,
    /// Whether to use conventional commit message format.
    pub conventional: bool,
    pub language: CommitLanguage,
    pub verbosity: Verbosity,
    /// Prefix for generated branch names.
    pub branch_prefix: Option<String>,
    /// Whether secrets are redacted from a diff before it leaves the machine.
    pub sanitize_secrets: bool,
    /// User-defined extra patterns for the sanitizer.
    pub custom_sanitize_patterns: Vec<CustomSanitizePattern>,
    /// Text-wrapping preferences.
    pub text_wrap: TextWrapConfig,
}

impl Config {
    /// The endpoint as configured, if any.
    pub open spec fn configured_api_base(&self) -> Option<Seq<char>> {
        match self.api_base {
            Some(base) => Some(base@),
            None => None,
        }
    }

    /// The endpoint to talk to: the configured one, or the fallback when none
    /// is configured, always ending in a slash.
    pub fn api_base(&self) -> (out: String)
        ensures
            out@ == with_trailing_slash(
                match self.configured_api_base() {
                    Some(base) => base,
                    None => fallback_api_base(),
                },
            ),
    {
        let mut base = match &self.api_base {
            Some(b) => to_chars(b.as_str()),
            None => to_chars("https://api.openai.com/v1"),
        };
        let n = base.len();
        if n == 0 || base[n - 1] != '/' {
            base.push('/');
        }
        from_chars(base.as_slice())
    }
}

impl Default for Config {
    /// The settings of a fresh installation.
    fn default() -> (config: Config)
        ensures
            config.configured_api_base() == Some(fallback_api_base()),
            config.api_key@ == Seq::<char>::empty(),
            config.model matches Some(m) && m@ == "gpt-3.5-turbo"@,
            config.max_tokens == Some(2048u32),
            config.conventional,
            config.language == CommitLanguage::Chinese,
            config.verbosity == Verbosity::Quiet,
            config.branch_prefix is None,
            config.sanitize_secrets,
            config.custom_sanitize_patterns@.len() == 0,
            config.text_wrap.enabled,
            config.text_wrap.default_width == 80,
            config.text_wrap.preserve_words,
            config.text_wrap.break_long_words,
            config.text_wrap.handle_code_blocks,
            config.text_wrap.preserve_links,
            config.text_wrap.hanging_indent@ == Seq::<char>::empty(),
    {
        Config {
            api_base: Some("https://api.openai.com/v1".to_owned()),
            api_key: String::new(),
            model: Some("gpt-3.5-turbo".to_owned()),
            max_tokens: Some(2048),
            conventional: true,
            language: CommitLanguage::default(),
            verbosity: Verbosity::default(),
            branch_prefix: None,
            sanitize_secrets: default_true(),
            custom_sanitize_patterns: Vec::new(),
            text_wrap: TextWrapConfig::default(),
        }
    }
}

} // verus!
