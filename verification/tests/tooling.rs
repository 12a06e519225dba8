use fastcommit::cli::{Args, Output};
use fastcommit::config::{default_true, CommitLanguage, Config, TextWrapConfig, Verbosity};
use fastcommit::constants::{stop_words, PromptTemplateReplaceLabel, DEFAULT_MAX_TOKENS};
use fastcommit::generate::{
    delete_thinking_contents, describe_change, extract_aicommit_message, finish_branch_name,
    GenerateError,
};
use fastcommit::sanitizer::{placeholder, redact, Redaction};
use fastcommit::template_engine::{render_template, with_user_description, TemplateContext};
use fastcommit::text_wrapper::{WrapConfig, WrapStrategy};
use fastcommit::update_checker::{create_default_update_info, sanitize_tag, update_notice};

fn no_args() -> Args {
    Args {
        diff_file: None,
        conventional: None,
        language: None,
        verbosity: None,
        generate_branch: false,
        branch_prefix: None,
        prompt: None,
        range: None,
        generate_message: false,
        no_sanitize: false,
        no_wrap: false,
        wrap_width: None,
    }
}

#[test]
fn api_base_always_ends_in_a_slash() {
    let mut config = Config::default();
    assert_eq!(config.api_base(), "https://api.openai.com/v1/");
    config.api_base = Some("https://example.com/v2/".to_string());
    assert_eq!(config.api_base(), "https://example.com/v2/");
    config.api_base = Some("https://example.com/v2".to_string());
    assert_eq!(config.api_base(), "https://example.com/v2/");
    config.api_base = None;
    assert_eq!(config.api_base(), "https://api.openai.com/v1/");
    config.api_base = Some(String::new());
    assert_eq!(config.api_base(), "/");
}

#[test]
fn fresh_configuration_has_the_documented_defaults() {
    let config = Config::default();
    assert_eq!(config.api_key, "");
    assert_eq!(config.model.as_deref(), Some("gpt-3.5-turbo"));
    assert_eq!(config.max_tokens, Some(DEFAULT_MAX_TOKENS));
    assert!(config.conventional);
    assert_eq!(config.language, CommitLanguage::Chinese);
    assert_eq!(config.verbosity, Verbosity::Quiet);
    assert_eq!(config.branch_prefix, None);
    assert!(config.sanitize_secrets);
    assert!(config.custom_sanitize_patterns.is_empty());
    assert!(config.text_wrap.enabled);
    assert!(default_true());
    assert_eq!(Verbosity::default(), Verbosity::Quiet);
    assert_eq!(CommitLanguage::default(), CommitLanguage::Chinese);
}

#[test]
fn levels_and_languages_have_their_words() {
    assert_eq!(Verbosity::Verbose.to_template_level(), "详细");
    assert_eq!(Verbosity::Normal.to_template_level(), "中等");
    assert_eq!(Verbosity::Quiet.to_template_level(), "简洁");
    assert_eq!(CommitLanguage::English.to_string(), "English");
    assert_eq!(CommitLanguage::Chinese.to_string(), "中文");
}

#[test]
fn labels_are_the_placeholders_of_the_template() {
    assert_eq!(PromptTemplateReplaceLabel::Language.get_label(), "{{language}}");
    assert_eq!(PromptTemplateReplaceLabel::VerbosityLevel.get_label(), "{{verbosity_level}}");
    assert_eq!(
        PromptTemplateReplaceLabel::ConventionalCommit.get_label(),
        "{{conventional_commit}}"
    );
    assert_eq!(PromptTemplateReplaceLabel::Diff.get_label(), "{{diff}}");
    assert_eq!(PromptTemplateReplaceLabel::UserDescription.get_label(), "{{user_description}}");
    assert_eq!(stop_words(), vec!["</aicommit>".to_string()]);
}

#[test]
fn template_is_filled_with_the_context() {
    let context = TemplateContext::new(true, CommitLanguage::English, Verbosity::Normal, "+ line");
    let out = render_template(
        "c={{conventional_commit}} l={{language}} v={{verbosity_level}} d={{diff}} d={{diff}} u={{user_description}}",
        context,
    );
    assert_eq!(out, "c=true l=English v=中等 d=+ line d=+ line u={{user_description}}");
    let context = TemplateContext::new(false, CommitLanguage::Chinese, Verbosity::Quiet, "{{language}}");
    assert_eq!(render_template("{{conventional_commit}}/{{language}}/{{diff}}", context), "false/中文/{{language}}");
}

#[test]
fn user_description_fills_its_placeholder() {
    assert_eq!(with_user_description("a {{user_description}} b", Some("note")), "a note b");
    assert_eq!(with_user_description("a {{user_description}} b", None), "a  b");
    assert_eq!(describe_change("fix the bug"), "commit message: fix the bug");
    assert_eq!(describe_change("   "), "   ");
    assert_eq!(describe_change(""), "");
}

#[test]
fn thinking_is_dropped_from_a_reply() {
    let drop = |s: &str| -> String {
        delete_thinking_contents(&s.chars().collect::<Vec<char>>()).iter().collect()
    };
    assert_eq!(drop("a<think>b</think>c"), "a</think>c");
    assert_eq!(drop("no tags"), "no tags");
    assert_eq!(drop("</think>late<think>"), "</think>late<think>");
    assert_eq!(drop("only </think> here"), "only </think> here");
    assert_eq!(drop("<think>open only"), "<think>open only");
}

#[test]
fn answer_is_the_first_complete_block() {
    assert_eq!(
        extract_aicommit_message("x <aicommit>\n feat: a \n</aicommit> y <aicommit>b</aicommit>"),
        Ok("feat: a".to_string())
    );
    assert_eq!(
        extract_aicommit_message("<think>plan <aicommit>no</aicommit></think><aicommit>yes</aicommit>"),
        Ok("yes".to_string())
    );
    assert_eq!(extract_aicommit_message("<aicommit></aicommit>"), Ok(String::new()));
    assert_eq!(extract_aicommit_message("nothing"), Err(GenerateError::MissingCommitTag));
    assert_eq!(
        extract_aicommit_message("<aicommit>never closed"),
        Err(GenerateError::MissingCommitTag)
    );
    assert_eq!(GenerateError::MissingCommitTag.message(), "Start tag <aicommit> not found");
}

#[test]
fn branch_name_gets_its_prefix() {
    assert_eq!(finish_branch_name(Some(" me/ "), " fix-login \n"), Ok("me/fix-login".to_string()));
    assert_eq!(finish_branch_name(None, " fix-login "), Ok("fix-login".to_string()));
    assert_eq!(finish_branch_name(Some("me/"), "  "), Ok("me/".to_string()));
    assert_eq!(finish_branch_name(None, "  "), Err(GenerateError::EmptyBranchName));
    assert_eq!(finish_branch_name(Some(" "), ""), Err(GenerateError::EmptyBranchName));
    assert_eq!(
        GenerateError::EmptyBranchName.message(),
        "Failed to generate valid branch name"
    );
}

#[test]
fn redaction_replaces_one_match_by_its_placeholder() {
    assert_eq!(placeholder("JWT", 3), "[REDACTED:JWT#3]");
    assert_eq!(placeholder("GITHUB_TOKEN", 12), "[REDACTED:GITHUB_TOKEN#12]");
    let (text, redaction) = redact("token=", " rest", "GENERIC_API_KEY", 1);
    assert_eq!(text, "token=[REDACTED:GENERIC_API_KEY#1] rest");
    assert_eq!(redaction._kind, "GENERIC_API_KEY");
    assert_eq!(redaction._placeholder, "[REDACTED:GENERIC_API_KEY#1]");
    let record = Redaction::new("JWT", "[REDACTED:JWT#2]".to_string());
    assert_eq!(record._kind, "JWT");
    assert_eq!(record._placeholder, "[REDACTED:JWT#2]");
}

#[test]
fn command_line_overrides_the_configuration() {
    let mut config = Config::default();
    no_args().apply_to(&mut config);
    assert!(config.conventional);
    assert_eq!(config.language, CommitLanguage::Chinese);
    assert_eq!(config.verbosity, Verbosity::Quiet);
    assert!(config.sanitize_secrets);

    let mut args = no_args();
    args.conventional = Some(false);
    args.language = Some(CommitLanguage::English);
    args.verbosity = Some(Verbosity::Verbose);
    args.no_sanitize = true;
    args.apply_to(&mut config);
    assert!(!config.conventional);
    assert_eq!(config.language, CommitLanguage::English);
    assert_eq!(config.verbosity, Verbosity::Verbose);
    assert!(!config.sanitize_secrets);
    assert_eq!(config.api_base(), "https://api.openai.com/v1/");
}

#[test]
fn command_line_selects_the_output() {
    let mut args = no_args();
    assert_eq!(args.output(), Output::Message);
    args.generate_message = true;
    assert_eq!(args.output(), Output::Message);
    args.generate_branch = true;
    assert_eq!(args.output(), Output::BranchAndMessage);
    args.generate_message = false;
    assert_eq!(args.output(), Output::Branch);

    let mut config = Config::default();
    assert!(args.wrapping_enabled(&config));
    config.text_wrap.enabled = false;
    assert!(!args.wrapping_enabled(&config));
    config.text_wrap.enabled = true;
    args.no_wrap = true;
    assert!(!args.wrapping_enabled(&config));
}

#[test]
fn wrap_settings_come_from_configuration_and_arguments() {
    let mut stored = TextWrapConfig::default();
    stored.default_width = 72;
    stored.break_long_words = false;
    stored.hanging_indent = "  ".to_string();
    let config = WrapConfig::from_config_and_args(&stored, None, true);
    assert_eq!(config.max_width, 72);
    assert!(config.preserve_words);
    assert!(!config.break_long_words);
    assert!(config.handle_code_blocks);
    assert!(config.preserve_links);
    assert!(config.preserve_paragraphs);
    assert_eq!(config.strategy, WrapStrategy::Hybrid);
    assert_eq!(config.indent, "");
    assert_eq!(config.hanging_indent, "  ");
    let config = WrapConfig::from_config_and_args(&stored, Some(40), false);
    assert_eq!(config.max_width, 40);
    assert!(!config.preserve_paragraphs);
}

#[test]
fn tag_keeps_only_letters_digits_dots_dashes_and_underscores() {
    let keep = |s: &str| -> String {
        sanitize_tag(&s.chars().collect::<Vec<char>>()).iter().collect()
    };
    assert_eq!(keep("v1.2.3"), "v1.2.3");
    assert_eq!(keep("v1.0; rm -rf /"), "v1.0rm-rf");
    assert_eq!(keep("rel_1-测试 $(x)"), "rel_1-测试x");
    assert_eq!(keep(""), "");
}

#[test]
fn notice_is_a_box_around_the_message() {
    let mut info = create_default_update_info("0.1.0", 0);
    info.version = "0.2.0".to_string();
    info.published_at = "2024-01-01".to_string();
    info.tag = "v0.2.0;".to_string();
    let lines = update_notice(&info);
    let command =
        "  cargo install --git https://github.com/fslongjin/fastcommit --tag v0.2.0";
    let width = command.chars().count();
    assert_eq!(lines.len(), 10);
    assert_eq!(lines[0], format!("╭{}╮", "─".repeat(width + 4)));
    assert_eq!(
        lines[1],
        format!(
            "│  ✨ fastcommit has a new version available!{}  │",
            " ".repeat(width - 42)
        )
    );
    assert_eq!(lines[2], format!("│  {}  │", " ".repeat(width)));
    assert_eq!(
        lines[3],
        format!("│  📦 New version: 0.2.0{}  │", " ".repeat(width - 21))
    );
    assert_eq!(
        lines[4],
        format!("│  📅 Release date: 2024-01-01{}  │", " ".repeat(width - 27))
    );
    assert_eq!(lines[5], format!("│  {}  │", " ".repeat(width)));
    assert_eq!(
        lines[6],
        format!(
            "│  🚀 Install the new version with the following command:{}  │",
            " ".repeat(width - 54)
        )
    );
    assert_eq!(lines[7], format!("│  {command}  │"));
    assert_eq!(lines[8], format!("╰{}╯", "─".repeat(width + 4)));
    assert_eq!(lines[9], "");
}
