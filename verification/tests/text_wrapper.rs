use fastcommit::text_wrapper::{TextWrapper, WrapConfig};
use unicode_width::UnicodeWidthStr;

#[test]
fn test_basic_wrapping() {
    let mut config = WrapConfig::default();
    config.max_width = 20;
    let wrapper = TextWrapper::new(config);
    let text = "This is a long line of text that should be wrapped";
    let result = wrapper.wrap(text);

    let lines: Vec<&str> = result.lines().collect();
    assert!(lines.len() > 1);

    for line in lines {
        assert!(line.width() <= 20);
    }
}

#[test]
fn test_long_word_handling() {
    let mut config = WrapConfig::default();
    config.max_width = 10;
    config.break_long_words = true;
    let wrapper = TextWrapper::new(config);
    let text = "Thisisaverylongwordthatneedstobebroken";
    let result = wrapper.wrap(text);

    let lines: Vec<&str> = result.lines().collect();
    assert!(lines.len() > 1);
}

#[test]
fn test_code_block_preservation() {
    let mut config = WrapConfig::default();
    config.max_width = 20;
    config.handle_code_blocks = true;
    let wrapper = TextWrapper::new(config);
    let text = "Here is some text ```code block``` and more text";
    let result = wrapper.wrap(text);

    assert!(result.contains("code block"));
    assert!(result.contains('\n'));
}

#[test]
fn test_code_block_disabled() {
    let mut config = WrapConfig::default();
    config.max_width = 20;
    config.handle_code_blocks = false;
    let wrapper = TextWrapper::new(config);
    let text = "Here is some text ```code block``` and more text";
    let result = wrapper.wrap(text);

    assert!(!result.contains("\ncode block\n"));
}

#[test]
fn test_link_preservation() {
    let mut config = WrapConfig::default();
    config.max_width = 30;
    config.preserve_links = true;
    let wrapper = TextWrapper::new(config);
    let text = "Check out this link: https://example.com/some/long/url for more info";
    let result = wrapper.wrap(text);

    assert!(result.contains("https://example.com"));
    assert!(result.contains("["));
    assert!(result.contains("]"));
}

#[test]
fn test_link_disabled() {
    let mut config = WrapConfig::default();
    config.max_width = 30;
    config.preserve_links = false;
    let wrapper = TextWrapper::new(config);
    let text = "Check out this link: https://example.com/some/long/url for more info";
    let result = wrapper.wrap(text);

    assert!(!result.contains("]("));
}

#[test]
fn test_markdown_links() {
    let mut config = WrapConfig::default();
    config.max_width = 30;
    config.preserve_links = true;
    let wrapper = TextWrapper::new(config);
    let text = "See [Example](https://example.com) for details";
    let result = wrapper.wrap(text);

    assert!(result.contains("[Example](https://example.com)"));
}

#[test]
fn test_inline_code() {
    let mut config = WrapConfig::default();
    config.max_width = 20;
    let wrapper = TextWrapper::new(config);
    let text = "Use the `command` to run it";
    let result = wrapper.wrap(text);

    assert!(result.contains("`command`"));
}

#[test]
fn test_mixed_content() {
    let mut config = WrapConfig::default();
    config.max_width = 25;
    config.handle_code_blocks = true;
    config.preserve_links = true;
    let wrapper = TextWrapper::new(config);
    let text =
        "Here is a link: https://example.com and some ```code block``` with `inline code`";
    let result = wrapper.wrap(text);

    assert!(result.contains("https://example.com"));
    assert!(result.contains("code block"));
    assert!(result.contains("`inline code`"));
}

#[test]
fn test_complex_scenario() {
    let mut config = WrapConfig::default();
    config.max_width = 80;
    config.handle_code_blocks = true;
    config.preserve_links = true;
    config.preserve_words = true;
    let wrapper = TextWrapper::new(config);
    let text = "This is a long commit message that contains https://example.com and some ```rust\nfn main() {\n    println!(\"Hello\");\n}\n``` plus `inline_code` for reference.";
    let result = wrapper.wrap(text);

    assert!(result.contains("https://example.com"));
    assert!(result.contains("```rust"));
    assert!(result.contains("`inline_code`"));

    let lines: Vec<&str> = result.lines().collect();
    assert!(lines.len() > 1);

    for line in lines {
        if !line.trim().starts_with("```")
            && !line.trim().starts_with("fn")
            && !line.trim().starts_with("println")
        {
            assert!(line.width() <= 80, "Line '{}' exceeds width 80", line);
        }
    }
}

#[test]
fn exact_output_of_greedy_packing() {
    let mut config = WrapConfig::default();
    config.max_width = 20;
    let wrapper = TextWrapper::new(config);
    let result = wrapper.wrap("This is a long line of text that should be wrapped");
    assert_eq!(result, "This is a long line\nof text that should\nbe wrapped");
}

#[test]
fn exact_output_of_long_word_breaking() {
    let mut config = WrapConfig::default();
    config.max_width = 10;
    let wrapper = TextWrapper::new(config);
    let result = wrapper.wrap("Thisisaverylongwordthatneedstobebroken");
    assert_eq!(result, "Thisisaver\nylongwordt\nhatneedsto\nbebroken");
}

#[test]
fn list_marker_is_not_left_alone() {
    let mut config = WrapConfig::default();
    config.max_width = 80;
    let wrapper = TextWrapper::new(config);
    let text = "- This is a very long list item that should wrap properly without breaking after the dash";
    let result = wrapper.wrap(text);
    let first = result.lines().next().unwrap();
    assert_ne!(first, "-");
    assert!(first.len() > 1);
    assert_eq!(
        result,
        "- This is a very long list item that should wrap properly without breaking after\nthe dash"
    );
}

#[test]
fn two_paragraphs_keep_one_blank_line() {
    let mut config = WrapConfig::default();
    config.max_width = 20;
    config.preserve_paragraphs = true;
    let wrapper = TextWrapper::new(config);
    let result = wrapper.wrap("first paragraph of the text\n\nsecond paragraph");
    assert_eq!(result, "first paragraph of\nthe text\n\nsecond paragraph");
    let blank = result.lines().filter(|l| l.is_empty()).count();
    assert_eq!(blank, 1);
}

#[test]
fn empty_text_stays_empty() {
    let wrapper = TextWrapper::new(WrapConfig::default());
    assert_eq!(wrapper.wrap(""), "");
}
