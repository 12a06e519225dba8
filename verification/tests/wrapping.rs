use fastcommit::chars::to_chars;
use fastcommit::text_wrapper::{
    CharacterWrapper, HybridWrapper, SemanticWrapper, TextSegment, TextWrapper, WordBoundaryWrapper,
    WordWrapper, WrapConfig, WrapStrategy,
};
use fastcommit::width::{char_display_width, str_display_width};

fn wrap_at(width: usize, text: &str) -> String {
    let mut config = WrapConfig::default();
    config.max_width = width;
    TextWrapper::new(config).wrap(text)
}

fn width_of(line: &str) -> u128 {
    str_display_width(&to_chars(line))
}

#[test]
fn characters_below_u1000_are_narrow_and_the_rest_wide() {
    assert_eq!(char_display_width('a'), 1);
    assert_eq!(char_display_width('\u{0fff}'), 1);
    assert_eq!(char_display_width('\u{1000}'), 2);
    assert_eq!(char_display_width('中'), 2);
    assert_eq!(char_display_width('😀'), 2);
    assert_eq!(width_of("a中b"), 4);
    assert_eq!(width_of(""), 0);
}

#[test]
fn no_line_is_wider_than_the_limit() {
    let text = "The quick brown fox jumps over the lazy dog and keeps running through the forest";
    for width in [5usize, 8, 13, 21, 34, 80] {
        let result = wrap_at(width, text);
        for line in result.lines() {
            assert!(width_of(line) <= width as u128, "{line:?} at {width}");
        }
    }
}

#[test]
fn wide_characters_count_two_columns_when_packing() {
    assert_eq!(wrap_at(4, "中文 中文 中文"), "中文\n中文\n中文");
    assert_eq!(wrap_at(5, "中文中文中"), "中文\n中文\n中");
}

#[test]
fn long_word_is_kept_whole_when_breaking_is_off() {
    let mut config = WrapConfig::default();
    config.max_width = 5;
    config.break_long_words = false;
    let result = TextWrapper::new(config).wrap("ab abcdefghij cd");
    assert_eq!(result, "ab\nabcdefghij\ncd");
}

#[test]
fn long_word_starts_on_a_line_of_its_own() {
    assert_eq!(wrap_at(6, "ab abcdefghij"), "ab\nabcdef\nghij");
}

#[test]
fn hanging_indent_starts_continuation_lines() {
    let mut config = WrapConfig::default();
    config.max_width = 10;
    config.hanging_indent = "  ".to_string();
    let reflowed: String = HybridWrapper::new()
        .wrap_without_paragraphs(&to_chars("aaaa bbbb cccc dddd"), &config)
        .iter()
        .collect();
    assert_eq!(reflowed, "aaaa bbbb\n  cccc\n  dddd");
    let result = TextWrapper::new(config).wrap("aaaa `bbbbbbbb`");
    assert_eq!(result, "aaaa\n  `bbbbbbbb`");
}

#[test]
fn indent_starts_the_first_line() {
    let mut config = WrapConfig::default();
    config.max_width = 20;
    config.indent = "> ".to_string();
    let result = TextWrapper::new(config).wrap("aaaa bbbb");
    assert_eq!(result, "> aaaa bbbb");
}

#[test]
fn zero_width_drops_no_content() {
    let result = wrap_at(0, "ab");
    let kept: String = result.chars().filter(|c| !c.is_whitespace()).collect();
    assert_eq!(kept, "ab");
    assert_eq!(result, "\na\nb");
}

#[test]
fn single_spaces_split_words_when_words_are_not_preserved() {
    let mut config = WrapConfig::default();
    config.max_width = 40;
    config.preserve_words = false;
    let result = TextWrapper::new(config).wrap("a  b\tc");
    assert_eq!(result, "a  b\tc");
}

#[test]
fn whitespace_runs_collapse_when_words_are_preserved() {
    assert_eq!(wrap_at(40, "a  b\t\tc\nd"), "a b c d");
}

#[test]
fn inline_code_is_never_split() {
    let text = "Use `a very long command line` now";
    for width in [1usize, 5, 10, 20] {
        let result = wrap_at(width, text);
        assert!(result.contains("`a very long command line`"), "{result:?}");
    }
}

#[test]
fn inline_code_wider_than_the_line_is_placed_whole() {
    assert_eq!(wrap_at(5, "ab `abcdefgh` cd"), "ab\n`abcdefgh`\ncd");
}

#[test]
fn links_are_never_split() {
    let text = "See [the docs](https://example.com/a/b/c) please";
    for width in [1usize, 10, 30] {
        let result = wrap_at(width, text);
        assert!(result.contains("[the docs](https://example.com/a/b/c)"), "{result:?}");
    }
}

#[test]
fn link_is_reduced_to_its_text_when_links_are_not_preserved() {
    let mut config = WrapConfig::default();
    config.max_width = 80;
    config.preserve_links = false;
    let result = TextWrapper::new(config).wrap("See [the docs](https://example.com) now");
    assert_eq!(result, "Seethe docsnow");
}

#[test]
fn code_block_stands_on_lines_of_its_own() {
    assert_eq!(wrap_at(40, "before ```code``` after"), "before\n```code```\nafter");
}

#[test]
fn code_block_is_passed_through_when_not_handled() {
    let mut config = WrapConfig::default();
    config.max_width = 80;
    config.handle_code_blocks = false;
    let result = TextWrapper::new(config).wrap("before ```code``` after");
    assert_eq!(result, "before ```code``` after");
}

#[test]
fn unterminated_markers_stay_plain_text() {
    let wrapper = HybridWrapper::new();
    assert_eq!(
        wrapper.parse_segments(&to_chars("a ```b")),
        vec![TextSegment::PlainText("a ```b".to_string())]
    );
    assert_eq!(
        wrapper.parse_segments(&to_chars("a `b")),
        vec![TextSegment::PlainText("a `b".to_string())]
    );
    assert_eq!(
        wrapper.parse_segments(&to_chars("a [b](c")),
        vec![TextSegment::PlainText("a [b](c".to_string())]
    );
    assert_eq!(wrap_at(80, "a ```b"), "a ```b");
}

#[test]
fn segments_come_in_order_with_their_content() {
    let wrapper = HybridWrapper::new();
    let segments = wrapper.parse_segments(&to_chars(
        "a `b` [c](d) https://e.f ```g``` h",
    ));
    assert_eq!(
        segments,
        vec![
            TextSegment::PlainText("a ".to_string()),
            TextSegment::InlineCode("`b`".to_string()),
            TextSegment::PlainText(" ".to_string()),
            TextSegment::Link("d".to_string(), "c".to_string()),
            TextSegment::PlainText(" ".to_string()),
            TextSegment::Link("https://e.f".to_string(), "https://e.f".to_string()),
            TextSegment::PlainText(" ".to_string()),
            TextSegment::CodeBlock("```g```".to_string()),
            TextSegment::PlainText(" h".to_string()),
        ]
    );
}

#[test]
fn code_blocks_are_found_before_links_and_inline_code() {
    let wrapper = HybridWrapper::new();
    assert_eq!(
        wrapper.parse_segments(&to_chars("```[a](b) `c` https://d```")),
        vec![TextSegment::CodeBlock("```[a](b) `c` https://d```".to_string())]
    );
}

#[test]
fn inline_code_takes_at_most_three_backticks_on_each_side() {
    let wrapper = HybridWrapper::new();
    assert_eq!(
        wrapper.parse_inline_code(&to_chars("````x`")),
        vec![
            TextSegment::PlainText("`".to_string()),
            TextSegment::InlineCode("```x`".to_string()),
        ]
    );
    assert_eq!(
        wrapper.parse_inline_code(&to_chars("``a`` b")),
        vec![
            TextSegment::InlineCode("``a``".to_string()),
            TextSegment::PlainText(" b".to_string()),
        ]
    );
}

#[test]
fn bare_url_runs_to_the_next_whitespace() {
    let wrapper = HybridWrapper::new();
    assert_eq!(
        wrapper.parse_links_and_code(&to_chars("go http://a.b/c?d=e) now")),
        vec![
            TextSegment::PlainText("go ".to_string()),
            TextSegment::Link("http://a.b/c?d=e)".to_string(), "http://a.b/c?d=e)".to_string()),
            TextSegment::PlainText(" now".to_string()),
        ]
    );
    assert_eq!(
        wrapper.parse_links_and_code(&to_chars("http:// x")),
        vec![TextSegment::PlainText("http:// x".to_string())]
    );
}

#[test]
fn list_marker_takes_the_next_word_however_wide() {
    let mut config = WrapConfig::default();
    config.max_width = 6;
    config.break_long_words = false;
    let result = TextWrapper::new(config).wrap("- abcdefgh ij");
    assert_eq!(result, "- abcdefgh\nij");
}

#[test]
fn list_marker_takes_the_first_chunk_of_a_broken_word() {
    assert_eq!(wrap_at(6, "- abcdefgh ij"), "- abcd\nefgh\nij");
}

#[test]
fn list_marker_takes_an_inline_code_span_that_does_not_fit() {
    assert_eq!(wrap_at(6, "- `abcdefgh`"), "- `abcdefgh`");
}

#[test]
fn list_item_with_code_and_links_keeps_its_marker() {
    let text = "- run `cargo build --release` and see [the guide](https://example.com/guide) then rest";
    for width in [4usize, 8, 16, 24, 40] {
        let result = wrap_at(width, text);
        for line in result.lines() {
            assert_ne!(line.trim(), "-", "{result:?} at {width}");
        }
    }
    assert_eq!(wrap_at(12, "- `cargo build` now"), "- `cargo build`\nnow");
}

#[test]
fn code_block_leaves_the_marker_behind() {
    assert_eq!(wrap_at(80, "- ```x```"), "-\n```x```\n");
}

#[test]
fn line_behind_a_list_marker_may_overrun() {
    assert_eq!(wrap_at(6, "- abcde fg"), "- abcde\nfg");
}

#[test]
fn no_line_is_a_bare_list_marker() {
    let text = "- alpha beta gamma delta epsilon zeta eta theta";
    for width in [4usize, 5, 7, 10, 20] {
        let result = wrap_at(width, text);
        for line in result.lines() {
            assert_ne!(line.trim(), "-", "{result:?} at {width}");
        }
    }
}

#[test]
fn paragraphs_stay_one_blank_line_apart() {
    let mut config = WrapConfig::default();
    config.max_width = 10;
    config.preserve_paragraphs = true;
    let wrapper = TextWrapper::new(config);
    for breaks in ["\n\n", "\n\n\n", "\n\n\n\n", "\n\n\n\n\n", "\n \n\n"] {
        let text = format!("one two three{breaks}four five six{breaks}seven");
        let result = wrapper.wrap(&text);
        assert_eq!(result, "one two\nthree\n\nfour five\nsix\n\nseven");
        assert_eq!(result.lines().filter(|l| l.is_empty()).count(), 2);
    }
}

#[test]
fn hard_line_breaks_survive_paragraph_wrapping() {
    let mut config = WrapConfig::default();
    config.max_width = 10;
    config.preserve_paragraphs = true;
    let wrapper = TextWrapper::new(config);
    assert_eq!(wrapper.wrap("title\nbody one two three"), "title\nbody one\ntwo three");
    assert_eq!(wrapper.wrap("a\n   \nb"), "a\n\nb");
    assert_eq!(wrapper.wrap("  \n\n  "), "");
}

#[test]
fn line_feeds_are_whitespace_without_paragraph_wrapping() {
    assert_eq!(wrap_at(80, "one\ntwo\n\nthree"), "one two three");
}

#[test]
fn short_text_comes_back_unchanged() {
    for text in ["short", "two words", "a b c d e"] {
        assert_eq!(wrap_at(20, text), text);
    }
    let mut config = WrapConfig::default();
    config.max_width = 20;
    config.preserve_paragraphs = true;
    let wrapper = TextWrapper::new(config);
    let tidy = "fix: a title\n\nfirst line\nsecond line\n\nlast paragraph";
    assert_eq!(wrapper.wrap(tidy), tidy);
}

#[test]
fn every_strategy_runs_the_same_pipeline() {
    let text = "Use the `command` to run it, see [docs](https://example.com) for more";
    let mut outputs = Vec::new();
    for strategy in [WrapStrategy::WordBoundary, WrapStrategy::Hybrid, WrapStrategy::Semantic] {
        let mut config = WrapConfig::default();
        config.max_width = 20;
        config.strategy = strategy;
        outputs.push(TextWrapper::new(config).wrap(text));
    }
    assert_eq!(outputs[0], outputs[1]);
    assert_eq!(outputs[1], outputs[2]);
    let mut config = WrapConfig::default();
    config.max_width = 20;
    assert_eq!(WordBoundaryWrapper::new().wrap_text(text, &config), outputs[1]);
    assert_eq!(SemanticWrapper::new().wrap_text(text, &config), outputs[1]);
    assert_eq!(HybridWrapper::new().wrap_text(text, &config), outputs[1]);
}

#[test]
fn segments_can_be_wrapped_directly() {
    let mut config = WrapConfig::default();
    config.max_width = 12;
    let segments = vec![
        TextSegment::PlainText("run ".to_string()),
        TextSegment::InlineCode("`make all`".to_string()),
        TextSegment::PlainText(" then rest".to_string()),
    ];
    assert_eq!(
        HybridWrapper::new().wrap_segments(&segments, &config),
        "run\n`make all`\nthen rest"
    );
    assert_eq!(
        WordBoundaryWrapper::new().wrap_segments(&segments, &config),
        "run\n`make all`\nthen rest"
    );
}

#[test]
fn character_wrapper_fills_lines_character_by_character() {
    let mut config = WrapConfig::default();
    config.max_width = 4;
    assert_eq!(CharacterWrapper.wrap_text("abcdefghij", &config), "abcd\nefgh\nij");
    assert_eq!(CharacterWrapper.wrap_text("", &config), "");
    let segments = vec![
        TextSegment::PlainText("ab".to_string()),
        TextSegment::Link("https://x".to_string(), "cd".to_string()),
        TextSegment::InlineCode("`e`".to_string()),
    ];
    assert_eq!(CharacterWrapper.wrap_segments(&segments, &config), "abcd\n`e`");
}

#[test]
fn default_wrapper_uses_the_default_settings() {
    let config = WrapConfig::default();
    assert_eq!(config.max_width, 80);
    assert!(config.preserve_words);
    assert!(config.break_long_words);
    assert!(config.handle_code_blocks);
    assert!(config.preserve_links);
    assert!(!config.preserve_paragraphs);
    assert_eq!(config.strategy, WrapStrategy::Hybrid);
    assert_eq!(config.indent, "");
    assert_eq!(config.hanging_indent, "");
    let text = "a ".repeat(60);
    assert_eq!(TextWrapper::default().wrap(&text), TextWrapper::new(config).wrap(&text));
}

#[test]
fn break_word_at_width_splits_where_the_word_stops_fitting() {
    let wrapper = HybridWrapper::new();
    let word = to_chars("ab中cd");
    let (head, tail) = wrapper.break_word_at_width(&word, 3);
    assert_eq!(head.iter().collect::<String>(), "ab");
    assert_eq!(tail.iter().collect::<String>(), "中cd");
    let (head, tail) = wrapper.break_word_at_width(&word, 10);
    assert_eq!(head.iter().collect::<String>(), "ab中cd");
    assert!(tail.is_empty());
    let (head, tail) = wrapper.break_word_at_width(&word, 0);
    assert!(head.is_empty());
    assert_eq!(tail.iter().collect::<String>(), "ab中cd");
}

#[test]
fn plain_text_can_be_wrapped_with_or_without_paragraphs() {
    let wrapper = HybridWrapper::new();
    let mut config = WrapConfig::default();
    config.max_width = 7;
    let text = to_chars("aa bb cc\n\ndd `ee` ff");
    let flat: String = wrapper.wrap_plain_text(&text, &config).iter().collect();
    assert_eq!(flat, "aa bb\ncc dd\n`ee` ff");
    config.preserve_paragraphs = true;
    let kept: String = wrapper.wrap_plain_text(&text, &config).iter().collect();
    assert_eq!(kept, "aa bb\ncc\n\ndd `ee`\nff");
    let same: String = wrapper.wrap_with_paragraphs(&text, &config).iter().collect();
    assert_eq!(same, kept);
}
