use fastcommit::chars::to_chars;
use fastcommit::text_wrapper::{HybridWrapper, TextSegment};
use regex::Regex;

struct Patterns {
    code_block: Regex,
    link: Regex,
    inline_code: Regex,
}

impl Patterns {
    fn new() -> Self {
        Patterns {
            code_block: Regex::new(r"```[\s\S]*?```").unwrap(),
            link: Regex::new(r"https?://[^\s]+|\[([^\]]+)\]\(([^)]+)\)").unwrap(),
            inline_code: Regex::new(r"`{1,3}[^`]+?`{1,3}").unwrap(),
        }
    }

    fn inline_code(&self, text: &str) -> Vec<TextSegment> {
        let mut segments = Vec::new();
        let mut rest = text;
        while let Some(found) = self.inline_code.find(rest) {
            if found.start() > 0 {
                segments.push(TextSegment::PlainText(rest[..found.start()].to_string()));
            }
            segments.push(TextSegment::InlineCode(found.as_str().to_string()));
            rest = &rest[found.end()..];
        }
        if !rest.is_empty() {
            segments.push(TextSegment::PlainText(rest.to_string()));
        }
        segments
    }

    fn links(&self, text: &str) -> Vec<TextSegment> {
        let mut segments = Vec::new();
        let mut rest = text;
        while let Some(found) = self.link.captures(rest) {
            let whole = found.get(0).unwrap();
            segments.extend(self.inline_code(&rest[..whole.start()]));
            match (found.get(1), found.get(2)) {
                (Some(display), Some(url)) => segments.push(TextSegment::Link(
                    url.as_str().to_string(),
                    display.as_str().to_string(),
                )),
                _ => segments.push(TextSegment::Link(
                    whole.as_str().to_string(),
                    whole.as_str().to_string(),
                )),
            }
            rest = &rest[whole.end()..];
        }
        segments.extend(self.inline_code(rest));
        segments
    }

    fn segments(&self, text: &str) -> Vec<TextSegment> {
        let mut segments = Vec::new();
        let mut rest = text;
        while let Some(found) = self.code_block.find(rest) {
            segments.extend(self.links(&rest[..found.start()]));
            segments.push(TextSegment::CodeBlock(found.as_str().to_string()));
            rest = &rest[found.end()..];
        }
        segments.extend(self.links(rest));
        segments
    }
}

fn next(seed: &mut u64) -> u64 {
    *seed = seed
        .wrapping_mul(6364136223846793005)
        .wrapping_add(1442695040888963407);
    *seed >> 33
}

fn sample(seed: &mut u64, alphabet: &[&str], max_len: u64) -> String {
    let len = next(seed) % (max_len + 1);
    let mut text = String::new();
    for _ in 0..len {
        text.push_str(alphabet[(next(seed) % alphabet.len() as u64) as usize]);
    }
    text
}

#[test]
fn scanners_find_what_the_patterns_find() {
    let patterns = Patterns::new();
    let wrapper = HybridWrapper::new();
    let alphabet = [
        "`", "`", "``", "```", "[", "]", "(", ")", "](", "http://", "https://", "http", "s", ":",
        "/", " ", "\n", "\t", "a", "b", "中", "-", "x y",
    ];
    let mut seed = 20240229u64;
    for _ in 0..4000 {
        let text = sample(&mut seed, &alphabet, 14);
        assert_eq!(
            wrapper.parse_segments(&to_chars(&text)),
            patterns.segments(&text),
            "{text:?}"
        );
    }
}

#[test]
fn scanners_find_what_the_patterns_find_in_hand_picked_text() {
    let patterns = Patterns::new();
    let wrapper = HybridWrapper::new();
    for text in [
        "",
        "plain",
        "``````",
        "```````",
        "````x`",
        "`a``b`",
        "``` ``` ```",
        "```a```b```c```",
        "[a](b)",
        "[a]](b)",
        "[a] (b)",
        "[[a](b)](c)",
        "[](b)",
        "[a]()",
        "[a\nb](c\nd)",
        "http://",
        "http:// x",
        "https://a b",
        "xhttp://a",
        "httpss://a",
        "[http://a](http://a)",
        "see http://a[b](c) d",
        "`[a](b)`",
        "[`a`](b)",
        "```[a](b) http://c `d````",
        "a `b` c ``d`` e ```f``` g",
        "中文 `代码` [链接](https://例子.com) 结束",
    ] {
        assert_eq!(
            wrapper.parse_segments(&to_chars(text)),
            patterns.segments(text),
            "{text:?}"
        );
        assert_eq!(
            wrapper.parse_links_and_code(&to_chars(text)),
            patterns.links(text),
            "{text:?}"
        );
        assert_eq!(
            wrapper.parse_inline_code(&to_chars(text)),
            patterns.inline_code(text),
            "{text:?}"
        );
    }
}

#[test]
fn segments_make_up_the_text_again() {
    let wrapper = HybridWrapper::new();
    let alphabet = ["`", "```", "[", "]", "(", ")", "http://", " ", "\n", "a", "b"];
    let mut seed = 7u64;
    for _ in 0..2000 {
        let text = sample(&mut seed, &alphabet, 12);
        let mut rebuilt = String::new();
        let mut rest = text.as_str();
        for segment in wrapper.parse_segments(&to_chars(&text)) {
            let source = match segment {
                TextSegment::PlainText(s) | TextSegment::CodeBlock(s) | TextSegment::InlineCode(s) => s,
                TextSegment::Link(url, display) => {
                    let markdown = format!("[{display}]({url})");
                    if rest.starts_with(&markdown) {
                        markdown
                    } else {
                        assert_eq!(url, display);
                        url
                    }
                }
            };
            assert!(rest.starts_with(&source), "{text:?}");
            rest = &rest[source.len()..];
            rebuilt.push_str(&source);
        }
        assert_eq!(rebuilt, text);
    }
}
