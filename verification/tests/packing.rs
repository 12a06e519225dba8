use fastcommit::chars::to_chars;
use fastcommit::text_wrapper::{HybridWrapper, TextSegment, TextWrapper, WrapConfig};

fn width(text: &str) -> usize {
    text.chars().map(|c| if c as u32 >= 0x1000 { 2 } else { 1 }).sum()
}

fn break_at(word: &str, max_width: usize) -> (&str, &str) {
    let mut used = 0;
    for (i, ch) in word.char_indices() {
        used += width(ch.encode_utf8(&mut [0; 4]));
        if used > max_width {
            return (&word[..i], &word[i..]);
        }
    }
    (word, "")
}

// Greedy packing written out plainly, for texts without a list marker and
// widths into which every character fits.
fn pack_words_plainly(text: &str, config: &WrapConfig) -> String {
    let words: Vec<&str> = if config.preserve_words {
        text.split_whitespace().collect()
    } else {
        text.split(' ').collect()
    };
    let mut lines: Vec<String> = Vec::new();
    let mut line = String::new();
    let mut used = width(&config.indent);
    for word in words {
        let word_width = width(word);
        let gap = if line.is_empty() { 0 } else { 1 };
        if used + gap + word_width <= config.max_width {
            if !line.is_empty() {
                line.push(' ');
            }
            line.push_str(word);
            used += gap + word_width;
        } else if config.break_long_words && word_width > config.max_width {
            if !line.is_empty() {
                lines.push(std::mem::take(&mut line));
                used = width(&config.indent);
            }
            let mut rest = word;
            while !rest.is_empty() {
                let room = config.max_width - used;
                let (part, tail) = if width(rest) <= room {
                    (rest, "")
                } else {
                    break_at(rest, room)
                };
                if !line.is_empty() && !line.ends_with(' ') {
                    line.push(' ');
                }
                line.push_str(part);
                used = width(&line);
                if tail.is_empty() {
                    break;
                }
                lines.push(std::mem::replace(&mut line, config.hanging_indent.clone()));
                used = width(&line);
                rest = tail;
            }
        } else {
            if !line.is_empty() {
                lines.push(std::mem::take(&mut line));
            }
            line = config.hanging_indent.clone();
            line.push_str(word);
            used = width(&line);
        }
    }
    if !line.is_empty() {
        lines.push(line);
    }
    lines.join("\n")
}

fn render_plainly(segment: &TextSegment, config: &WrapConfig) -> String {
    match segment {
        TextSegment::PlainText(text) => {
            if config.handle_code_blocks {
                pack_words_plainly(text, config)
            } else {
                text.clone()
            }
        }
        TextSegment::CodeBlock(code) => {
            if config.handle_code_blocks {
                format!("\n{code}\n")
            } else {
                code.clone()
            }
        }
        TextSegment::Link(url, text) => {
            if config.preserve_links {
                format!("[{text}]({url})")
            } else {
                text.clone()
            }
        }
        TextSegment::InlineCode(code) => code.clone(),
    }
}

// Line packing written out plainly, for texts without a list marker and
// settings without indents.
fn pack_segments_plainly(segments: &[TextSegment], config: &WrapConfig) -> String {
    let mut out = String::new();
    let mut line = String::new();
    let mut used = 0;
    for segment in segments {
        let rendered = render_plainly(segment, config);
        let rendered_width = width(&rendered);
        if used + rendered_width <= config.max_width {
            line.push_str(&rendered);
            used += rendered_width;
        } else {
            if !line.is_empty() {
                out.push_str(&line);
                out.push('\n');
            }
            line = rendered;
            used = width(&line);
        }
    }
    out.push_str(&line);
    out
}

fn next(seed: &mut u64) -> u64 {
    *seed = seed
        .wrapping_mul(6364136223846793005)
        .wrapping_add(1442695040888963407);
    *seed >> 33
}

fn sample(seed: &mut u64, alphabet: &[&str], max_len: u64) -> String {
    let len = next(seed) % (max_len + 1);
    let mut text = String::new();
    for _ in 0..len {
        text.push_str(alphabet[(next(seed) % alphabet.len() as u64) as usize]);
    }
    text
}

#[test]
fn word_packing_is_greedy() {
    let wrapper = HybridWrapper::new();
    let alphabet = ["a", "bc", "def", "ghijklm", "中", " ", " ", "  ", "\n", "\t", "x.", ","];
    let mut seed = 11u64;
    for round in 0..3000 {
        let text = sample(&mut seed, &alphabet, 24);
        let mut config = WrapConfig::default();
        config.max_width = 2 + (next(&mut seed) % 12) as usize;
        config.preserve_words = round % 3 != 0;
        config.break_long_words = round % 5 != 0;
        let packed: String = wrapper
            .wrap_without_paragraphs(&to_chars(&text), &config)
            .iter()
            .collect();
        assert_eq!(packed, pack_words_plainly(&text, &config), "{text:?} {config:?}");
    }
}

#[test]
fn line_packing_places_segments_whole() {
    let wrapper = HybridWrapper::new();
    let alphabet = [
        "a", "bc", "def", " ", " ", "\n", "`", "```", "[t](u)", "http://h ", "中", "word ",
    ];
    let mut seed = 5u64;
    for round in 0..3000 {
        let text = sample(&mut seed, &alphabet, 16);
        let mut config = WrapConfig::default();
        config.max_width = 2 + (next(&mut seed) % 20) as usize;
        config.handle_code_blocks = round % 4 != 0;
        config.preserve_links = round % 3 != 0;
        let segments = wrapper.parse_segments(&to_chars(&text));
        let expected = if text.is_empty() {
            String::new()
        } else {
            pack_segments_plainly(&segments, &config)
        };
        let config_again = config.clone();
        assert_eq!(TextWrapper::new(config).wrap(&text), expected, "{text:?} {config_again:?}");
    }
}
