use rdict::format::{join_lines, panel, split_tokens, wrap_chars, wrap_lines, wrap_text};
use rdict::text::{char_width, chars_of, is_whitespace};

fn lines(text: &str, max_width: usize, indent: usize) -> Vec<String> {
    wrap_lines(text, max_width, indent)
}

#[test]
fn wrap_splits_at_the_width() {
    assert_eq!(lines("the quick brown fox", 10, 0), vec!["the quick", "brown fox"]);
    assert_eq!(wrap_text("the quick brown fox", 10, 0), "the quick\nbrown fox");
}

#[test]
fn wrap_of_nothing_is_nothing() {
    assert!(lines("", 10, 2).is_empty());
    assert!(lines(" \t\n  ", 10, 2).is_empty());
    assert_eq!(wrap_text("", 10, 2), "");
    assert_eq!(wrap_text("   ", 10, 2), "");
}

#[test]
fn wrap_keeps_a_long_word_whole_on_its_own_line() {
    assert_eq!(
        lines("a supercalifragilistic b", 5, 2),
        vec!["  a", "  supercalifragilistic", "  b"]
    );
}

#[test]
fn wrap_takes_a_first_word_wider_than_the_line() {
    assert_eq!(lines("abcdefghij k", 3, 0), vec!["abcdefghij", "k"]);
    assert_eq!(lines("a b", 0, 1), vec![" a", " b"]);
}

#[test]
fn wrap_fills_a_line_to_the_last_byte() {
    assert_eq!(lines("ab cd", 5, 0), vec!["ab cd"]);
    assert_eq!(lines("ab cd", 4, 0), vec!["ab", "cd"]);
    assert_eq!(lines("ab cd ef", 5, 0), vec!["ab cd", "ef"]);
}

#[test]
fn wrap_does_not_count_the_indent() {
    assert_eq!(lines("aaaa bbbb", 9, 2), vec!["  aaaa bbbb"]);
    assert_eq!(lines("aaaa bbbb cc", 9, 6), vec!["      aaaa bbbb", "      cc"]);
}

#[test]
fn wrap_squeezes_white_space_of_every_kind() {
    assert_eq!(lines("  a \t b\n\nc\u{a0}d\u{3000}e  ", 80, 0), vec!["a b c d e"]);
    assert_eq!(wrap_text("one\r\ntwo", 3, 1), " one\n two");
}

#[test]
fn wrap_measures_words_in_bytes() {
    assert_eq!("é".len(), 2);
    assert_eq!(lines("é é é", 5, 0), vec!["é é", "é"]);
    assert_eq!(lines("é é", 5, 0), vec!["é é"]);
    assert_eq!(lines("日本 語", 6, 0), vec!["日本", "語"]);
}

#[test]
fn wrap_is_the_same_on_characters() {
    let text = "The  quick brown fox jumps over the lazy dog";
    let chars: Vec<char> = text.chars().collect();
    let wrapped: String = wrap_chars(&chars, 12, 3).into_iter().collect();
    assert_eq!(wrapped, wrap_text(text, 12, 3));
    assert_eq!(wrapped, "   The quick\n   brown fox\n   jumps over\n   the lazy dog");
}

#[test]
fn wrapped_lines_keep_to_the_width() {
    let text = "It was the best of times, it was the worst of times, it was the age of \
                wisdom, it was the age of foolishness, incomprehensibilities included";
    for width in 0..40usize {
        for indent in [0usize, 2, 6] {
            let all = lines(text, width, indent);
            let mut words: Vec<String> = Vec::new();
            for line in &all {
                assert!(line.starts_with(&" ".repeat(indent)));
                let content = &line[indent..];
                assert!(!content.starts_with(' ') && !content.ends_with(' '));
                assert!(!content.contains("  "));
                let count = content.split(' ').count();
                assert!(count == 1 || content.len() <= width);
                if indent == 0 {
                    assert!(count == 1 || line.len() <= width);
                }
                words.extend(content.split(' ').map(String::from));
            }
            let expected: Vec<String> = text.split_whitespace().map(String::from).collect();
            assert_eq!(words, expected);
            assert_eq!(wrap_text(text, width, indent), all.join("\n"));
        }
    }
}

#[test]
fn wrapping_twice_changes_nothing_without_indent() {
    let text = "alpha beta gamma delta epsilon zeta eta theta iota kappa";
    for width in 1..30usize {
        let once = wrap_text(text, width, 0);
        assert_eq!(wrap_text(&once, width, 0), once);
    }
}

#[test]
fn tokens_are_the_runs_between_white_space() {
    let text: Vec<char> = " one  two\tthree ".chars().collect();
    let words: Vec<String> = split_tokens(&text).into_iter().map(|w| w.into_iter().collect()).collect();
    assert_eq!(words, vec!["one", "two", "three"]);
    assert!(split_tokens(&Vec::new()).is_empty());
    let single: Vec<char> = "word".chars().collect();
    assert_eq!(split_tokens(&single), vec![single.clone()]);
}

#[test]
fn lines_are_joined_by_the_separator() {
    let rows: Vec<Vec<char>> = vec!["ab".chars().collect(), Vec::new(), "c".chars().collect()];
    let joined: String = join_lines(&rows, '\n').into_iter().collect();
    assert_eq!(joined, "ab\n\nc");
    assert!(join_lines(&Vec::new(), '\n').is_empty());
}

#[test]
fn panel_frames_both_labels() {
    assert_eq!(
        panel("NOUN", "run"),
        "╭──────╮   ╭─────╮\n│ NOUN │   │ run │\n╰──────╯   ╰─────╯"
    );
}

#[test]
fn panel_of_empty_labels() {
    assert_eq!(panel("", ""), "╭──╮   ╭──╮\n│  │   │  │\n╰──╯   ╰──╯");
}

#[test]
fn panel_is_as_wide_as_the_label_has_bytes() {
    let word = "café";
    assert_eq!(word.len(), 5);
    let expected = format!(
        "╭─{}─╮   ╭─{}─╮\n│ {} │   │ {} │\n╰─{}─╯   ╰─{}─╯",
        "─".repeat(1),
        "─".repeat(5),
        "X",
        word,
        "─".repeat(1),
        "─".repeat(5)
    );
    assert_eq!(panel("X", word), expected);
}

#[test]
fn white_space_is_what_std_says() {
    for code in 0..=0x10FFFFu32 {
        if let Some(c) = char::from_u32(code) {
            assert_eq!(is_whitespace(c), c.is_whitespace(), "U+{:04X}", code);
        }
    }
}

#[test]
fn widths_are_those_of_utf8() {
    for code in 0..=0x10FFFFu32 {
        if let Some(c) = char::from_u32(code) {
            assert_eq!(char_width(c), c.len_utf8(), "U+{:04X}", code);
        }
    }
}

#[test]
fn characters_come_out_in_order() {
    assert_eq!(chars_of("añ日🙂"), vec!['a', 'ñ', '日', '🙂']);
    assert!(chars_of("").is_empty());
}
