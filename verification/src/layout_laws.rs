//! What holds of every wrapped text: it keeps the words, in order, and
//! wrapping it again changes nothing.

use crate::format::layout;
use crate::format::lemma_layout_lines_hold_words;
use crate::format::lemma_tokens_are_words;
use crate::format::line_text;
use crate::format::tokens;
use crate::format::wrapped_lines;
use crate::format::wrapped_text;
use crate::text::is_space;
use crate::text::joined;
use crate::text::repeated;
use vstd::prelude::*;

verus! {

/// The words of `lines`, line after line.
pub open spec fn words_of(lines: Seq<Seq<Seq<char>>>) -> Seq<Seq<char>>
    decreases lines.len(),
{
    if lines.len() == 0 {
        Seq::empty()
    } else {
        words_of(lines.drop_last()) + lines.last()
    }
}

/// Whether `word` holds a character and no white space.
pub open spec fn is_word(word: Seq<char>) -> bool {
    word.len() > 0 && forall|j: int| 0 <= j < word.len() ==> !is_space(#[trigger] word[j])
}

/// Whether every item of `words` is a word.
pub open spec fn all_words(words: Seq<Seq<char>>) -> bool {
    forall|k: int| 0 <= k < words.len() ==> is_word(#[trigger] words[k])
}

/// Whether `text` is empty or ends in white space: a word that follows it
/// starts anew.
pub open spec fn is_open(text: Seq<char>) -> bool {
    text.len() == 0 || is_space(text.last())
}

/// `text` without its white space.
pub open spec fn solid(text: Seq<char>) -> Seq<char>
    decreases text.len(),
{
    if text.len() == 0 {
        Seq::empty()
    } else if is_space(text.last()) {
        solid(text.drop_last())
    } else {
        solid(text.drop_last()).push(text.last())
    }
}

/// The characters of `words`, word after word.
pub open spec fn glued(words: Seq<Seq<char>>) -> Seq<char>
    decreases words.len(),
{
    if words.len() == 0 {
        Seq::empty()
    } else {
        glued(words.drop_last()) + words.last()
    }
}

/// The words of a text hold the characters of the text that are not white
/// space, all of them, in order.
pub proof fn lemma_tokens_keep_the_text(text: Seq<char>)
    ensures
        glued(tokens(text)) == solid(text),
    decreases text.len(),
{
    if text.len() > 0 {
        let before = tokens(text.drop_last());
        let c = text.last();
        lemma_tokens_keep_the_text(text.drop_last());
        lemma_tokens_are_words(text.drop_last());
        if is_space(c) {
        } else if text.len() >= 2 && !is_space(text[text.len() - 2]) {
            assert(text.drop_last().last() == text[text.len() - 2]);
            let grown = before.drop_last().push(before.last().push(c));
            assert(grown.drop_last() =~= before.drop_last());
            assert(glued(grown) =~= glued(before).push(c));
        } else {
            assert(before.push(seq![c]).drop_last() =~= before);
            assert(glued(before.push(seq![c])) =~= glued(before).push(c));
        }
    }
}

/// The layout keeps the words: its lines, read in order, hold exactly the
/// words that were laid out, each once.
pub proof fn lemma_layout_keeps_words(words: Seq<Seq<char>>, max_width: nat)
    ensures
        words_of(layout(words, max_width).lines) == words,
    decreases words.len(),
{
    if words.len() > 0 {
        let before = layout(words.drop_last(), max_width);
        let after = layout(words, max_width);
        let word = words.last();
        lemma_layout_keeps_words(words.drop_last(), max_width);
        lemma_layout_lines_hold_words(words.drop_last(), max_width);
        if after.lines == before.lines.push(seq![word]) {
            assert(after.lines.drop_last() =~= before.lines);
            assert(words_of(after.lines) =~= words.drop_last() + seq![word]);
        } else {
            let kept = before.lines.drop_last();
            let last = before.lines.last();
            assert(after.lines == kept.push(last.push(word)));
            assert(after.lines.drop_last() =~= kept);
            assert(words_of(before.lines) == words_of(kept) + last);
            assert(words_of(after.lines) =~= (words_of(kept) + last).push(word));
        }
        assert(words.drop_last().push(word) =~= words);
    } else {
        assert(words_of(layout(words, max_width).lines) =~= words);
    }
}

/// The tokens of a text are words.
pub proof fn lemma_tokens_are_all_words(text: Seq<char>)
    ensures
        all_words(tokens(text)),
{
    lemma_tokens_are_words(text);
}

/// White space at the end adds no word.
pub proof fn lemma_tokens_before_blanks(text: Seq<char>, c: char, n: nat)
    requires
        is_space(c),
    ensures
        tokens(text + repeated(c, n)) == tokens(text),
        n > 0 ==> is_open(text + repeated(c, n)),
        is_open(text) ==> is_open(text + repeated(c, n)),
    decreases n,
{
    if n == 0 {
        assert(text + repeated(c, n) =~= text);
    } else {
        let shorter = text + repeated(c, (n - 1) as nat);
        lemma_tokens_before_blanks(text, c, (n - 1) as nat);
        assert(text + repeated(c, n) =~= shorter.push(c));
        assert(shorter.push(c).drop_last() =~= shorter);
    }
}

/// A word behind white space, or at the start, is a token of its own.
pub proof fn lemma_tokens_with_word(text: Seq<char>, word: Seq<char>)
    requires
        is_open(text),
        is_word(word),
    ensures
        tokens(text + word) == tokens(text).push(word),
        !is_open(text + word),
    decreases word.len(),
{
    let c = word.last();
    let start = word.drop_last();
    assert(text + word =~= (text + start).push(c));
    assert((text + start).push(c).drop_last() =~= text + start);
    if word.len() == 1 {
        assert(text + start =~= text);
        assert(word =~= seq![c]);
        if text.len() > 0 {
            assert((text + word)[(text + word).len() - 2] == text.last());
        }
    } else {
        assert(is_word(start)) by {
            assert forall|j: int| 0 <= j < start.len() implies !is_space(#[trigger] start[j]) by {
                assert(start[j] == word[j]);
            }
        }
        lemma_tokens_with_word(text, start);
        assert((text + word)[(text + word).len() - 2] == start.last());
        assert(start.last() == word[word.len() - 2]);
        assert(tokens(text + start).drop_last() =~= tokens(text));
        assert(start.push(c) =~= word);
    }
}

/// A printed line behind white space, or at the start, adds its words.
pub proof fn lemma_tokens_with_line(text: Seq<char>, line: Seq<Seq<char>>, indent: nat)
    requires
        is_open(text),
        line.len() > 0,
        all_words(line),
    ensures
        tokens(text + line_text(line, indent)) == tokens(text) + line,
        !is_open(text + line_text(line, indent)),
    decreases line.len(),
{
    let blank = seq![' '];
    let word = line.last();
    assert(is_word(word));
    if line.len() == 1 {
        let start = text + repeated(' ', indent);
        lemma_tokens_before_blanks(text, ' ', indent);
        lemma_tokens_with_word(start, word);
        assert(joined(line, blank) == word);
        assert(text + line_text(line, indent) =~= start + word);
        assert(tokens(text).push(word) =~= tokens(text) + line);
    } else {
        let before = line.drop_last();
        assert(all_words(before)) by {
            assert forall|k: int| 0 <= k < before.len() implies is_word(#[trigger] before[k]) by {
                assert(before[k] == line[k]);
            }
        }
        lemma_tokens_with_line(text, before, indent);
        let start = text + line_text(before, indent);
        lemma_tokens_before_blanks(start, ' ', 1);
        assert(repeated(' ', 1) =~= blank);
        lemma_tokens_with_word(start + blank, word);
        assert(joined(line, blank) == joined(before, blank) + blank + word);
        assert(text + line_text(line, indent) =~= start + blank + word);
        assert((tokens(text) + before).push(word) =~= tokens(text) + line);
    }
}

/// The printed lines, a line feed between them, hold the words of the lines.
pub proof fn lemma_tokens_of_lines(lines: Seq<Seq<Seq<char>>>, indent: nat)
    requires
        forall|k: int| 0 <= k < lines.len() ==> (#[trigger] lines[k]).len() > 0 && all_words(lines[k]),
    ensures
        tokens(joined(Seq::new(lines.len(), |k: int| line_text(lines[k], indent)), seq!['\n']))
            == words_of(lines),
        lines.len() > 0 ==> !is_open(
            joined(Seq::new(lines.len(), |k: int| line_text(lines[k], indent)), seq!['\n']),
        ),
    decreases lines.len(),
{
    let feed = seq!['\n'];
    let printed = Seq::new(lines.len(), |k: int| line_text(lines[k], indent));
    if lines.len() == 0 {
        assert(joined(printed, feed) =~= Seq::<char>::empty());
    } else if lines.len() == 1 {
        let nothing = Seq::<char>::empty();
        lemma_tokens_with_line(nothing, lines[0], indent);
        assert(nothing + line_text(lines[0], indent) =~= line_text(lines[0], indent));
        assert(joined(printed, feed) == printed[0]);
        assert(lines.drop_last().len() == 0);
        assert(words_of(lines.drop_last()) =~= Seq::<Seq<char>>::empty());
        assert(words_of(lines) =~= lines[0]);
        assert(tokens(nothing) + lines[0] =~= lines[0]);
    } else {
        let before = lines.drop_last();
        let printed_before = Seq::new(before.len(), |k: int| line_text(before[k], indent));
        assert forall|k: int| 0 <= k < before.len() implies (#[trigger] before[k]).len() > 0
            && all_words(before[k]) by {
            assert(before[k] == lines[k]);
        }
        lemma_tokens_of_lines(before, indent);
        assert(printed.drop_last() =~= printed_before);
        let start = joined(printed_before, feed);
        assert(joined(printed, feed) == start + feed + printed.last());
        lemma_tokens_before_blanks(start, '\n', 1);
        assert(repeated('\n', 1) =~= feed);
        lemma_tokens_with_line(start + feed, lines.last(), indent);
    }
}

/// The lines of a layout of words hold words.
pub proof fn lemma_layout_lines_are_words(words: Seq<Seq<char>>, max_width: nat)
    requires
        all_words(words),
    ensures
        forall|k: int|
            0 <= k < layout(words, max_width).lines.len() ==> (#[trigger] layout(
                words,
                max_width,
            ).lines[k]).len() > 0 && all_words(layout(words, max_width).lines[k]),
    decreases words.len(),
{
    if words.len() > 0 {
        let shorter = words.drop_last();
        let before = layout(shorter, max_width);
        let after = layout(words, max_width);
        let word = words.last();
        assert(is_word(word));
        assert(all_words(shorter)) by {
            assert forall|k: int| 0 <= k < shorter.len() implies is_word(#[trigger] shorter[k]) by {
                assert(shorter[k] == words[k]);
            }
        }
        lemma_layout_lines_are_words(shorter, max_width);
        lemma_layout_lines_hold_words(shorter, max_width);
        assert forall|k: int| 0 <= k < after.lines.len() implies (#[trigger] after.lines[k]).len()
            > 0 && all_words(after.lines[k]) by {
            if after.lines == before.lines.push(seq![word]) {
                if k < before.lines.len() {
                    assert(after.lines[k] == before.lines[k]);
                } else {
                    assert(after.lines[k] =~= seq![word]);
                }
            } else {
                let last = before.lines.last();
                assert(after.lines == before.lines.drop_last().push(last.push(word)));
                if k < before.lines.len() - 1 {
                    assert(after.lines[k] == before.lines[k]);
                } else {
                    assert(after.lines[k] == last.push(word));
                    assert(all_words(last));
                    assert forall|j: int| 0 <= j < last.push(word).len() implies is_word(
                        #[trigger] last.push(word)[j],
                    ) by {
                        if j < last.len() {
                            assert(last.push(word)[j] == last[j]);
                        }
                    }
                }
            }
        }
    }
}

/// Idempotence. A wrapped text holds the words of the text, in order, and no
/// others. So wrapping it again, to whatever width and indent, gives what
/// wrapping the text itself gives; to the same width and indent, it gives
/// the wrapped text back.
pub proof fn lemma_wrap_is_idempotent(
    text: Seq<char>,
    max_width: nat,
    indent: nat,
    again_width: nat,
    again_indent: nat,
)
    ensures
        tokens(wrapped_text(text, max_width, indent)) == tokens(text),
        wrapped_lines(wrapped_text(text, max_width, indent), again_width, again_indent)
            == wrapped_lines(text, again_width, again_indent),
        wrapped_text(wrapped_text(text, max_width, indent), max_width, indent) == wrapped_text(
            text,
            max_width,
            indent,
        ),
{
    let words = tokens(text);
    let lines = layout(words, max_width).lines;
    lemma_tokens_are_all_words(text);
    lemma_layout_lines_are_words(words, max_width);
    lemma_layout_keeps_words(words, max_width);
    lemma_tokens_of_lines(lines, indent);
    assert(wrapped_lines(text, max_width, indent) =~= Seq::new(
        lines.len(),
        |k: int| line_text(lines[k], indent),
    ));
}

} // verus!
