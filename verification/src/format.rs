//! Text layout: the framed header and the greedy word wrap.

use crate::text::byte_len;
use crate::text::char_width;
use crate::text::chars_of;
use crate::text::is_space;
use crate::text::is_whitespace;
use crate::text::joined;
use crate::text::lemma_byte_len_concat;
use crate::text::lemma_byte_len_push;
use crate::text::lemma_byte_len_repeated;
use crate::text::push_all;
use crate::text::push_repeated;
use crate::text::repeated;
use crate::text::string_of;
use crate::text::views_of;
use vstd::prelude::*;

verus! {

/// A frame's top edge over a label of `n` bytes, between its corners.
pub open spec fn frame_top(n: nat) -> Seq<char> {
    seq!['╭', '─'] + repeated('─', n) + seq!['─', '╮']
}

/// A frame's middle row around `label`.
pub open spec fn frame_middle(label: Seq<char>) -> Seq<char> {
    seq!['│', ' '] + label + seq![' ', '│']
}

/// A frame's bottom edge under a label of `n` bytes.
pub open spec fn frame_bottom(n: nat) -> Seq<char> {
    seq!['╰', '─'] + repeated('─', n) + seq!['─', '╯']
}

/// Two framed labels side by side, three blanks apart, on three rows. Each
/// frame is as wide as its label is long in bytes.
pub open spec fn panel_text(word_1: Seq<char>, word_2: Seq<char>) -> Seq<char> {
    let gap = seq![' ', ' ', ' '];
    let n1 = byte_len(word_1);
    let n2 = byte_len(word_2);
    frame_top(n1) + gap + frame_top(n2) + seq!['\n'] + frame_middle(word_1) + gap + frame_middle(
        word_2,
    ) + seq!['\n'] + frame_bottom(n1) + gap + frame_bottom(n2)
}

/// Appends one stroke for each byte of `label`.
fn push_strokes(out: &mut Vec<char>, label: &Vec<char>)
    ensures
        final(out)@ == old(out)@ + repeated('─', byte_len(label@)),
{
    let mut i: usize = 0;
    proof {
        assert(label@.take(0) =~= Seq::<char>::empty());
        assert(out@ =~= old(out)@ + repeated('─', 0));
    }
    while i < label.len()
        invariant
            i <= label.len(),
            out@ == old(out)@ + repeated('─', byte_len(label@.take(i as int))),
        decreases label.len() - i,
    {
        let ghost before = label@.take(i as int);
        let w = char_width(label[i]);
        proof {
            lemma_byte_len_push(before, label[i as int]);
            assert(label@.take(i + 1) =~= before.push(label[i as int]));
            assert(repeated('─', byte_len(before)) + repeated('─', w as nat) =~= repeated(
                '─',
                byte_len(before) + w as nat,
            ));
        }
        push_repeated(out, '─', w);
        i += 1;
    }
    proof {
        assert(label@.take(label.len() as int) =~= label@);
    }
}

/// Appends the top edge of the frame of `label`.
fn push_frame_top(out: &mut Vec<char>, label: &Vec<char>)
    ensures
        final(out)@ == old(out)@ + frame_top(byte_len(label@)),
{
    out.push('╭');
    out.push('─');
    push_strokes(out, label);
    out.push('─');
    out.push('╮');
    assert(out@ =~= old(out)@ + frame_top(byte_len(label@)));
}

/// Appends the middle row of the frame of `label`.
fn push_frame_middle(out: &mut Vec<char>, label: &Vec<char>)
    ensures
        final(out)@ == old(out)@ + frame_middle(label@),
{
    out.push('│');
    out.push(' ');
    push_all(out, label);
    out.push(' ');
    out.push('│');
    assert(out@ =~= old(out)@ + frame_middle(label@));
}

/// Appends the bottom edge of the frame of `label`.
fn push_frame_bottom(out: &mut Vec<char>, label: &Vec<char>)
    ensures
        final(out)@ == old(out)@ + frame_bottom(byte_len(label@)),
{
    out.push('╰');
    out.push('─');
    push_strokes(out, label);
    out.push('─');
    out.push('╯');
    assert(out@ =~= old(out)@ + frame_bottom(byte_len(label@)));
}

/// Appends the blanks between two frames.
fn push_gap(out: &mut Vec<char>)
    ensures
        final(out)@ == old(out)@ + seq![' ', ' ', ' '],
{
    out.push(' ');
    out.push(' ');
    out.push(' ');
    assert(out@ =~= old(out)@ + seq![' ', ' ', ' ']);
}

/// The header of an entry: `word_1` and `word_2`, each in a frame of its own.
pub fn panel_chars(word_1: &Vec<char>, word_2: &Vec<char>) -> (out: Vec<char>)
    ensures
        out@ == panel_text(word_1@, word_2@),
{
    let mut out: Vec<char> = Vec::new();
    push_frame_top(&mut out, word_1);
    push_gap(&mut out);
    push_frame_top(&mut out, word_2);
    out.push('\n');
    push_frame_middle(&mut out, word_1);
    push_gap(&mut out);
    push_frame_middle(&mut out, word_2);
    out.push('\n');
    push_frame_bottom(&mut out, word_1);
    push_gap(&mut out);
    push_frame_bottom(&mut out, word_2);
    assert(out@ =~= panel_text(word_1@, word_2@));
    out
}

/// The header of an entry: `word_1` and `word_2`, each in a frame of its own.
pub fn panel(word_1: &str, word_2: &str) -> (r: String)
    ensures
        r@ == panel_text(word_1@, word_2@),
{
    let first = chars_of(word_1);
    let second = chars_of(word_2);
    let out = panel_chars(&first, &second);
    string_of(&out)
}

/// The words of `text`: its maximal runs of characters that are not white
/// space, in order.
pub open spec fn tokens(text: Seq<char>) -> Seq<Seq<char>>
    decreases text.len(),
{
    if text.len() == 0 {
        Seq::empty()
    } else {
        let before = tokens(text.drop_last());
        let c = text.last();
        if is_space(c) {
            before
        } else if text.len() >= 2 && !is_space(text[text.len() - 2]) {
            before.drop_last().push(before.last().push(c))
        } else {
            before.push(seq![c])
        }
    }
}

/// Every word holds a character, and none of its characters is white space.
pub proof fn lemma_tokens_are_words(text: Seq<char>)
    ensures
        forall|k: int, j: int|
            0 <= k < tokens(text).len() && 0 <= j < tokens(text)[k].len() ==> !is_space(
                #[trigger] tokens(text)[k][j],
            ),
        forall|k: int| 0 <= k < tokens(text).len() ==> (#[trigger] tokens(text)[k]).len() > 0,
        text.len() > 0 && !is_space(text.last()) ==> tokens(text).len() > 0,
    decreases text.len(),
{
    if text.len() > 0 {
        let before = tokens(text.drop_last());
        let c = text.last();
        lemma_tokens_are_words(text.drop_last());
        if is_space(c) {
        } else if text.len() >= 2 && !is_space(text[text.len() - 2]) {
            assert(text.drop_last().last() == text[text.len() - 2]);
            let grown = before.last().push(c);
            assert forall|k: int, j: int|
                0 <= k < tokens(text).len() && 0 <= j < tokens(text)[k].len() implies !is_space(
                #[trigger] tokens(text)[k][j],
            ) by {
                if k < before.len() - 1 {
                    assert(tokens(text)[k] == before[k]);
                } else {
                    assert(tokens(text)[k] == grown);
                    if j < before.last().len() {
                        assert(grown[j] == before.last()[j]);
                    }
                }
            }
            assert forall|k: int| 0 <= k < tokens(text).len() implies (#[trigger] tokens(
                text,
            )[k]).len() > 0 by {
                if k < before.len() - 1 {
                    assert(tokens(text)[k] == before[k]);
                }
            }
        } else {
            assert forall|k: int, j: int|
                0 <= k < tokens(text).len() && 0 <= j < tokens(text)[k].len() implies !is_space(
                #[trigger] tokens(text)[k][j],
            ) by {
                if k < before.len() {
                    assert(tokens(text)[k] == before[k]);
                }
            }
            assert forall|k: int| 0 <= k < tokens(text).len() implies (#[trigger] tokens(
                text,
            )[k]).len() > 0 by {
                if k < before.len() {
                    assert(tokens(text)[k] == before[k]);
                }
            }
        }
    }
}

/// Splits `text` into its words.
pub fn split_tokens(text: &Vec<char>) -> (words: Vec<Vec<char>>)
    ensures
        views_of(words@) == tokens(text@),
{
    let mut words: Vec<Vec<char>> = Vec::new();
    let mut current: Vec<char> = Vec::new();
    let mut i: usize = 0;
    proof {
        assert(text@.take(0) =~= Seq::<char>::empty());
        assert(views_of(words@) =~= tokens(text@.take(0)));
    }
    while i < text.len()
        invariant
            i <= text.len(),
            current@.len() > 0 <==> i > 0 && !is_space(text@[i - 1]),
            current@.len() == 0 ==> views_of(words@) == tokens(text@.take(i as int)),
            current@.len() > 0 ==> views_of(words@).push(current@) == tokens(
                text@.take(i as int),
            ),
        decreases text.len() - i,
    {
        let c = text[i];
        let ghost seen = text@.take(i as int);
        let ghost before = tokens(seen);
        proof {
            assert(text@.take(i + 1).drop_last() =~= seen);
            assert(text@.take(i + 1).last() == c);
            if i > 0 {
                assert(text@.take(i + 1)[i - 1] == text@[i - 1]);
            }
        }
        if is_whitespace(c) {
            if current.len() > 0 {
                let ghost done = views_of(words@);
                words.push(current);
                current = Vec::new();
                assert(views_of(words@) =~= done.push(words@.last()@));
            }
        } else {
            let ghost open_word = current@;
            current.push(c);
            proof {
                if open_word.len() > 0 {
                    assert(before.last() == open_word);
                    assert(before.drop_last() =~= views_of(words@));
                    assert(tokens(text@.take(i + 1)) == before.drop_last().push(
                        before.last().push(c),
                    ));
                } else {
                    assert(current@ =~= seq![c]);
                    assert(tokens(text@.take(i + 1)) == before.push(seq![c]));
                }
            }
        }
        i += 1;
    }
    proof {
        assert(text@.take(text.len() as int) =~= text@);
    }
    if current.len() > 0 {
        let ghost done = views_of(words@);
        words.push(current);
        assert(views_of(words@) =~= done.push(words@.last()@));
    }
    words
}

/// Where the greedy layout stands after some words.
pub struct Layout {
    /// The lines so far, each as the words on it.
    pub lines: Seq<Seq<Seq<char>>>,
    /// The room that is left on the last line, in bytes.
    pub remaining: nat,
}

/// `a - b`, or zero where `b` is the larger.
pub open spec fn minus_or_zero(a: nat, b: nat) -> nat {
    if a >= b {
        (a - b) as nat
    } else {
        0
    }
}

/// The greedy layout of `words` in lines of `max_width` bytes. The first word
/// opens a line. A later word joins the last line, after one blank, where it
/// and the blank fit in the room that is left; else it opens a line of its own.
/// A word is never split: one that is longer than `max_width` leaves no room.
pub open spec fn layout(words: Seq<Seq<char>>, max_width: nat) -> Layout
    decreases words.len(),
{
    if words.len() == 0 {
        Layout { lines: Seq::empty(), remaining: max_width }
    } else {
        let before = layout(words.drop_last(), max_width);
        let word = words.last();
        if words.len() == 1 || byte_len(word) + 1 > before.remaining {
            Layout {
                lines: before.lines.push(seq![word]),
                remaining: minus_or_zero(max_width, byte_len(word)),
            }
        } else {
            Layout {
                lines: before.lines.drop_last().push(before.lines.last().push(word)),
                remaining: (before.remaining - byte_len(word) - 1) as nat,
            }
        }
    }
}

/// A line as it is printed: `indent` blanks, then its words, one blank apart.
pub open spec fn line_text(line: Seq<Seq<char>>, indent: nat) -> Seq<char> {
    repeated(' ', indent) + joined(line, seq![' '])
}

/// The lines that `text` wraps to.
pub open spec fn wrapped_lines(text: Seq<char>, max_width: nat, indent: nat) -> Seq<Seq<char>> {
    let lines = layout(tokens(text), max_width).lines;
    Seq::new(lines.len(), |k: int| line_text(lines[k], indent))
}

/// The wrapped lines of `text` as one string, a line feed between them.
pub open spec fn wrapped_text(text: Seq<char>, max_width: nat, indent: nat) -> Seq<char> {
    joined(wrapped_lines(text, max_width, indent), seq!['\n'])
}

/// The length of `word` in bytes.
fn token_width(word: &Vec<char>) -> (w: u128)
    ensures
        w == byte_len(word@),
{
    let mut w: u128 = 0;
    let mut i: usize = 0;
    proof {
        assert(word@.take(0) =~= Seq::<char>::empty());
    }
    while i < word.len()
        invariant
            i <= word.len(),
            w == byte_len(word@.take(i as int)),
            w <= 4 * i,
        decreases word.len() - i,
    {
        proof {
            lemma_byte_len_push(word@.take(i as int), word[i as int]);
            assert(word@.take(i + 1) =~= word@.take(i as int).push(word[i as int]));
        }
        w = w + char_width(word[i]) as u128;
        i += 1;
    }
    proof {
        assert(word@.take(word.len() as int) =~= word@);
    }
    w
}

/// Lays `words` out in lines of `max_width` bytes behind `indent_length` blanks.
fn wrap_words(words: &Vec<Vec<char>>, max_width: usize, indent_length: usize) -> (lines: Vec<
    Vec<char>,
>)
    ensures
        views_of(lines@) == Seq::new(
            layout(views_of(words@), max_width as nat).lines.len(),
            |k: int|
                line_text(layout(views_of(words@), max_width as nat).lines[k], indent_length as nat),
        ),
{
    let ghost all = views_of(words@);
    let ghost width = max_width as nat;
    let ghost indent = indent_length as nat;
    let mut lines: Vec<Vec<char>> = Vec::new();
    let mut current: Vec<char> = Vec::new();
    let mut space_left: usize = max_width;
    let mut i: usize = 0;
    proof {
        assert(all.take(0) =~= Seq::<Seq<char>>::empty());
    }
    while i < words.len()
        invariant
            i <= words.len(),
            all == views_of(words@),
            width == max_width as nat,
            indent == indent_length as nat,
            space_left == layout(all.take(i as int), width).remaining,
            i == 0 ==> lines@.len() == 0 && current@.len() == 0,
            i > 0 ==> layout(all.take(i as int), width).lines.len() == lines@.len() + 1,
            i > 0 ==> current@ == line_text(layout(all.take(i as int), width).lines.last(), indent),
            forall|k: int|
                0 <= k < lines@.len() ==> (#[trigger] lines@[k])@ == line_text(
                    layout(all.take(i as int), width).lines[k],
                    indent,
                ),
        decreases words.len() - i,
    {
        let word = &words[i];
        let w = token_width(word);
        let ghost before = layout(all.take(i as int), width);
        let ghost after = layout(all.take(i + 1), width);
        proof {
            assert(all.take(i + 1).drop_last() =~= all.take(i as int));
            assert(all.take(i + 1).last() == word@);
        }
        if i == 0 || w >= space_left as u128 {
            if i > 0 {
                lines.push(current);
                current = Vec::new();
            }
            push_repeated(&mut current, ' ', indent_length);
            push_all(&mut current, word);
            space_left = if w >= max_width as u128 {
                0
            } else {
                max_width - w as usize
            };
            proof {
                assert(after.lines == before.lines.push(seq![word@]));
                assert(joined(seq![word@], seq![' ']) == word@);
                assert(current@ =~= line_text(after.lines.last(), indent));
            }
        } else {
            current.push(' ');
            push_all(&mut current, word);
            space_left = space_left - w as usize - 1;
            proof {
                let line = before.lines.last();
                assert(after.lines == before.lines.drop_last().push(line.push(word@)));
                lemma_layout_lines_hold_words(all.take(i as int), width);
                assert(line.push(word@).drop_last() =~= line);
                assert(joined(line.push(word@), seq![' ']) == joined(line, seq![' ']) + seq![' ']
                    + word@);
                assert(current@ =~= line_text(after.lines.last(), indent));
            }
        }
        i += 1;
    }
    proof {
        assert(all.take(words.len() as int) =~= all);
    }
    if i > 0 {
        lines.push(current);
    }
    assert(views_of(lines@) =~= Seq::new(
        layout(all, width).lines.len(),
        |k: int| line_text(layout(all, width).lines[k], indent),
    ));
    lines
}

/// The layout has a line as soon as there is a word, and no line is empty.
pub proof fn lemma_layout_lines_hold_words(words: Seq<Seq<char>>, max_width: nat)
    ensures
        words.len() > 0 ==> layout(words, max_width).lines.len() > 0,
        forall|k: int|
            0 <= k < layout(words, max_width).lines.len() ==> (#[trigger] layout(
                words,
                max_width,
            ).lines[k]).len() > 0,
    decreases words.len(),
{
    if words.len() > 0 {
        lemma_layout_lines_hold_words(words.drop_last(), max_width);
    }
}

/// The lines of `lines`, a `sep` between them.
pub fn join_lines(lines: &Vec<Vec<char>>, sep: char) -> (out: Vec<char>)
    ensures
        out@ == joined(views_of(lines@), seq![sep]),
{
    let mut out: Vec<char> = Vec::new();
    let mut i: usize = 0;
    let ghost all = views_of(lines@);
    proof {
        assert(all.take(0) =~= Seq::<Seq<char>>::empty());
    }
    while i < lines.len()
        invariant
            i <= lines.len(),
            all == views_of(lines@),
            out@ == joined(all.take(i as int), seq![sep]),
        decreases lines.len() - i,
    {
        proof {
            assert(all.take(i + 1).drop_last() =~= all.take(i as int));
            assert(all.take(i + 1).last() == lines@[i as int]@);
        }
        if i > 0 {
            out.push(sep);
        }
        push_all(&mut out, &lines[i]);
        proof {
            if i > 0 {
                assert(out@ =~= joined(all.take(i as int), seq![sep]) + seq![sep] + lines@[i as int]@);
            } else {
                assert(out@ =~= lines@[i as int]@);
            }
        }
        i += 1;
    }
    proof {
        assert(all.take(lines.len() as int) =~= all);
    }
    out
}

/// Wraps `paragraph` word by word into lines of at most `max_width` bytes,
/// each behind `indent_length` blanks that do not count towards the width.
/// White space only separates words; a word longer than `max_width` stands
/// alone on its line, unsplit.
pub fn wrap_lines(paragraph: &str, max_width: usize, indent_length: usize) -> (lines: Vec<String>)
    ensures
        views_of(lines@) == wrapped_lines(paragraph@, max_width as nat, indent_length as nat),
{
    let text = chars_of(paragraph);
    let words = split_tokens(&text);
    let rows = wrap_words(&words, max_width, indent_length);
    let mut lines: Vec<String> = Vec::new();
    let mut i: usize = 0;
    while i < rows.len()
        invariant
            i <= rows.len(),
            views_of(lines@) == views_of(rows@).take(i as int),
        decreases rows.len() - i,
    {
        let ghost done = views_of(lines@);
        lines.push(string_of(&rows[i]));
        assert(views_of(lines@) =~= done.push(rows@[i as int]@));
        assert(views_of(rows@).take(i + 1) =~= done.push(rows@[i as int]@));
        i += 1;
    }
    assert(views_of(rows@).take(rows.len() as int) =~= views_of(rows@));
    lines
}

/// Wraps `paragraph` as `wrap_lines` does and joins the lines by line feeds.
/// A paragraph without words gives the empty string.
pub fn wrap_text(paragraph: &str, max_width: usize, indent_length: usize) -> (r: String)
    ensures
        r@ == wrapped_text(paragraph@, max_width as nat, indent_length as nat),
{
    let text = chars_of(paragraph);
    let out = wrap_chars(&text, max_width, indent_length);
    string_of(&out)
}

/// `wrap_text` on characters.
pub fn wrap_chars(text: &Vec<char>, max_width: usize, indent_length: usize) -> (out: Vec<char>)
    ensures
        out@ == wrapped_text(text@, max_width as nat, indent_length as nat),
{
    let words = split_tokens(text);
    let rows = wrap_words(&words, max_width, indent_length);
    join_lines(&rows, '\n')
}

/// The words of a line, one blank apart, take the bytes of the words and of
/// the blanks between them.
pub open spec fn line_len(line: Seq<Seq<char>>) -> nat {
    byte_len(joined(line, seq![' ']))
}

/// What the layout keeps true of every line and of the room it counts.
proof fn lemma_layout_fits(words: Seq<Seq<char>>, max_width: nat)
    ensures
        forall|k: int|
            0 <= k < layout(words, max_width).lines.len() ==> {
                let line = #[trigger] layout(words, max_width).lines[k];
                line.len() == 1 || line_len(line) <= max_width
            },
        words.len() > 0 ==> layout(words, max_width).remaining == minus_or_zero(
            max_width,
            line_len(layout(words, max_width).lines.last()),
        ),
    decreases words.len(),
{
    if words.len() > 0 {
        let before = layout(words.drop_last(), max_width);
        let after = layout(words, max_width);
        let word = words.last();
        lemma_layout_fits(words.drop_last(), max_width);
        lemma_layout_lines_hold_words(words.drop_last(), max_width);
        if words.len() == 1 || byte_len(word) + 1 > before.remaining {
            assert(joined(seq![word], seq![' ']) == word);
            assert forall|k: int| 0 <= k < after.lines.len() implies {
                let line = #[trigger] after.lines[k];
                line.len() == 1 || line_len(line) <= max_width
            } by {
                if k < before.lines.len() {
                    assert(after.lines[k] == before.lines[k]);
                }
            }
        } else {
            let line = before.lines.last();
            let grown = line.push(word);
            assert(grown.drop_last() =~= line);
            assert(joined(grown, seq![' ']) == joined(line, seq![' ']) + seq![' '] + word);
            lemma_byte_len_concat(joined(line, seq![' ']), seq![' ']);
            lemma_byte_len_concat(joined(line, seq![' ']) + seq![' '], word);
            lemma_byte_len_push(Seq::<char>::empty(), ' ');
            assert(Seq::<char>::empty().push(' ') =~= seq![' ']);
            assert(line_len(grown) == line_len(line) + 1 + byte_len(word));
            assert forall|k: int| 0 <= k < after.lines.len() implies {
                let line = #[trigger] after.lines[k];
                line.len() == 1 || line_len(line) <= max_width
            } by {
                if k < before.lines.len() - 1 {
                    assert(after.lines[k] == before.lines[k]);
                } else {
                    assert(after.lines[k] == grown);
                }
            }
        }
    }
}

/// Whether `line` holds a single word that alone is longer than `max_width`.
pub open spec fn is_long_word(line: Seq<Seq<char>>, max_width: nat) -> bool {
    line.len() == 1 && byte_len(line[0]) > max_width
}

/// Width bound. A line of the wrapped text is as long as its indent and its
/// words with the blanks between them. The words and blanks take at most
/// `max_width` bytes, unless the line holds a single word that alone is
/// longer. So a line is at most `max_width` bytes longer than its indent,
/// and with no indent at most `max_width` bytes long, but for a long word.
pub proof fn lemma_wrap_width_bound(text: Seq<char>, max_width: nat, indent: nat)
    ensures
        wrapped_lines(text, max_width, indent).len() == layout(tokens(text), max_width).lines.len(),
        forall|k: int|
            0 <= k < wrapped_lines(text, max_width, indent).len() ==> {
                let printed = #[trigger] wrapped_lines(text, max_width, indent)[k];
                let line = layout(tokens(text), max_width).lines[k];
                &&& line.len() >= 1
                &&& byte_len(printed) == indent + line_len(line)
                &&& line_len(line) <= max_width || is_long_word(line, max_width)
                &&& byte_len(printed) <= indent + max_width || is_long_word(line, max_width)
                &&& indent == 0 ==> byte_len(printed) <= max_width || is_long_word(line, max_width)
            },
{
    let lines = layout(tokens(text), max_width).lines;
    lemma_layout_fits(tokens(text), max_width);
    lemma_layout_lines_hold_words(tokens(text), max_width);
    assert forall|k: int| 0 <= k < wrapped_lines(text, max_width, indent).len() implies {
        let printed = #[trigger] wrapped_lines(text, max_width, indent)[k];
        let line = layout(tokens(text), max_width).lines[k];
        &&& line.len() >= 1
        &&& byte_len(printed) == indent + line_len(line)
        &&& line_len(line) <= max_width || is_long_word(line, max_width)
        &&& byte_len(printed) <= indent + max_width || is_long_word(line, max_width)
        &&& indent == 0 ==> byte_len(printed) <= max_width || is_long_word(line, max_width)
    } by {
        let line = lines[k];
        assert(wrapped_lines(text, max_width, indent)[k] == line_text(line, indent));
        lemma_byte_len_concat(repeated(' ', indent), joined(line, seq![' ']));
        lemma_byte_len_repeated(' ', indent);
        if line.len() == 1 {
            assert(joined(line, seq![' ']) == line[0]);
        }
    }
}

} // verus!
