//! Rendering: a stored entry as the blocks of text that the pager shows.
//!
//! A document is a sequence of blocks. Each block ends its last line, and a
//! blank line follows every block. An entry gives a header, then a block for
//! its pronunciations and one for its etymology where it has any, then the
//! label of the definitions and a block for each sense that says something.

use crate::entry::info_of_text;
use crate::entry::parse_word_info;
use crate::error::AppError;
use crate::format::panel;
use crate::format::panel_text;
use crate::format::wrap_chars;
use crate::format::wrapped_text;
use crate::structs::ExampleView;
use crate::structs::Row;
use crate::structs::RowView;
use crate::structs::Sense;
use crate::structs::SenseView;
use crate::structs::Sound;
use crate::structs::SoundView;
use crate::structs::WordInfo;
use crate::structs::WordInfoView;
use crate::text::chars_of;
use crate::text::push_all;
use crate::text::push_str;
use crate::text::string_of;
use crate::text::views_of;
use vstd::prelude::*;

verus! {

/// The blanks before a line of an etymology or of a definition.
pub const TEXT_INDENT: usize = 2;

/// The blanks before a line of an example.
pub const EXAMPLE_INDENT: usize = 6;

/// The columns of the terminal that are left free at the right.
pub const MARGIN: u16 = 7;

/// What a block of a document is.
#[derive(Debug, Clone, Copy, PartialEq, Eq)]
pub enum BlockKind {
    Header,
    Pronunciation,
    Etymology,
    Definitions,
    Sense,
}

/// A block of a document: what it is, and its text as it is shown.
#[derive(Debug, Clone, PartialEq, Eq)]
pub struct Block {
    pub kind: BlockKind,
    pub text: String,
}

/// A block as contracts speak of it.
pub struct BlockView {
    pub kind: BlockKind,
    pub text: Seq<char>,
}

impl View for Block {
    type V = BlockView;

    open spec fn view(&self) -> BlockView {
        BlockView { kind: self.kind, text: self.text@ }
    }
}

/// `text` between the escape sequences that switch bold type on and off.
pub open spec fn bold_text(text: Seq<char>) -> Seq<char> {
    "\x1b[1m"@ + text + "\x1b[0m"@
}

/// `text` in upper case, as `str::to_uppercase` gives it.
pub uninterp spec fn uppercased(text: Seq<char>) -> Seq<char>;

/// `ansi_term::Style::paint` with the bold style, printed: `text` between the
/// escape sequence that switches bold type on and the one that resets every
/// style.
#[verifier::external_body]
fn bold(text: &str) -> (r: String)
    ensures
        r@ == bold_text(text@),
{
    ansi_term::Style::new().bold().paint(text).to_string()
}

/// `str::to_uppercase` on `text`. The contract gives what comes back the
/// name `uppercased(text)`: one string always has the same upper case.
#[verifier::external_body]
fn to_upper(text: &str) -> (r: String)
    ensures
        r@ == uppercased(text@),
{
    text.to_uppercase()
}

/// The width that text is wrapped to on a terminal of `columns` columns.
pub fn text_width(columns: u16) -> (width: usize)
    ensures
        width == if columns >= MARGIN {
            columns - MARGIN
        } else {
            0
        },
{
    if columns >= MARGIN {
        (columns - MARGIN) as usize
    } else {
        0
    }
}

/// `crossterm::terminal::size`: the columns of the terminal that the program
/// runs in, or the message of the failure where it runs in none. Nothing is
/// stated of either.
#[verifier::external_body]
fn terminal_columns() -> Result<u16, String> {
    crossterm::terminal::size().map(|size| size.0).map_err(|e| e.to_string())
}

/// The width that text is wrapped to on the terminal that the program runs
/// in: what its columns leave. Without a terminal there is no width.
pub fn terminal_width() -> (r: Result<usize, AppError>)
    ensures
        r matches Ok(width) ==> width <= u16::MAX - MARGIN,
        r matches Err(e) ==> e is Io,
{
    terminal_width_from(terminal_columns())
}

/// The width that text is wrapped to on a terminal that was asked for its
/// columns: what the columns `found` leave, or the failure of the terminal
/// with its message.
pub fn terminal_width_from(found: Result<u16, String>) -> (r: Result<usize, AppError>)
    ensures
        match found {
            Ok(columns) => r == Ok::<usize, AppError>(
                if columns >= MARGIN {
                    (columns - MARGIN) as usize
                } else {
                    0
                },
            ),
            Err(message) => r == Err::<usize, AppError>(AppError::Io(message)),
        },
{
    match found {
        Ok(columns) => Ok(text_width(columns)),
        Err(message) => Err(AppError::Io(message)),
    }
}

/// The header: the part of speech in upper case and the word, framed, in
/// bold.
pub open spec fn header_block(word: Seq<char>, pos: Seq<char>) -> BlockView {
    BlockView {
        kind: BlockKind::Header,
        text: bold_text(panel_text(uppercased(pos), word)) + seq!['\n'],
    }
}

/// The line of a pronunciation: its IPA string behind two blanks, then its
/// first tag in round brackets where it has one. A pronunciation without an
/// IPA string gives no line.
pub open spec fn sound_line(sound: SoundView) -> Seq<char> {
    match sound.ipa {
        Some(ipa) => "  "@ + ipa + (match sound.tags {
            Some(tags) => if tags.len() > 0 {
                " ("@ + tags[0] + ")"@
            } else {
                Seq::empty()
            },
            None => Seq::empty(),
        }) + seq!['\n'],
        None => Seq::empty(),
    }
}

/// The lines of `sounds`, in order.
pub open spec fn sound_lines(sounds: Seq<SoundView>) -> Seq<char>
    decreases sounds.len(),
{
    if sounds.len() == 0 {
        Seq::empty()
    } else {
        sound_lines(sounds.drop_last()) + sound_line(sounds.last())
    }
}

/// The block of the pronunciations: its label, a blank line, the lines.
pub open spec fn pronunciation_block(sounds: Seq<SoundView>) -> BlockView {
    BlockView {
        kind: BlockKind::Pronunciation,
        text: bold_text("# Pronunciation"@) + seq!['\n', '\n'] + sound_lines(sounds),
    }
}

/// The block of the etymology: its label, a blank line, the text wrapped.
pub open spec fn etymology_block(text: Seq<char>, width: nat) -> BlockView {
    BlockView {
        kind: BlockKind::Etymology,
        text: bold_text("# Etymology"@) + seq!['\n', '\n'] + wrapped_text(
            text,
            width,
            TEXT_INDENT as nat,
        ) + seq!['\n'],
    }
}

/// The label of the definitions.
pub open spec fn definitions_block() -> BlockView {
    BlockView { kind: BlockKind::Definitions, text: bold_text("# Definitions"@) + seq!['\n'] }
}

/// A definition: the gloss wrapped, in bold.
pub open spec fn gloss_paragraph(gloss: Seq<char>, width: nat) -> Seq<char> {
    bold_text(wrapped_text(gloss, width, TEXT_INDENT as nat)) + seq!['\n']
}

/// A usage example: the quotation between double quotes, wrapped.
pub open spec fn example_paragraph(quotation: Seq<char>, width: nat) -> Seq<char> {
    wrapped_text(seq!['"'] + quotation + seq!['"'], width, EXAMPLE_INDENT as nat) + seq!['\n']
}

/// The paragraphs of `glosses`, in order.
pub open spec fn gloss_paragraphs(glosses: Seq<Seq<char>>, width: nat) -> Seq<Seq<char>> {
    Seq::new(glosses.len(), |i: int| gloss_paragraph(glosses[i], width))
}

/// The paragraphs of those of `examples` that have a quotation, in order.
pub open spec fn example_paragraphs(examples: Seq<ExampleView>, width: nat) -> Seq<Seq<char>>
    decreases examples.len(),
{
    if examples.len() == 0 {
        Seq::empty()
    } else {
        let before = example_paragraphs(examples.drop_last(), width);
        match examples.last().text {
            Some(quotation) => before.push(example_paragraph(quotation, width)),
            None => before,
        }
    }
}

/// The items of a list that may be missing: none where it is.
pub open spec fn items_or_none<T>(list: Option<Seq<T>>) -> Seq<T> {
    match list {
        Some(items) => items,
        None => Seq::empty(),
    }
}

/// The paragraphs of a sense: its definitions, then its examples.
pub open spec fn sense_paragraphs(sense: SenseView, width: nat) -> Seq<Seq<char>> {
    gloss_paragraphs(items_or_none(sense.glosses), width) + example_paragraphs(
        items_or_none(sense.examples),
        width,
    )
}

/// `paragraphs`, a blank line between them.
pub open spec fn paragraphs_text(paragraphs: Seq<Seq<char>>) -> Seq<char>
    decreases paragraphs.len(),
{
    if paragraphs.len() == 0 {
        Seq::empty()
    } else if paragraphs.len() == 1 {
        paragraphs[0]
    } else {
        paragraphs_text(paragraphs.drop_last()) + seq!['\n'] + paragraphs.last()
    }
}

/// The blocks of `senses`: one for each sense that has a paragraph.
pub open spec fn sense_blocks(senses: Seq<SenseView>, width: nat) -> Seq<BlockView>
    decreases senses.len(),
{
    if senses.len() == 0 {
        Seq::empty()
    } else {
        let before = sense_blocks(senses.drop_last(), width);
        let paragraphs = sense_paragraphs(senses.last(), width);
        if paragraphs.len() == 0 {
            before
        } else {
            before.push(BlockView { kind: BlockKind::Sense, text: paragraphs_text(paragraphs) })
        }
    }
}

/// Whether the entry has a pronunciation.
pub open spec fn has_sounds(info: WordInfoView) -> bool {
    items_or_none(info.sounds).len() > 0
}

/// Whether the entry has an etymology that is not empty.
pub open spec fn has_etymology(info: WordInfoView) -> bool {
    info.etymology_text matches Some(text) && text.len() > 0
}

/// The blocks of what an entry says of its word, after the header.
pub open spec fn info_blocks(info: WordInfoView, width: nat) -> Seq<BlockView> {
    (if has_sounds(info) {
        seq![pronunciation_block(info.sounds.unwrap())]
    } else {
        Seq::empty()
    }) + (if has_etymology(info) {
        seq![etymology_block(info.etymology_text.unwrap(), width)]
    } else {
        Seq::empty()
    }) + seq![definitions_block()] + sense_blocks(info.senses, width)
}

/// The blocks of a stored entry: the header, and where the row holds a
/// record, the blocks of the record. Nothing where what the row holds is not
/// a record.
pub open spec fn row_blocks(row: RowView, width: nat) -> Option<Seq<BlockView>> {
    match row.information {
        None => Some(seq![header_block(row.word, row.pos)]),
        Some(blob) => match info_of_text(blob) {
            Some(info) => Some(seq![header_block(row.word, row.pos)] + info_blocks(info, width)),
            None => None,
        },
    }
}

/// The text of a document: every block, each followed by a blank line.
pub open spec fn document_text(blocks: Seq<BlockView>) -> Seq<char>
    decreases blocks.len(),
{
    if blocks.len() == 0 {
        Seq::empty()
    } else {
        document_text(blocks.drop_last()) + blocks.last().text + seq!['\n']
    }
}

/// The blocks of `rows`, entry after entry in the order of the rows. Nothing
/// where a row holds something that is not a record.
pub open spec fn rows_blocks(rows: Seq<RowView>, width: nat) -> Option<Seq<BlockView>>
    decreases rows.len(),
{
    if rows.len() == 0 {
        Some(Seq::empty())
    } else {
        match (rows_blocks(rows.drop_last(), width), row_blocks(rows.last(), width)) {
            (Some(before), Some(blocks)) => Some(before + blocks),
            _ => None,
        }
    }
}

/// Whether `blocks` holds a block of kind `kind`.
pub open spec fn has_kind(blocks: Seq<BlockView>, kind: BlockKind) -> bool {
    exists|i: int| 0 <= i < blocks.len() && (#[trigger] blocks[i]).kind == kind
}

/// The blocks of senses are blocks of senses.
pub proof fn lemma_sense_blocks_are_senses(senses: Seq<SenseView>, width: nat)
    ensures
        forall|i: int|
            0 <= i < sense_blocks(senses, width).len() ==> (#[trigger] sense_blocks(
                senses,
                width,
            )[i]).kind == BlockKind::Sense,
    decreases senses.len(),
{
    if senses.len() > 0 {
        lemma_sense_blocks_are_senses(senses.drop_last(), width);
    }
}

/// Omission. The blocks of a record hold a block of pronunciations only
/// where the record has a pronunciation, and a block for the etymology only
/// where it has an etymology that is not empty: a record with neither gives
/// neither block. The label of the definitions is always there, once, and
/// after it come only blocks of senses.
pub proof fn lemma_blocks_follow_the_record(info: WordInfoView, width: nat)
    ensures
        has_kind(info_blocks(info, width), BlockKind::Pronunciation) <==> has_sounds(info),
        has_kind(info_blocks(info, width), BlockKind::Etymology) <==> has_etymology(info),
        has_kind(info_blocks(info, width), BlockKind::Definitions),
        !has_kind(info_blocks(info, width), BlockKind::Header),
        ({
            let at = (if has_sounds(info) {
                1int
            } else {
                0int
            }) + (if has_etymology(info) {
                1int
            } else {
                0int
            });
            &&& info_blocks(info, width).len() == at + 1 + sense_blocks(info.senses, width).len()
            &&& info_blocks(info, width)[at] == definitions_block()
            &&& forall|i: int|
                0 <= i < info_blocks(info, width).len() && i != at ==> (#[trigger] info_blocks(
                    info,
                    width,
                )[i]).kind != BlockKind::Definitions
            &&& forall|i: int|
                at < i < info_blocks(info, width).len() ==> (#[trigger] info_blocks(
                    info,
                    width,
                )[i]).kind == BlockKind::Sense
        }),
{
    let blocks = info_blocks(info, width);
    let senses = sense_blocks(info.senses, width);
    lemma_sense_blocks_are_senses(info.senses, width);
    let at = (if has_sounds(info) {
        1int
    } else {
        0int
    }) + (if has_etymology(info) {
        1int
    } else {
        0int
    });
    assert(blocks.len() == at + 1 + senses.len());
    assert(blocks[at] == definitions_block());
    assert forall|i: int| at < i < blocks.len() implies (#[trigger] blocks[i]).kind
        == BlockKind::Sense by {
        assert(blocks[i] == senses[i - at - 1]);
    }
    if has_sounds(info) {
        assert(blocks[0].kind == BlockKind::Pronunciation);
        if has_etymology(info) {
            assert(blocks[1].kind == BlockKind::Etymology);
        }
    } else if has_etymology(info) {
        assert(blocks[0].kind == BlockKind::Etymology);
    }
}

/// Omission, for a stored entry. The document of a row that holds a record
/// starts with the header, always holds the label of the definitions, and
/// holds a block of pronunciations or of an etymology exactly where the
/// record has one to show.
pub proof fn lemma_row_blocks_follow_the_record(row: RowView, info: WordInfoView, width: nat)
    requires
        row.information matches Some(blob) && info_of_text(blob) == Some(info),
    ensures
        row_blocks(row, width) matches Some(blocks) && {
            &&& blocks[0] == header_block(row.word, row.pos)
            &&& has_kind(blocks, BlockKind::Definitions)
            &&& has_kind(blocks, BlockKind::Pronunciation) <==> has_sounds(info)
            &&& has_kind(blocks, BlockKind::Etymology) <==> has_etymology(info)
        },
{
    let rest = info_blocks(info, width);
    let blocks = row_blocks(row, width).unwrap();
    lemma_blocks_follow_the_record(info, width);
    assert(blocks == seq![header_block(row.word, row.pos)] + rest);
    assert forall|i: int| 0 <= i < rest.len() implies blocks[i + 1] == #[trigger] rest[i] by {}
    assert forall|i: int| 1 <= i < blocks.len() implies #[trigger] blocks[i] == rest[i - 1] by {}
    if has_kind(rest, BlockKind::Definitions) {
        let i = choose|i: int| 0 <= i < rest.len() && (#[trigger] rest[i]).kind == BlockKind::Definitions;
        assert(blocks[i + 1].kind == BlockKind::Definitions);
    }
    if has_kind(rest, BlockKind::Pronunciation) {
        let i = choose|i: int| 0 <= i < rest.len() && (#[trigger] rest[i]).kind == BlockKind::Pronunciation;
        assert(blocks[i + 1].kind == BlockKind::Pronunciation);
    }
    if has_kind(rest, BlockKind::Etymology) {
        let i = choose|i: int| 0 <= i < rest.len() && (#[trigger] rest[i]).kind == BlockKind::Etymology;
        assert(blocks[i + 1].kind == BlockKind::Etymology);
    }
    if has_kind(blocks, BlockKind::Pronunciation) {
        let i = choose|i: int| 0 <= i < blocks.len() && (#[trigger] blocks[i]).kind == BlockKind::Pronunciation;
        assert(rest[i - 1].kind == BlockKind::Pronunciation);
    }
    if has_kind(blocks, BlockKind::Etymology) {
        let i = choose|i: int| 0 <= i < blocks.len() && (#[trigger] blocks[i]).kind == BlockKind::Etymology;
        assert(rest[i - 1].kind == BlockKind::Etymology);
    }
}

/// Appends `text` in bold to `out`.
fn push_bold(out: &mut Vec<char>, text: &str)
    ensures
        final(out)@ == old(out)@ + bold_text(text@),
{
    let painted = bold(text);
    push_str(out, painted.as_str());
}

/// Makes the header of an entry.
pub fn make_header(word: &str, pos: &str) -> (block: Block)
    ensures
        block@ == header_block(word@, pos@),
{
    let upper = to_upper(pos);
    let framed = panel(upper.as_str(), word);
    let mut out: Vec<char> = Vec::new();
    push_bold(&mut out, framed.as_str());
    out.push('\n');
    assert(out@ =~= header_block(word@, pos@).text);
    Block { kind: BlockKind::Header, text: string_of(&out) }
}

/// Appends the line of `sound` to `out`.
fn push_sound_line(out: &mut Vec<char>, sound: &Sound)
    ensures
        final(out)@ == old(out)@ + sound_line(sound@),
{
    match &sound.ipa {
        Some(ipa) => {
            push_str(out, "  ");
            push_str(out, ipa.as_str());
            let ghost tag = Seq::<char>::empty();
            match &sound.tags {
                Some(tags) => {
                    if tags.len() > 0 {
                        push_str(out, " (");
                        push_str(out, tags[0].as_str());
                        push_str(out, ")");
                        proof {
                            tag = " ("@ + tags@[0]@ + ")"@;
                        }
                    }
                },
                None => {},
            }
            assert(out@ =~= old(out)@ + "  "@ + ipa@ + tag);
            out.push('\n');
            assert(out@ =~= old(out)@ + sound_line(sound@));
        },
        None => {
            assert(out@ =~= old(out)@ + sound_line(sound@));
        },
    }
}

/// Makes the block of the pronunciations.
pub fn make_pronunciation(sounds: &Vec<Sound>) -> (block: Block)
    ensures
        block@ == pronunciation_block(views_of(sounds@)),
{
    let mut out: Vec<char> = Vec::new();
    push_bold(&mut out, "# Pronunciation");
    out.push('\n');
    out.push('\n');
    let ghost head = out@;
    let ghost all = views_of(sounds@);
    let mut i: usize = 0;
    proof {
        assert(all.take(0) =~= Seq::<SoundView>::empty());
        assert(out@ =~= head + sound_lines(all.take(0)));
    }
    while i < sounds.len()
        invariant
            i <= sounds.len(),
            all == views_of(sounds@),
            out@ == head + sound_lines(all.take(i as int)),
        decreases sounds.len() - i,
    {
        proof {
            assert(all.take(i + 1).drop_last() =~= all.take(i as int));
            assert(all.take(i + 1).last() == sounds@[i as int]@);
        }
        push_sound_line(&mut out, &sounds[i]);
        assert(out@ =~= head + sound_lines(all.take(i + 1)));
        i += 1;
    }
    proof {
        assert(all.take(sounds.len() as int) =~= all);
        assert(head =~= bold_text("# Pronunciation"@) + seq!['\n', '\n']);
    }
    Block { kind: BlockKind::Pronunciation, text: string_of(&out) }
}

/// Makes the block of the etymology.
pub fn make_etymology(text: &str, width: usize) -> (block: Block)
    ensures
        block@ == etymology_block(text@, width as nat),
{
    let mut out: Vec<char> = Vec::new();
    push_bold(&mut out, "# Etymology");
    out.push('\n');
    out.push('\n');
    let wrapped = wrap_chars(&chars_of(text), width, TEXT_INDENT);
    push_all(&mut out, &wrapped);
    out.push('\n');
    assert(out@ =~= etymology_block(text@, width as nat).text);
    Block { kind: BlockKind::Etymology, text: string_of(&out) }
}

/// Makes the label of the definitions.
pub fn make_definitions() -> (block: Block)
    ensures
        block@ == definitions_block(),
{
    let mut out: Vec<char> = Vec::new();
    push_bold(&mut out, "# Definitions");
    out.push('\n');
    assert(out@ =~= definitions_block().text);
    Block { kind: BlockKind::Definitions, text: string_of(&out) }
}

/// The paragraph of a definition.
fn make_gloss(gloss: &str, width: usize) -> (out: Vec<char>)
    ensures
        out@ == gloss_paragraph(gloss@, width as nat),
{
    let wrapped = string_of(&wrap_chars(&chars_of(gloss), width, TEXT_INDENT));
    let mut out: Vec<char> = Vec::new();
    push_bold(&mut out, wrapped.as_str());
    out.push('\n');
    assert(out@ =~= gloss_paragraph(gloss@, width as nat));
    out
}

/// The paragraph of a usage example.
fn make_example(quotation: &str, width: usize) -> (out: Vec<char>)
    ensures
        out@ == example_paragraph(quotation@, width as nat),
{
    let mut quoted: Vec<char> = Vec::new();
    quoted.push('"');
    push_str(&mut quoted, quotation);
    quoted.push('"');
    assert(quoted@ =~= seq!['"'] + quotation@ + seq!['"']);
    let mut out = wrap_chars(&quoted, width, EXAMPLE_INDENT);
    out.push('\n');
    out
}

/// The paragraphs of a sense.
fn make_paragraphs(sense: &Sense, width: usize) -> (out: Vec<Vec<char>>)
    ensures
        views_of(out@) == sense_paragraphs(sense@, width as nat),
{
    let mut out: Vec<Vec<char>> = Vec::new();
    let ghost w = width as nat;
    match &sense.glosses {
        Some(glosses) => {
            let mut i: usize = 0;
            let ghost all = views_of(glosses@);
            while i < glosses.len()
                invariant
                    i <= glosses.len(),
                    all == views_of(glosses@),
                    w == width as nat,
                    views_of(out@) == gloss_paragraphs(all, w).take(i as int),
                decreases glosses.len() - i,
            {
                let ghost done = views_of(out@);
                let paragraph = make_gloss(glosses[i].as_str(), width);
                out.push(paragraph);
                assert(views_of(out@) =~= done.push(paragraph@));
                assert(gloss_paragraphs(all, w).take(i + 1) =~= done.push(paragraph@));
                i += 1;
            }
            assert(gloss_paragraphs(all, w).take(glosses.len() as int) =~= gloss_paragraphs(
                all,
                w,
            ));
        },
        None => {
            assert(views_of(out@) =~= gloss_paragraphs(Seq::empty(), w));
        },
    }
    let ghost first = views_of(out@);
    assert(first == gloss_paragraphs(items_or_none(sense@.glosses), w));
    match &sense.examples {
        Some(examples) => {
            let mut i: usize = 0;
            let ghost all = views_of(examples@);
            proof {
                assert(all.take(0) =~= Seq::<ExampleView>::empty());
                assert(views_of(out@) =~= first + example_paragraphs(all.take(0), w));
            }
            while i < examples.len()
                invariant
                    i <= examples.len(),
                    all == views_of(examples@),
                    w == width as nat,
                    views_of(out@) == first + example_paragraphs(all.take(i as int), w),
                decreases examples.len() - i,
            {
                proof {
                    assert(all.take(i + 1).drop_last() =~= all.take(i as int));
                    assert(all.take(i + 1).last() == examples@[i as int]@);
                }
                let ghost done = views_of(out@);
                match &examples[i].text {
                    Some(quotation) => {
                        let paragraph = make_example(quotation.as_str(), width);
                        out.push(paragraph);
                        assert(views_of(out@) =~= done.push(paragraph@));
                        assert(views_of(out@) =~= first + example_paragraphs(all.take(i + 1), w));
                    },
                    None => {},
                }
                i += 1;
            }
            assert(all.take(examples.len() as int) =~= all);
        },
        None => {
            assert(views_of(out@) =~= first + example_paragraphs(Seq::empty(), w));
        },
    }
    out
}

/// `paragraphs`, a blank line between them.
fn join_paragraphs(paragraphs: &Vec<Vec<char>>) -> (out: Vec<char>)
    ensures
        out@ == paragraphs_text(views_of(paragraphs@)),
{
    let mut out: Vec<char> = Vec::new();
    let mut i: usize = 0;
    let ghost all = views_of(paragraphs@);
    proof {
        assert(all.take(0) =~= Seq::<Seq<char>>::empty());
    }
    while i < paragraphs.len()
        invariant
            i <= paragraphs.len(),
            all == views_of(paragraphs@),
            out@ == paragraphs_text(all.take(i as int)),
        decreases paragraphs.len() - i,
    {
        proof {
            assert(all.take(i + 1).drop_last() =~= all.take(i as int));
            assert(all.take(i + 1).last() == paragraphs@[i as int]@);
        }
        if i > 0 {
            out.push('\n');
        }
        push_all(&mut out, &paragraphs[i]);
        proof {
            if i > 0 {
                assert(out@ =~= paragraphs_text(all.take(i as int)) + seq!['\n']
                    + paragraphs@[i as int]@);
            } else {
                assert(out@ =~= paragraphs@[i as int]@);
            }
        }
        i += 1;
    }
    proof {
        assert(all.take(paragraphs.len() as int) =~= all);
    }
    out
}

/// Appends the blocks of `senses` to `blocks`.
fn push_senses(blocks: &mut Vec<Block>, senses: &Vec<Sense>, width: usize)
    ensures
        views_of(final(blocks)@) == views_of(old(blocks)@) + sense_blocks(
            views_of(senses@),
            width as nat,
        ),
{
    let ghost head = views_of(blocks@);
    let ghost all = views_of(senses@);
    let ghost w = width as nat;
    let mut i: usize = 0;
    proof {
        assert(all.take(0) =~= Seq::<SenseView>::empty());
        assert(views_of(blocks@) =~= head + sense_blocks(all.take(0), w));
    }
    while i < senses.len()
        invariant
            i <= senses.len(),
            all == views_of(senses@),
            w == width as nat,
            views_of(blocks@) == head + sense_blocks(all.take(i as int), w),
        decreases senses.len() - i,
    {
        proof {
            assert(all.take(i + 1).drop_last() =~= all.take(i as int));
            assert(all.take(i + 1).last() == senses@[i as int]@);
        }
        let paragraphs = make_paragraphs(&senses[i], width);
        if paragraphs.len() > 0 {
            let ghost done = views_of(blocks@);
            let text = join_paragraphs(&paragraphs);
            let block = Block { kind: BlockKind::Sense, text: string_of(&text) };
            blocks.push(block);
            assert(views_of(blocks@) =~= done.push(block@));
            assert(views_of(blocks@) =~= head + sense_blocks(all.take(i + 1), w));
        }
        i += 1;
    }
    proof {
        assert(all.take(senses.len() as int) =~= all);
    }
}

/// Appends the blocks of `info`, which follow the header, to `blocks`.
pub fn push_info(blocks: &mut Vec<Block>, info: &WordInfo, width: usize)
    ensures
        views_of(final(blocks)@) == views_of(old(blocks)@) + info_blocks(info@, width as nat),
{
    let ghost head = views_of(blocks@);
    let ghost first = Seq::<BlockView>::empty();
    match &info.sounds {
        Some(sounds) => {
            if sounds.len() > 0 {
                let block = make_pronunciation(sounds);
                blocks.push(block);
                proof {
                    first = seq![pronunciation_block(views_of(sounds@))];
                }
            }
        },
        None => {},
    }
    assert(views_of(blocks@) =~= head + first);
    let ghost second = Seq::<BlockView>::empty();
    match &info.etymology_text {
        Some(text) => {
            if !text.as_str().is_empty() {
                let block = make_etymology(text.as_str(), width);
                blocks.push(block);
                proof {
                    second = seq![etymology_block(text@, width as nat)];
                }
            }
        },
        None => {},
    }
    assert(views_of(blocks@) =~= head + first + second);
    blocks.push(make_definitions());
    assert(views_of(blocks@) =~= head + first + second + seq![definitions_block()]);
    push_senses(blocks, &info.senses, width);
    assert(views_of(blocks@) =~= head + info_blocks(info@, width as nat));
}

/// Appends the blocks of the stored entry `row` to `blocks`. Where the row
/// holds something that is not a record, `blocks` stays as it is.
pub fn push_row(blocks: &mut Vec<Block>, row: &Row, width: usize) -> (r: Result<(), AppError>)
    ensures
        r is Ok <==> row_blocks(row@, width as nat) is Some,
        r is Ok ==> views_of(final(blocks)@) == views_of(old(blocks)@) + row_blocks(
            row@,
            width as nat,
        ).unwrap(),
        r matches Err(e) ==> e is Json && final(blocks)@ == old(blocks)@,
{
    let ghost head = views_of(blocks@);
    match &row.information {
        None => {
            let header = make_header(row.word.as_str(), row.pos.as_str());
            blocks.push(header);
            assert(views_of(blocks@) =~= head + seq![header@]);
            Ok(())
        },
        Some(blob) => match parse_word_info(blob.as_str()) {
            Ok(info) => {
                let header = make_header(row.word.as_str(), row.pos.as_str());
                blocks.push(header);
                assert(views_of(blocks@) =~= head + seq![header@]);
                push_info(blocks, &info, width);
                assert(views_of(blocks@) =~= head + (seq![header@] + info_blocks(
                    info@,
                    width as nat,
                )));
                Ok(())
            },
            Err(e) => Err(e),
        },
    }
}

/// The blocks of the stored entry `row`.
pub fn render_row(row: &Row, width: usize) -> (r: Result<Vec<Block>, AppError>)
    ensures
        r is Ok <==> row_blocks(row@, width as nat) is Some,
        r matches Ok(blocks) ==> views_of(blocks@) == row_blocks(row@, width as nat).unwrap(),
        r matches Err(e) ==> e is Json,
{
    let mut blocks: Vec<Block> = Vec::new();
    match push_row(&mut blocks, row, width) {
        Ok(()) => {
            assert(Seq::<BlockView>::empty() + row_blocks(row@, width as nat).unwrap()
                =~= row_blocks(row@, width as nat).unwrap());
            Ok(blocks)
        },
        Err(e) => Err(e),
    }
}

/// The blocks of `rows`, entry after entry. The first row that does not hold
/// a record ends the rendering with its error.
pub fn render_rows(rows: &Vec<Row>, width: usize) -> (r: Result<Vec<Block>, AppError>)
    ensures
        r is Ok <==> rows_blocks(views_of(rows@), width as nat) is Some,
        r matches Ok(blocks) ==> views_of(blocks@) == rows_blocks(
            views_of(rows@),
            width as nat,
        ).unwrap(),
        r matches Err(e) ==> e is Json,
{
    let mut blocks: Vec<Block> = Vec::new();
    let ghost all = views_of(rows@);
    let ghost w = width as nat;
    let mut i: usize = 0;
    proof {
        assert(all.take(0) =~= Seq::<RowView>::empty());
    }
    while i < rows.len()
        invariant
            i <= rows.len(),
            all == views_of(rows@),
            w == width as nat,
            rows_blocks(all.take(i as int), w) == Some(views_of(blocks@)),
        decreases rows.len() - i,
    {
        proof {
            assert(all.take(i + 1).drop_last() =~= all.take(i as int));
            assert(all.take(i + 1).last() == rows@[i as int]@);
        }
        match push_row(&mut blocks, &rows[i], width) {
            Ok(()) => {},
            Err(e) => {
                proof {
                    lemma_rows_blocks_fail(all, w, i + 1);
                }
                return Err(e);
            },
        }
        i += 1;
    }
    proof {
        assert(all.take(rows.len() as int) =~= all);
    }
    Ok(blocks)
}

/// Where the first `n` rows cannot be rendered, the rows cannot.
pub proof fn lemma_rows_blocks_fail(rows: Seq<RowView>, width: nat, n: int)
    requires
        0 <= n <= rows.len(),
        rows_blocks(rows.take(n), width) is None,
    ensures
        rows_blocks(rows, width) is None,
    decreases rows.len() - n,
{
    if n < rows.len() {
        assert(rows.take(n + 1).drop_last() =~= rows.take(n));
        lemma_rows_blocks_fail(rows, width, n + 1);
    } else {
        assert(rows.take(n) =~= rows);
    }
}

/// The text of a document.
pub fn document(blocks: &Vec<Block>) -> (r: String)
    ensures
        r@ == document_text(views_of(blocks@)),
{
    let mut out: Vec<char> = Vec::new();
    let ghost all = views_of(blocks@);
    let mut i: usize = 0;
    proof {
        assert(all.take(0) =~= Seq::<BlockView>::empty());
    }
    while i < blocks.len()
        invariant
            i <= blocks.len(),
            all == views_of(blocks@),
            out@ == document_text(all.take(i as int)),
        decreases blocks.len() - i,
    {
        proof {
            assert(all.take(i + 1).drop_last() =~= all.take(i as int));
            assert(all.take(i + 1).last() == blocks@[i as int]@);
        }
        push_str(&mut out, blocks[i].text.as_str());
        out.push('\n');
        assert(out@ =~= document_text(all.take(i + 1)));
        i += 1;
    }
    proof {
        assert(all.take(blocks.len() as int) =~= all);
    }
    string_of(&out)
}

/// Renders `rows` as the one document that the pager shows.
pub fn render(rows: &Vec<Row>, width: usize) -> (r: Result<String, AppError>)
    ensures
        r is Ok <==> rows_blocks(views_of(rows@), width as nat) is Some,
        r matches Ok(text) ==> text@ == document_text(
            rows_blocks(views_of(rows@), width as nat).unwrap(),
        ),
        r matches Err(e) ==> e is Json,
{
    match render_rows(rows, width) {
        Ok(blocks) => Ok(document(&blocks)),
        Err(e) => Err(e),
    }
}

} // verus!
