use rdict::error::AppError;
use rdict::render::{
    document, make_definitions, make_etymology, make_header, make_pronunciation, push_info, render,
    render_row, render_rows, terminal_width, terminal_width_from, text_width, Block, BlockKind,
};
use rdict::structs::{Example, Row, Sense, Sound, WordInfo};

const BOLD: &str = "\x1b[1m";
const PLAIN: &str = "\x1b[0m";

fn stored(word: &str, pos: &str, blob: &str) -> Row {
    Row { word: word.to_string(), pos: pos.to_string(), information: Some(blob.to_string()) }
}

fn kinds(blocks: &[Block]) -> Vec<BlockKind> {
    blocks.iter().map(|b| b.kind).collect()
}

const RUN: &str = r#"{"senses":[{"glosses":["To move swiftly.","To flee."],"examples":[{"text":"I run."},{"text":null}]},{"glosses":null,"examples":null},{"glosses":["To flow."],"examples":null}],"etymology_text":"From Old English.","sounds":[{"ipa":"/rʌn/","tags":["UK","US"]},{"ipa":null,"tags":["x"]},{"ipa":"/ɹʌn/","tags":[]},{"ipa":"/run/","tags":null}]}"#;

#[test]
fn the_width_leaves_the_margin_free() {
    assert_eq!(text_width(80), 73);
    assert_eq!(text_width(7), 0);
    assert_eq!(text_width(8), 1);
    assert_eq!(text_width(3), 0);
    assert_eq!(text_width(0), 0);
    assert_eq!(text_width(u16::MAX), 65528);
}

#[test]
fn the_width_of_the_terminal_is_found_or_said_to_be_missing() {
    match terminal_width() {
        Ok(width) => assert!(width <= 65528),
        Err(e) => assert!(matches!(e, AppError::Io(_))),
    }
}

#[test]
fn the_width_follows_what_the_terminal_said() {
    assert_eq!(terminal_width_from(Ok(80)), Ok(73));
    assert_eq!(terminal_width_from(Ok(7)), Ok(0));
    assert_eq!(terminal_width_from(Ok(0)), Ok(0));
    assert_eq!(terminal_width_from(Ok(u16::MAX)), Ok(65528));
    assert_eq!(
        terminal_width_from(Err("not a terminal".to_string())),
        Err(AppError::Io("not a terminal".to_string()))
    );
}

#[test]
fn the_header_frames_the_part_of_speech_in_upper_case() {
    let header = make_header("run", "verb");
    assert_eq!(header.kind, BlockKind::Header);
    assert_eq!(
        header.text,
        format!("{}╭──────╮   ╭─────╮\n│ VERB │   │ run │\n╰──────╯   ╰─────╯{}\n", BOLD, PLAIN)
    );
    let header = make_header("Straße", "straße");
    assert_eq!(
        header.text,
        format!(
            "{}╭─{}─╮   ╭─{}─╮\n│ STRASSE │   │ Straße │\n╰─{}─╯   ╰─{}─╯{}\n",
            BOLD,
            "─".repeat(7),
            "─".repeat(7),
            "─".repeat(7),
            "─".repeat(7),
            PLAIN
        )
    );
}

#[test]
fn a_pronunciation_shows_its_first_tag() {
    let sounds = vec![
        Sound { ipa: Some("/a/".to_string()), tags: Some(vec!["UK".to_string(), "US".to_string()]) },
        Sound { ipa: None, tags: Some(vec!["lost".to_string()]) },
        Sound { ipa: Some("/b/".to_string()), tags: Some(vec![]) },
        Sound { ipa: Some("/c/".to_string()), tags: None },
    ];
    let block = make_pronunciation(&sounds);
    assert_eq!(block.kind, BlockKind::Pronunciation);
    assert_eq!(
        block.text,
        format!("{}# Pronunciation{}\n\n  /a/ (UK)\n  /b/\n  /c/\n", BOLD, PLAIN)
    );
    assert_eq!(
        make_pronunciation(&Vec::new()).text,
        format!("{}# Pronunciation{}\n\n", BOLD, PLAIN)
    );
}

#[test]
fn an_etymology_is_wrapped_behind_two_blanks() {
    let block = make_etymology("From  Middle English rennen", 12);
    assert_eq!(block.kind, BlockKind::Etymology);
    assert_eq!(
        block.text,
        format!("{}# Etymology{}\n\n  From Middle\n  English\n  rennen\n", BOLD, PLAIN)
    );
}

#[test]
fn the_label_of_the_definitions() {
    let block = make_definitions();
    assert_eq!(block.kind, BlockKind::Definitions);
    assert_eq!(block.text, format!("{}# Definitions{}\n", BOLD, PLAIN));
}

#[test]
fn an_entry_is_rendered_block_by_block() {
    let blocks = render_row(&stored("run", "verb", RUN), 90).unwrap();
    assert_eq!(
        kinds(&blocks),
        vec![
            BlockKind::Header,
            BlockKind::Pronunciation,
            BlockKind::Etymology,
            BlockKind::Definitions,
            BlockKind::Sense,
            BlockKind::Sense,
        ]
    );
    assert_eq!(blocks[0], make_header("run", "verb"));
    assert_eq!(
        blocks[1].text,
        format!("{}# Pronunciation{}\n\n  /rʌn/ (UK)\n  /ɹʌn/\n  /run/\n", BOLD, PLAIN)
    );
    assert_eq!(blocks[2].text, format!("{}# Etymology{}\n\n  From Old English.\n", BOLD, PLAIN));
    assert_eq!(blocks[3], make_definitions());
    assert_eq!(
        blocks[4].text,
        format!(
            "{}  To move swiftly.{}\n\n{}  To flee.{}\n\n      \"I run.\"\n",
            BOLD, PLAIN, BOLD, PLAIN
        )
    );
    assert_eq!(blocks[5].text, format!("{}  To flow.{}\n", BOLD, PLAIN));
}

#[test]
fn a_document_puts_a_blank_line_after_every_block() {
    let text = render(&vec![stored("run", "verb", RUN)], 90).unwrap();
    let expected = format!(
        "{b}╭──────╮   ╭─────╮\n│ VERB │   │ run │\n╰──────╯   ╰─────╯{p}\n\
         \n{b}# Pronunciation{p}\n\n  /rʌn/ (UK)\n  /ɹʌn/\n  /run/\n\
         \n{b}# Etymology{p}\n\n  From Old English.\n\
         \n{b}# Definitions{p}\n\
         \n{b}  To move swiftly.{p}\n\
         \n{b}  To flee.{p}\n\
         \n      \"I run.\"\n\
         \n{b}  To flow.{p}\n\
         \n",
        b = BOLD,
        p = PLAIN
    );
    assert_eq!(text, expected);
    assert_eq!(document(&Vec::new()), "");
    assert_eq!(
        document(&vec![
            Block { kind: BlockKind::Sense, text: "a\n".to_string() },
            Block { kind: BlockKind::Sense, text: "".to_string() },
        ]),
        "a\n\n\n"
    );
}

#[test]
fn what_is_missing_gives_no_block() {
    let bare = r#"{"senses":[{"glosses":["One."],"examples":null}],"etymology_text":null,"sounds":null}"#;
    let blocks = render_row(&stored("jog", "noun", bare), 90).unwrap();
    assert_eq!(kinds(&blocks), vec![BlockKind::Header, BlockKind::Definitions, BlockKind::Sense]);
    let text = document(&blocks);
    assert!(!text.contains("# Pronunciation"));
    assert!(!text.contains("# Etymology"));
    assert!(text.contains("# Definitions"));
    let empty = r#"{"senses":[],"etymology_text":"","sounds":[]}"#;
    let blocks = render_row(&stored("jog", "noun", empty), 90).unwrap();
    assert_eq!(kinds(&blocks), vec![BlockKind::Header, BlockKind::Definitions]);
    let quiet = r#"{"senses":[{"glosses":[],"examples":[{"text":null}]},{}],"sounds":[{"tags":["UK"]}]}"#;
    let blocks = render_row(&stored("jog", "noun", quiet), 90).unwrap();
    assert_eq!(
        kinds(&blocks),
        vec![BlockKind::Header, BlockKind::Pronunciation, BlockKind::Definitions]
    );
    assert_eq!(blocks[1].text, format!("{}# Pronunciation{}\n\n", BOLD, PLAIN));
}

#[test]
fn a_row_without_a_record_is_a_header_alone() {
    let row = Row { word: "jog".to_string(), pos: "noun".to_string(), information: None };
    assert_eq!(render_row(&row, 90), Ok(vec![make_header("jog", "noun")]));
}

#[test]
fn the_blocks_of_a_record_follow_what_is_there() {
    let info = WordInfo {
        senses: vec![Sense {
            glosses: None,
            examples: Some(vec![Example { text: Some("a b c d".to_string()) }]),
        }],
        etymology_text: Some("x".to_string()),
        sounds: None,
    };
    let mut blocks = vec![make_definitions()];
    push_info(&mut blocks, &info, 9);
    assert_eq!(
        kinds(&blocks),
        vec![BlockKind::Definitions, BlockKind::Etymology, BlockKind::Definitions, BlockKind::Sense]
    );
    assert_eq!(blocks[3].text, "      \"a b c d\"\n");
    let mut narrow = Vec::new();
    push_info(&mut narrow, &info, 4);
    assert_eq!(narrow[2].text, "      \"a b\n      c d\"\n");
}

#[test]
fn rows_are_rendered_in_order() {
    let bare = r#"{"senses":[],"etymology_text":null,"sounds":null}"#;
    let rows = vec![stored("run", "verb", bare), stored("run", "noun", bare)];
    let blocks = render_rows(&rows, 90).unwrap();
    assert_eq!(
        blocks,
        vec![make_header("run", "verb"), make_definitions(), make_header("run", "noun"), make_definitions()]
    );
    assert_eq!(render(&rows, 90).unwrap(), document(&blocks));
    assert_eq!(render_rows(&Vec::new(), 90), Ok(Vec::new()));
    assert_eq!(render(&Vec::new(), 90), Ok(String::new()));
}

#[test]
fn a_row_that_holds_no_record_ends_the_rendering() {
    let bare = r#"{"senses":[],"etymology_text":null,"sounds":null}"#;
    let rows = vec![stored("run", "verb", bare), stored("run", "noun", "{"), stored("run", "adj", bare)];
    assert!(matches!(render(&rows, 90), Err(AppError::Json(_))));
    assert!(matches!(render_rows(&rows, 90), Err(AppError::Json(_))));
    assert!(matches!(render_row(&rows[1], 90), Err(AppError::Json(_))));
    assert!(matches!(
        render_row(&stored("run", "verb", r#"{"etymology_text":7}"#), 90),
        Err(AppError::Json(_))
    ));
    assert_eq!(
        kinds(&render_row(&stored("run", "verb", r#"{"etymology_text":"x"}"#), 90).unwrap()),
        vec![BlockKind::Header, BlockKind::Etymology, BlockKind::Definitions]
    );
    assert_eq!(
        kinds(&render_row(&stored("run", "verb", "{}"), 90).unwrap()),
        vec![BlockKind::Header, BlockKind::Definitions]
    );
}

#[test]
fn rendering_is_the_same_every_time() {
    let rows = vec![stored("run", "verb", RUN)];
    assert_eq!(render(&rows, 40), render(&rows, 40));
    assert_ne!(render(&rows, 5), render(&rows, 40));
}
