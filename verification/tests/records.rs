use rdict::blob::{write_example, write_sense, write_sound, write_word_info};
use rdict::entry::{
    parse_line, parse_line_at, parse_word_info, read_document, reads_back, serialize_word_info,
};
use rdict::error::AppError;
use rdict::json::{Json, Member};
use rdict::record::{find_member, read_example, read_sense, read_sound, read_word, read_word_info};
use rdict::structs::{Example, Row, Sense, Sound, Word, WordInfo};

fn text(s: &str) -> Json {
    Json::Text(s.to_string())
}

fn member(name: &str, value: Json) -> Member {
    Member { name: name.to_string(), value }
}

fn full_record() -> WordInfo {
    WordInfo {
        senses: vec![
            Sense {
                glosses: Some(vec!["To move swiftly.".to_string(), "To flee.".to_string()]),
                examples: Some(vec![
                    Example { text: Some("I \"run\" daily.".to_string()) },
                    Example { text: None },
                ]),
            },
            Sense { glosses: None, examples: None },
            Sense { glosses: Some(vec![]), examples: Some(vec![]) },
        ],
        etymology_text: Some("From Old English\nrinnan.".to_string()),
        sounds: Some(vec![
            Sound { ipa: Some("/rʌn/".to_string()), tags: Some(vec!["UK".to_string(), "US".to_string()]) },
            Sound { ipa: None, tags: None },
            Sound { ipa: Some("/ɹʌn/".to_string()), tags: Some(vec![]) },
        ]),
    }
}

#[test]
fn a_document_is_read_as_it_is_written() {
    let doc = read_document(r#" {"b": [1, true, null, "x", -2.5e3], "a": {"c": "d"}, "e": false} "#).unwrap();
    assert_eq!(
        doc,
        Json::Object(vec![
            member(
                "b",
                Json::List(vec![Json::Number, Json::Bool(true), Json::Null, text("x"), Json::Number])
            ),
            member("a", Json::Object(vec![member("c", text("d"))])),
            member("e", Json::Bool(false)),
        ])
    );
    assert_eq!(read_document("\"a\\u00e9\\n\"").unwrap(), text("aé\n"));
    assert_eq!(read_document("null").unwrap(), Json::Null);
}

#[test]
fn text_that_is_no_document_is_refused() {
    for bad in ["", "{", "{\"a\":}", "[1,]", "{} x", "nul", "{'a': 1}", "\"open"] {
        match read_document(bad) {
            Err(AppError::Json(_)) => {}
            other => panic!("{:?} gave {:?}", bad, other),
        }
    }
}

#[test]
fn the_first_member_of_a_name_is_found() {
    let members = vec![member("a", text("1")), member("b", Json::Null), member("a", text("2"))];
    assert_eq!(find_member(&members, "a"), Some(&text("1")));
    assert_eq!(find_member(&members, "b"), Some(&Json::Null));
    assert_eq!(find_member(&members, "c"), None);
    assert_eq!(find_member(&members, "A"), None);
    assert_eq!(find_member(&Vec::new(), "a"), None);
}

#[test]
fn a_line_gives_its_row() {
    let line = r#"{"pos": "verb", "extra": 123, "word": "run", "senses": [{"glosses": ["To move swiftly."], "examples": [{"text": "I run.", "ref": "me"}], "id": "x"}], "etymology_text": "From Old English.", "sounds": [{"ipa": "/rʌn/", "tags": ["UK"]}, {"audio": "run.ogg"}], "forms": [{"form": "ran"}]}"#;
    let row = parse_line(line).unwrap();
    assert_eq!(
        row,
        Row {
            word: "run".to_string(),
            pos: "verb".to_string(),
            information: Some(
                r#"{"senses":[{"glosses":["To move swiftly."],"examples":[{"text":"I run."}]}],"etymology_text":"From Old English.","sounds":[{"ipa":"/rʌn/","tags":["UK"]},{"ipa":null,"tags":null}]}"#
                    .to_string()
            ),
        }
    );
}

#[test]
fn what_is_missing_is_stored_as_null() {
    let row = parse_line(r#"{"word":"jog","pos":"noun","senses":[]}"#).unwrap();
    assert_eq!(row.word, "jog");
    assert_eq!(row.pos, "noun");
    assert_eq!(
        row.information.as_deref(),
        Some(r#"{"senses":[],"etymology_text":null,"sounds":null}"#)
    );
    let row = parse_line(
        r#"{"word":"jog","pos":"noun","senses":[{}],"etymology_text":null,"sounds":null}"#,
    )
    .unwrap();
    assert_eq!(
        row.information.as_deref(),
        Some(r#"{"senses":[{"glosses":null,"examples":null}],"etymology_text":null,"sounds":null}"#)
    );
}

#[test]
fn a_line_that_is_no_record_gives_no_row() {
    let bad = [
        "",
        "not json",
        "[]",
        "null",
        "\"run\"",
        r#"{"word":"run","senses":[]}"#,
        r#"{"pos":"verb","senses":[]}"#,
        r#"{"word":1,"pos":"verb","senses":[]}"#,
        r#"{"word":"run","pos":null,"senses":[]}"#,
        r#"{"word":"run","pos":"verb","senses":{}}"#,
        r#"{"word":"run","pos":"verb","senses":["x"]}"#,
        r#"{"word":"run","pos":"verb","senses":[{"glosses":"x"}]}"#,
        r#"{"word":"run","pos":"verb","senses":[{"glosses":[1]}]}"#,
        r#"{"word":"run","pos":"verb","senses":[{"examples":[{"text":1}]}]}"#,
        r#"{"word":"run","pos":"verb","senses":[{"examples":["x"]}]}"#,
        r#"{"word":"run","pos":"verb","senses":[],"etymology_text":5}"#,
        r#"{"word":"run","pos":"verb","senses":[],"sounds":{}}"#,
        r#"{"word":"run","pos":"verb","senses":[],"sounds":[{"ipa":[]}]}"#,
        r#"{"word":"run","pos":"verb","senses":[],"sounds":[{"tags":"UK"}]}"#,
        r#"{"word":"run","pos":"verb","senses":[]} trailing"#,
    ];
    for line in bad {
        assert_eq!(parse_line(line), None, "{}", line);
    }
}

#[test]
fn a_malformed_line_is_named_by_its_number() {
    assert_eq!(parse_line_at("{", 7), Err(AppError::MalformedRecord(7)));
    assert_eq!(parse_line_at("", u64::MAX), Err(AppError::MalformedRecord(u64::MAX)));
    let line = r#"{"word":"jog","pos":"noun","senses":[]}"#;
    assert_eq!(parse_line_at(line, 7), Ok(parse_line(line).unwrap()));
}

#[test]
fn a_stored_record_reads_back_field_for_field() {
    let info = full_record();
    let blob = serialize_word_info(&info);
    assert_eq!(parse_word_info(&blob), Ok(info.clone()));
    assert_eq!(
        blob,
        "{\"senses\":[{\"glosses\":[\"To move swiftly.\",\"To flee.\"],\"examples\":[{\"text\":\"I \\\"run\\\" daily.\"},{\"text\":null}]},{\"glosses\":null,\"examples\":null},{\"glosses\":[],\"examples\":[]}],\"etymology_text\":\"From Old English\\nrinnan.\",\"sounds\":[{\"ipa\":\"/rʌn/\",\"tags\":[\"UK\",\"US\"]},{\"ipa\":null,\"tags\":null},{\"ipa\":\"/ɹʌn/\",\"tags\":[]}]}"
    );
    let empty = WordInfo { senses: vec![], etymology_text: None, sounds: None };
    let blob = serialize_word_info(&empty);
    assert_eq!(blob, r#"{"senses":[],"etymology_text":null,"sounds":null}"#);
    assert_eq!(parse_word_info(&blob), Ok(empty));
}

#[test]
fn the_document_of_a_record_reads_back() {
    let info = full_record();
    assert_eq!(read_word_info(&write_word_info(&info)), Some(info.clone()));
    for sense in &info.senses {
        assert_eq!(read_sense(&write_sense(sense)), Some(sense.clone()));
    }
    for sound in info.sounds.as_ref().unwrap() {
        assert_eq!(read_sound(&write_sound(sound)), Some(sound.clone()));
    }
    let example = Example { text: Some("x".to_string()) };
    assert_eq!(read_example(&write_example(&example)), Some(example));
    assert_eq!(
        write_example(&Example { text: None }),
        Json::Object(vec![member("text", Json::Null)])
    );
}

#[test]
fn storing_a_row_again_changes_nothing() {
    let line = r#"{"word":"run","pos":"verb","senses":[{"glosses":["a"]}],"sounds":[{"ipa":"x"}]}"#;
    let row = parse_line(line).unwrap();
    let blob = row.information.unwrap();
    let again = serialize_word_info(&parse_word_info(&blob).unwrap());
    assert_eq!(again, blob);
}

#[test]
fn a_stored_text_that_is_no_record_is_a_json_error() {
    for bad in ["", "{", "[]", "7", r#"{"senses":"x"}"#, r#"{"etymology_text":7}"#] {
        match parse_word_info(bad) {
            Err(AppError::Json(_)) => {}
            other => panic!("{:?} gave {:?}", bad, other),
        }
    }
}

#[test]
fn a_document_that_is_no_record_is_said_to_be_none() {
    for bad in ["[]", "\"x\"", "null", r#"{"senses":"x"}"#, r#"{"senses":[1]}"#] {
        assert_eq!(
            parse_word_info(bad),
            Err(AppError::Json("not a lexical record".to_string()))
        );
    }
    assert_ne!(parse_word_info("{"), Err(AppError::Json("not a lexical record".to_string())));
}

#[test]
fn a_record_may_leave_out_every_field() {
    let nothing = WordInfo { senses: vec![], etymology_text: None, sounds: None };
    assert_eq!(parse_word_info("{}"), Ok(nothing.clone()));
    assert_eq!(parse_word_info(r#"{"senses":null}"#), Ok(nothing.clone()));
    assert_eq!(parse_word_info(r#"{"senses":[]}"#), Ok(nothing.clone()));
    assert_eq!(
        parse_word_info(r#"{"senses":null,"etymology_text":null,"sounds":null,"word":"x"}"#),
        Ok(nothing.clone())
    );
    assert_eq!(read_word_info(&Json::Object(vec![])), Some(nothing));
    assert_eq!(
        parse_word_info(r#"{"etymology_text":"x"}"#),
        Ok(WordInfo { senses: vec![], etymology_text: Some("x".to_string()), sounds: None })
    );
    assert_eq!(read_word_info(&Json::Object(vec![member("senses", Json::Bool(false))])), None);
    let row = parse_line(r#"{"word":"run","pos":"verb"}"#).unwrap();
    assert_eq!(row.word, "run");
    assert_eq!(row.pos, "verb");
    assert_eq!(
        row.information.as_deref(),
        Some(r#"{"senses":[],"etymology_text":null,"sounds":null}"#)
    );
    assert_eq!(
        parse_line(r#"{"word":"run","pos":"verb","senses":null}"#),
        parse_line(r#"{"word":"run","pos":"verb"}"#)
    );
}

#[test]
fn a_record_reads_back_from_its_stored_text() {
    assert!(reads_back(&full_record()));
    assert!(reads_back(&WordInfo { senses: vec![], etymology_text: None, sounds: None }));
    assert!(reads_back(&WordInfo {
        senses: vec![Sense { glosses: Some(vec!["\u{0}\n\"\\ é 日本".to_string()]), examples: None }],
        etymology_text: Some(String::new()),
        sounds: Some(vec![]),
    }));
}

#[test]
fn records_are_compared_field_for_field() {
    let a = full_record();
    let mut b = full_record();
    assert!(a.same(&b));
    b.senses[0].examples.as_mut().unwrap()[1].text = Some(String::new());
    assert!(!a.same(&b));
    let mut c = full_record();
    c.sounds.as_mut().unwrap()[0].tags.as_mut().unwrap().pop();
    assert!(!a.same(&c));
    let mut d = full_record();
    d.etymology_text = None;
    assert!(!a.same(&d));
    let mut e = full_record();
    e.senses.pop();
    assert!(!a.same(&e));
    let mut f = full_record();
    f.sounds = None;
    assert!(!a.same(&f) && !f.same(&a) && f.same(&f));
    let mut g = full_record();
    g.senses[2].glosses = None;
    assert!(!a.same(&g));
}

#[test]
fn a_word_needs_both_of_its_strings() {
    let both = Json::Object(vec![member("word", text("run")), member("pos", text("verb"))]);
    assert_eq!(
        read_word(&both),
        Some(Word { word: "run".to_string(), pos: "verb".to_string() })
    );
    assert_eq!(read_word(&Json::Object(vec![member("word", text("run"))])), None);
    assert_eq!(
        read_word(&Json::Object(vec![member("word", text("run")), member("pos", Json::Null)])),
        None
    );
    assert_eq!(read_word(&Json::List(vec![text("run"), text("verb")])), None);
}

#[test]
fn null_and_missing_both_stand_for_nothing() {
    let with_null = Json::Object(vec![member("ipa", Json::Null), member("tags", Json::Null)]);
    let nothing = Sound { ipa: None, tags: None };
    assert_eq!(read_sound(&with_null), Some(nothing.clone()));
    assert_eq!(read_sound(&Json::Object(vec![])), Some(nothing));
    assert_eq!(read_sound(&Json::Object(vec![member("ipa", Json::Bool(true))])), None);
    assert_eq!(read_sound(&Json::Null), None);
}
