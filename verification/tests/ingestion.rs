use rdict::error::AppError;
use rdict::ingest::{ingest_lines, Ingest, IngestReport, Policy, Step};
use rdict::store::{
    lookup, prepare_statements, CREATE_INDEX, CREATE_TABLE, DROP_TABLE, INSERT_ROW, SELECT_WORD,
};
use rdict::structs::Row;

fn good(word: &str, pos: &str) -> String {
    format!(r#"{{"word":"{}","pos":"{}","senses":[{{"glosses":["{} as {}"]}}]}}"#, word, pos, word, pos)
}

fn row(word: &str, pos: &str) -> Row {
    Row {
        word: word.to_string(),
        pos: pos.to_string(),
        information: Some(format!(
            r#"{{"senses":[{{"glosses":["{} as {}"],"examples":null}}],"etymology_text":null,"sounds":null}}"#,
            word, pos
        )),
    }
}

fn corpus() -> Vec<String> {
    vec![good("run", "verb"), good("jog", "noun"), good("run", "noun")]
}

fn fetch(conn: &rusqlite::Connection, word: &str) -> Vec<Row> {
    let mut statement = conn.prepare(SELECT_WORD).unwrap();
    let found = statement
        .query_map([word], |r| {
            Ok(Row { word: r.get(0)?, pos: r.get(1)?, information: r.get(2)? })
        })
        .unwrap();
    found.map(|r| r.unwrap()).collect()
}

fn count(conn: &rusqlite::Connection) -> i64 {
    conn.query_row("SELECT COUNT(*) FROM en", (), |r| r.get(0)).unwrap()
}

fn fresh_store() -> rusqlite::Connection {
    let mut conn = rusqlite::Connection::open_in_memory().unwrap();
    assert_eq!(load(&mut conn, &[], Policy::Strict), Ok(IngestReport { stored: 0, skipped: 0 }));
    conn
}

fn load(conn: &mut rusqlite::Connection, lines: &[String], policy: Policy) -> Result<IngestReport, AppError> {
    let transaction = conn.transaction().unwrap();
    for statement in prepare_statements() {
        transaction.execute(statement, ()).unwrap();
    }
    let mut state = Ingest::new(policy);
    for line in lines {
        assert!(state.ready());
        match state.line(line) {
            Step::Insert(row) => {
                let blob = row.information.unwrap();
                transaction.execute(INSERT_ROW, [row.word.as_str(), row.pos.as_str(), blob.as_str()]).unwrap();
            }
            Step::Skip => {}
            Step::Stop => break,
        }
    }
    let report = state.finish()?;
    transaction.commit().unwrap();
    Ok(report)
}

#[test]
fn a_run_is_strict_unless_asked_otherwise() {
    assert_eq!(Policy::default(), Policy::Strict);
}

#[test]
fn a_run_starts_empty() {
    let state = Ingest::new(Policy::Strict);
    assert_eq!(
        state,
        Ingest { policy: Policy::Strict, lines: 0, stored: 0, skipped: 0, failure: None }
    );
    assert!(state.ready());
    assert_eq!(state.finish(), Ok(IngestReport { stored: 0, skipped: 0 }));
}

#[test]
fn a_good_line_is_queued() {
    let mut state = Ingest::new(Policy::Strict);
    assert_eq!(state.line(&good("run", "verb")), Step::Insert(row("run", "verb")));
    assert_eq!(
        state,
        Ingest { policy: Policy::Strict, lines: 1, stored: 1, skipped: 0, failure: None }
    );
    assert_eq!(state.finish(), Ok(IngestReport { stored: 1, skipped: 0 }));
}

#[test]
fn a_strict_run_stops_at_the_first_bad_line() {
    let mut state = Ingest::new(Policy::Strict);
    assert_eq!(state.line(&good("run", "verb")), Step::Insert(row("run", "verb")));
    assert_eq!(state.line("{"), Step::Stop);
    let stopped = Ingest {
        policy: Policy::Strict,
        lines: 1,
        stored: 1,
        skipped: 0,
        failure: Some(AppError::MalformedRecord(2)),
    };
    assert_eq!(state, stopped);
    assert!(state.ready());
    assert_eq!(state.line(&good("jog", "noun")), Step::Stop);
    assert_eq!(state.line("also bad"), Step::Stop);
    state.fail(AppError::Io("late".to_string()));
    assert_eq!(state, stopped);
    assert_eq!(state.finish(), Err(AppError::MalformedRecord(2)));
}

#[test]
fn a_failure_of_the_store_stops_every_run() {
    for policy in [Policy::Strict, Policy::Lenient] {
        let mut state = Ingest::new(policy);
        assert_eq!(state.line(&good("run", "verb")), Step::Insert(row("run", "verb")));
        state.fail(AppError::Sqlite("disk full".to_string()));
        assert_eq!(state.line(&good("jog", "noun")), Step::Stop);
        state.fail(AppError::Io("gone".to_string()));
        assert_eq!(
            state,
            Ingest {
                policy,
                lines: 1,
                stored: 1,
                skipped: 0,
                failure: Some(AppError::Sqlite("disk full".to_string())),
            }
        );
        assert_eq!(state.finish(), Err(AppError::Sqlite("disk full".to_string())));
    }
}

#[test]
fn a_lenient_run_passes_over_bad_lines() {
    let mut state = Ingest::new(Policy::Lenient);
    assert_eq!(state.line("{"), Step::Skip);
    assert_eq!(state.line(&good("run", "verb")), Step::Insert(row("run", "verb")));
    assert_eq!(state.line(r#"{"word":"x","senses":[]}"#), Step::Skip);
    assert_eq!(
        state,
        Ingest { policy: Policy::Lenient, lines: 3, stored: 1, skipped: 2, failure: None }
    );
    assert_eq!(state.finish(), Ok(IngestReport { stored: 1, skipped: 2 }));
}

#[test]
fn a_run_without_room_is_not_ready() {
    let full = Ingest { policy: Policy::Lenient, lines: u64::MAX, stored: u64::MAX, skipped: 0, failure: None };
    assert!(!full.ready());
    let odd = Ingest { policy: Policy::Lenient, lines: 3, stored: 1, skipped: 1, failure: None };
    assert!(!odd.ready());
    let stopped = Ingest {
        policy: Policy::Strict,
        lines: 2,
        stored: 2,
        skipped: 0,
        failure: Some(AppError::MalformedRecord(3)),
    };
    assert!(stopped.ready());
}

#[test]
fn a_load_gives_the_rows_in_order() {
    let (rows, report) = ingest_lines(&corpus(), Policy::Strict).unwrap();
    assert_eq!(rows, vec![row("run", "verb"), row("jog", "noun"), row("run", "noun")]);
    assert_eq!(report, IngestReport { stored: 3, skipped: 0 });
    assert_eq!(
        ingest_lines(&Vec::new(), Policy::Strict),
        Ok((Vec::new(), IngestReport { stored: 0, skipped: 0 }))
    );
}

#[test]
fn a_strict_load_with_a_bad_line_stores_nothing() {
    for at in 0..4usize {
        let mut lines = corpus();
        lines.insert(at, "{\"word\": ".to_string());
        assert_eq!(
            ingest_lines(&lines, Policy::Strict),
            Err(AppError::MalformedRecord(at as u64 + 1))
        );
    }
    let lines = vec!["x".to_string(), good("run", "verb"), "y".to_string()];
    assert_eq!(ingest_lines(&lines, Policy::Strict), Err(AppError::MalformedRecord(1)));
}

#[test]
fn a_lenient_load_reports_what_it_stored() {
    let lines = vec![
        "".to_string(),
        good("run", "verb"),
        "[]".to_string(),
        good("jog", "noun"),
        r#"{"word":"run","pos":"noun","senses":7}"#.to_string(),
        good("run", "noun"),
        "null".to_string(),
    ];
    let (rows, report) = ingest_lines(&lines, Policy::Lenient).unwrap();
    assert_eq!(rows, vec![row("run", "verb"), row("jog", "noun"), row("run", "noun")]);
    assert_eq!(report, IngestReport { stored: 3, skipped: 4 });
    assert_eq!(report.stored as usize, lines.len() - 4);
    let none = vec!["a".to_string(), "b".to_string()];
    assert_eq!(
        ingest_lines(&none, Policy::Lenient),
        Ok((Vec::new(), IngestReport { stored: 0, skipped: 2 }))
    );
}

#[test]
fn a_strict_load_that_fails_leaves_the_store_empty() {
    let mut conn = fresh_store();
    let mut lines = corpus();
    lines.insert(2, "not a record".to_string());
    assert_eq!(load(&mut conn, &lines, Policy::Strict), Err(AppError::MalformedRecord(3)));
    assert_eq!(count(&conn), 0);
    assert_eq!(lookup(&fetch(&conn, "run"), "run"), Err(AppError::NoResults));
}

#[test]
fn a_lenient_load_stores_the_good_lines() {
    let mut conn = fresh_store();
    let mut lines = corpus();
    lines.insert(1, "not a record".to_string());
    lines.push("{}".to_string());
    assert_eq!(load(&mut conn, &lines, Policy::Lenient), Ok(IngestReport { stored: 3, skipped: 2 }));
    assert_eq!(count(&conn), 3);
}

#[test]
fn a_word_is_found_in_the_order_ingested() {
    let mut conn = fresh_store();
    assert_eq!(load(&mut conn, &corpus(), Policy::Strict), Ok(IngestReport { stored: 3, skipped: 0 }));
    assert_eq!(
        lookup(&fetch(&conn, "run"), "run"),
        Ok(vec![row("run", "verb"), row("run", "noun")])
    );
    assert_eq!(lookup(&fetch(&conn, "jog"), "jog"), Ok(vec![row("jog", "noun")]));
    assert_eq!(lookup(&fetch(&conn, "sprint"), "sprint"), Err(AppError::NoResults));
    assert_eq!(lookup(&fetch(&conn, "Run"), "Run"), Err(AppError::NoResults));
}

#[test]
fn an_empty_store_has_no_results() {
    let conn = fresh_store();
    assert_eq!(lookup(&fetch(&conn, "run"), "run"), Err(AppError::NoResults));
    assert_eq!(lookup(&Vec::new(), "run"), Err(AppError::NoResults));
    assert_eq!(lookup(&Vec::new(), ""), Err(AppError::NoResults));
}

#[test]
fn a_lookup_takes_the_rows_of_the_word_only() {
    let (rows, _) = ingest_lines(&corpus(), Policy::Strict).unwrap();
    assert_eq!(lookup(&rows, "run"), Ok(vec![row("run", "verb"), row("run", "noun")]));
    assert_eq!(lookup(&rows, "jog"), Ok(vec![row("jog", "noun")]));
    assert_eq!(lookup(&rows, "sprint"), Err(AppError::NoResults));
    assert_eq!(lookup(&rows, "RUN"), Err(AppError::NoResults));
    assert_eq!(lookup(&rows, "ru"), Err(AppError::NoResults));
    assert_eq!(lookup(&rows, "run "), Err(AppError::NoResults));
}

#[test]
fn the_store_is_prepared_by_three_statements() {
    assert_eq!(prepare_statements(), vec![DROP_TABLE, CREATE_TABLE, CREATE_INDEX]);
    assert_eq!(DROP_TABLE, "DROP TABLE IF EXISTS en");
    assert_eq!(
        CREATE_TABLE,
        "CREATE TABLE IF NOT EXISTS en (id INTEGER PRIMARY KEY AUTOINCREMENT, word TEXT NOT NULL, pos TEXT NOT NULL, information TEXT NOT NULL)"
    );
    assert_eq!(CREATE_INDEX, "CREATE INDEX IF NOT EXISTS idx_word ON en (word)");
    assert_eq!(INSERT_ROW, "INSERT INTO en (word, pos, information) values (?1, ?2, ?3)");
    assert_eq!(SELECT_WORD, "SELECT word, pos, information FROM en WHERE word = ?1;");
}

#[test]
fn a_load_replaces_what_an_earlier_load_left() {
    let mut conn = fresh_store();
    assert_eq!(load(&mut conn, &corpus(), Policy::Strict), Ok(IngestReport { stored: 3, skipped: 0 }));
    let next = vec![good("walk", "verb")];
    assert_eq!(load(&mut conn, &next, Policy::Strict), Ok(IngestReport { stored: 1, skipped: 0 }));
    assert_eq!(count(&conn), 1);
    assert_eq!(lookup(&fetch(&conn, "walk"), "walk"), Ok(vec![row("walk", "verb")]));
    assert_eq!(lookup(&fetch(&conn, "run"), "run"), Err(AppError::NoResults));
}

#[test]
fn a_load_that_fails_keeps_what_an_earlier_load_left() {
    let mut conn = fresh_store();
    assert_eq!(load(&mut conn, &corpus(), Policy::Strict), Ok(IngestReport { stored: 3, skipped: 0 }));
    let next = vec![good("walk", "verb"), "broken".to_string()];
    assert_eq!(load(&mut conn, &next, Policy::Strict), Err(AppError::MalformedRecord(2)));
    assert_eq!(count(&conn), 3);
    assert_eq!(lookup(&fetch(&conn, "walk"), "walk"), Err(AppError::NoResults));
    assert_eq!(
        lookup(&fetch(&conn, "run"), "run"),
        Ok(vec![row("run", "verb"), row("run", "noun")])
    );
}

#[test]
fn a_report_says_what_was_stored() {
    assert_eq!(
        IngestReport { stored: 1204, skipped: 0 }.summary(),
        "Stored 1204 entries, passed over 0 malformed lines"
    );
    assert_eq!(
        IngestReport { stored: 0, skipped: 17 }.summary(),
        "Stored 0 entries, passed over 17 malformed lines"
    );
}

#[test]
fn a_load_that_the_store_refuses_keeps_what_an_earlier_load_left() {
    let mut conn = fresh_store();
    assert_eq!(load(&mut conn, &corpus(), Policy::Lenient), Ok(IngestReport { stored: 3, skipped: 0 }));
    let outcome = {
        let transaction = conn.transaction().unwrap();
        for statement in prepare_statements() {
            transaction.execute(statement, ()).unwrap();
        }
        let mut state = Ingest::new(Policy::Lenient);
        for line in [good("walk", "verb"), good("hop", "verb")] {
            match state.line(&line) {
                Step::Insert(row) => {
                    let nothing: Option<String> = None;
                    let refused = transaction.execute(INSERT_ROW, (&row.word, &row.pos, &nothing));
                    state.fail(AppError::Sqlite(refused.unwrap_err().to_string()));
                }
                Step::Skip => panic!("a good line was passed over"),
                Step::Stop => break,
            }
        }
        state.finish()
    };
    assert!(matches!(outcome, Err(AppError::Sqlite(_))));
    assert_eq!(count(&conn), 3);
    assert_eq!(lookup(&fetch(&conn, "walk"), "walk"), Err(AppError::NoResults));
}

fn bare(word: &str, pos: &str) -> Row {
    Row {
        word: word.to_string(),
        pos: pos.to_string(),
        information: Some(r#"{"senses":[],"etymology_text":null,"sounds":null}"#.to_string()),
    }
}

#[test]
fn a_line_with_the_word_and_its_part_of_speech_alone_is_stored() {
    let mut conn = fresh_store();
    let lines = vec![r#"{"word":"run","pos":"verb"}"#.to_string()];
    assert_eq!(load(&mut conn, &lines, Policy::Strict), Ok(IngestReport { stored: 1, skipped: 0 }));
    assert_eq!(count(&conn), 1);
    assert_eq!(lookup(&fetch(&conn, "run"), "run"), Ok(vec![bare("run", "verb")]));
    assert_eq!(
        ingest_lines(&lines, Policy::Strict),
        Ok((vec![bare("run", "verb")], IngestReport { stored: 1, skipped: 0 }))
    );
    let mut state = Ingest::new(Policy::Strict);
    assert_eq!(
        state.line(r#"{"pos":"noun","word":"jog","senses":null,"sounds":null}"#),
        Step::Insert(bare("jog", "noun"))
    );
}
