//! From text to records and back: a corpus line as the row that is stored,
//! and a stored document as the record that is shown.

use crate::blob::word_info_json;
use crate::blob::write_word_info;
use crate::error::AppError;
use crate::json::json_parse;
use crate::json::json_text;
use crate::json::parse_json;
use crate::json::print_json;
use crate::json::Json;
use crate::record::read_word;
use crate::record::read_word_info;
use crate::record::word_info_of;
use crate::record::word_of;
use crate::structs::opt_view;
use crate::structs::Row;
use crate::structs::RowView;
use crate::structs::WordInfo;
use crate::structs::WordInfoView;
use vstd::prelude::*;
use vstd::string::StringExecFns;

verus! {

/// The document that `text` holds, or why it holds none.
pub fn read_document(text: &str) -> (r: Result<Json, AppError>)
    ensures
        r is Ok <==> json_parse(text@) is Some,
        r matches Ok(j) ==> json_parse(text@) == Some(j@),
        r matches Err(e) ==> e is Json,
{
    match parse_json(text) {
        Ok(j) => Ok(j),
        Err(message) => Err(AppError::Json(message)),
    }
}

/// The record that the stored text `blob` holds: `blob` has to be a JSON
/// document, and the document has to have the shape of a record.
pub open spec fn info_of_text(blob: Seq<char>) -> Option<WordInfoView> {
    match json_parse(blob) {
        Some(j) => word_info_of(j),
        None => None,
    }
}

/// The text that `info` is stored as.
pub open spec fn text_of_info(info: WordInfoView) -> Seq<char> {
    json_text(word_info_json(info))
}

/// The row that is stored for the corpus line `line`: the line has to be a
/// JSON object that identifies a word by the strings `word` and `pos`. What
/// else it says of the word may be missing, but has to have the shape of a
/// record where it is there. The row holds the word, its part of speech, and
/// the record written out again, which drops every member that is not part
/// of a record.
pub open spec fn row_of_line(line: Seq<char>) -> Option<RowView> {
    match json_parse(line) {
        Some(j) => match (word_of(j), word_info_of(j)) {
            (Some(word), Some(info)) => Some(
                RowView { word: word.word, pos: word.pos, information: Some(text_of_info(info)) },
            ),
            _ => None,
        },
        None => None,
    }
}

/// What is said of a document that does not have the shape of a record.
pub open spec fn not_a_record_text() -> Seq<char> {
    "not a lexical record"@
}

/// Reads a stored record. Of a text that is no JSON document the error holds
/// the parser's message; of a document that is no record it says so.
pub fn parse_word_info(blob: &str) -> (r: Result<WordInfo, AppError>)
    ensures
        r is Ok <==> info_of_text(blob@) is Some,
        r matches Ok(info) ==> info_of_text(blob@) == Some(info@),
        r matches Err(e) ==> e matches AppError::Json(message) && (json_parse(blob@) is Some
            ==> message@ == not_a_record_text()),
{
    match parse_json(blob) {
        Ok(j) => match read_word_info(&j) {
            Some(info) => Ok(info),
            None => Err(AppError::Json(String::from_str("not a lexical record"))),
        },
        Err(message) => Err(AppError::Json(message)),
    }
}

/// Writes a record as the text that is stored.
pub fn serialize_word_info(info: &WordInfo) -> (r: String)
    ensures
        r@ == text_of_info(info@),
{
    let j = write_word_info(info);
    print_json(&j).unwrap()
}

/// Reads a corpus line as the row to store.
pub fn parse_line(line: &str) -> (r: Option<Row>)
    ensures
        opt_view(r) == row_of_line(line@),
{
    match parse_json(line) {
        Ok(j) => {
            let word = match read_word(&j) {
                Some(word) => word,
                None => {
                    return None;
                },
            };
            let info = match read_word_info(&j) {
                Some(info) => info,
                None => {
                    return None;
                },
            };
            let blob = serialize_word_info(&info);
            Some(Row { word: word.word, pos: word.pos, information: Some(blob) })
        },
        Err(_) => None,
    }
}

/// Reads the corpus line with the number `ordinal` as the row to store, or
/// says that the line with this number is malformed.
pub fn parse_line_at(line: &str, ordinal: u64) -> (r: Result<Row, AppError>)
    ensures
        match r {
            Ok(row) => row_of_line(line@) == Some(row@),
            Err(e) => row_of_line(line@) is None && e == AppError::MalformedRecord(ordinal),
        },
{
    match parse_line(line) {
        Some(row) => Ok(row),
        None => Err(AppError::MalformedRecord(ordinal)),
    }
}

/// Round trip through the store: where `blob` reads as the document that
/// `info` is written as, it reads as `info`.
pub proof fn lemma_stored_record_reads_back(info: WordInfoView, blob: Seq<char>)
    ensures
        json_parse(blob) == Some(word_info_json(info)) ==> info_of_text(blob) == Some(info),
{
    crate::blob::lemma_word_info_round_trip(info);
}

/// Tests the round trip of `info` through its stored text: whether the text
/// that `info` is stored as reads as `info` again, field for field.
pub fn reads_back(info: &WordInfo) -> (ok: bool)
    ensures
        ok == (info_of_text(text_of_info(info@)) == Some(info@)),
{
    let blob = serialize_word_info(info);
    match parse_word_info(blob.as_str()) {
        Ok(back) => back.same(info),
        Err(_) => false,
    }
}

} // verus!
