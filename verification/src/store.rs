//! The store as the library sees it: the statements that make and fill its
//! one table, and what a lookup gives for the rows that came back.

use crate::error::AppError;
use crate::structs::Row;
use crate::structs::RowView;
use crate::text::views_of;
use vstd::prelude::*;

verus! {

/// Discards the table of entries with all that an earlier load left in it.
pub const DROP_TABLE: &'static str = "DROP TABLE IF EXISTS en";

/// Makes the table of entries. A row's number is given by the store and
/// grows with every insert.
pub const CREATE_TABLE: &'static str =
    "CREATE TABLE IF NOT EXISTS en (id INTEGER PRIMARY KEY AUTOINCREMENT, word TEXT NOT NULL, pos TEXT NOT NULL, information TEXT NOT NULL)";

/// Makes the index on the word, which need not be unique.
pub const CREATE_INDEX: &'static str = "CREATE INDEX IF NOT EXISTS idx_word ON en (word)";

/// Queues one row: the word, its part of speech, the record.
pub const INSERT_ROW: &'static str = "INSERT INTO en (word, pos, information) values (?1, ?2, ?3)";

/// Asks for the rows of one word.
pub const SELECT_WORD: &'static str = "SELECT word, pos, information FROM en WHERE word = ?1;";

/// The statements that prepare the store for a load, in the order in which
/// they run inside the transaction of the load: what an earlier load left is
/// discarded, then the table and its index are made anew.
pub fn prepare_statements() -> (statements: Vec<&'static str>)
    ensures
        statements@ == seq![DROP_TABLE, CREATE_TABLE, CREATE_INDEX],
{
    let mut statements: Vec<&'static str> = Vec::new();
    statements.push(DROP_TABLE);
    statements.push(CREATE_TABLE);
    statements.push(CREATE_INDEX);
    assert(statements@ =~= seq![DROP_TABLE, CREATE_TABLE, CREATE_INDEX]);
    statements
}

/// The rows of `rows` whose word is exactly `word`, in the order of `rows`.
pub open spec fn matching(rows: Seq<RowView>, word: Seq<char>) -> Seq<RowView>
    decreases rows.len(),
{
    if rows.len() == 0 {
        Seq::empty()
    } else {
        let before = matching(rows.drop_last(), word);
        if rows.last().word == word {
            before.push(rows.last())
        } else {
            before
        }
    }
}

/// A copy of `row`.
pub fn copy_row(row: &Row) -> (r: Row)
    ensures
        r@ == row@,
{
    Row {
        word: row.word.clone(),
        pos: row.pos.clone(),
        information: match &row.information {
            Some(blob) => Some(blob.clone()),
            None => None,
        },
    }
}

/// The rows of `rows` whose word is exactly `word`, letter for letter, in
/// the order in which they stand; `NoResults` where there is none.
pub fn lookup(rows: &Vec<Row>, word: &str) -> (r: Result<Vec<Row>, AppError>)
    ensures
        match r {
            Ok(found) => {
                &&& found@.len() > 0
                &&& views_of(found@) == matching(views_of(rows@), word@)
            },
            Err(e) => {
                &&& e is NoResults
                &&& matching(views_of(rows@), word@).len() == 0
            },
        },
{
    let key = chars_key(word);
    let mut found: Vec<Row> = Vec::new();
    let ghost all = views_of(rows@);
    let mut i: usize = 0;
    proof {
        assert(all.take(0) =~= Seq::<RowView>::empty());
    }
    while i < rows.len()
        invariant
            i <= rows.len(),
            all == views_of(rows@),
            key@ == word@,
            views_of(found@) == matching(all.take(i as int), word@),
        decreases rows.len() - i,
    {
        proof {
            assert(all.take(i + 1).drop_last() =~= all.take(i as int));
            assert(all.take(i + 1).last() == rows@[i as int]@);
        }
        if rows[i].word == key {
            let ghost before = views_of(found@);
            found.push(copy_row(&rows[i]));
            assert(views_of(found@) =~= before.push(rows@[i as int]@));
        }
        i += 1;
    }
    proof {
        assert(all.take(rows.len() as int) =~= all);
    }
    if found.len() == 0 {
        Err(AppError::NoResults)
    } else {
        Ok(found)
    }
}

/// `word` as an owned string, to compare rows with.
fn chars_key(word: &str) -> (key: String)
    ensures
        key@ == word@,
{
    word.to_owned()
}

/// What a lookup finds: exactly the rows of that word, and all of them, in
/// the order of the store.
pub proof fn lemma_matching_is_exact(rows: Seq<RowView>, word: Seq<char>)
    ensures
        matching(rows, word).len() <= rows.len(),
        forall|k: int|
            0 <= k < matching(rows, word).len() ==> (#[trigger] matching(rows, word)[k]).word
                == word,
        (forall|k: int| 0 <= k < rows.len() ==> (#[trigger] rows[k]).word != word) <==> matching(
            rows,
            word,
        ).len() == 0,
        (forall|k: int| 0 <= k < rows.len() ==> (#[trigger] rows[k]).word == word) ==> matching(
            rows,
            word,
        ) == rows,
    decreases rows.len(),
{
    if rows.len() > 0 {
        let before = rows.drop_last();
        lemma_matching_is_exact(before, word);
        assert forall|k: int| 0 <= k < before.len() implies before[k] == rows[k] by {}
        if forall|k: int| 0 <= k < rows.len() ==> (#[trigger] rows[k]).word == word {
            assert forall|k: int| 0 <= k < before.len() implies (#[trigger] before[k]).word
                == word by {
                assert(before[k] == rows[k]);
            }
            assert(matching(rows, word) =~= rows);
        }
        if matching(rows, word).len() == 0 {
            assert forall|k: int| 0 <= k < rows.len() implies (#[trigger] rows[k]).word
                != word by {
                if k < before.len() {
                    assert(before[k] == rows[k]);
                }
            }
        }
        if forall|k: int| 0 <= k < rows.len() ==> (#[trigger] rows[k]).word != word {
            assert(rows.last() == rows[rows.len() - 1]);
            assert forall|k: int| 0 <= k < before.len() implies (#[trigger] before[k]).word
                != word by {
                assert(before[k] == rows[k]);
            }
        }
    }
}

/// A store that holds no row has no row of any word.
pub proof fn lemma_nothing_matches_in_an_empty_store(word: Seq<char>)
    ensures
        matching(Seq::empty(), word).len() == 0,
{
}

} // verus!
