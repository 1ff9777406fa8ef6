//! The stored form of a record: the document that an entry is written as,
//! and the proof that reading gives the entry back.

use crate::json::items_view;
use crate::json::lemma_json_view;
use crate::json::members_view;
use crate::json::number_free;
use crate::json::Json;
use crate::json::JsonValue;
use crate::json::Member;
use crate::record::example_of;
use crate::record::examples_of;
use crate::record::lemma_member_at;
use crate::record::member;
use crate::record::sense_of;
use crate::record::senses_of;
use crate::record::sound_of;
use crate::record::sounds_of;
use crate::record::texts_of;
use crate::record::word_info_of;
use crate::structs::opt_view;
use crate::structs::opt_views;
use crate::structs::Example;
use crate::structs::ExampleView;
use crate::structs::Sense;
use crate::structs::SenseView;
use crate::structs::Sound;
use crate::structs::SoundView;
use crate::structs::WordInfo;
use crate::structs::WordInfoView;
use crate::text::views_of;
use vstd::prelude::*;
use vstd::string::StringExecFns;

verus! {

/// A string that may be missing: the string, or `null`.
pub open spec fn optional_text_json(text: Option<Seq<char>>) -> JsonValue {
    match text {
        Some(s) => JsonValue::Text(s),
        None => JsonValue::Null,
    }
}

/// A list of strings.
pub open spec fn texts_json(items: Seq<Seq<char>>) -> JsonValue {
    JsonValue::List(Seq::new(items.len(), |i: int| JsonValue::Text(items[i])))
}

/// A list of strings that may be missing: the list, or `null`.
pub open spec fn optional_texts_json(items: Option<Seq<Seq<char>>>) -> JsonValue {
    match items {
        Some(list) => texts_json(list),
        None => JsonValue::Null,
    }
}

/// An example: an object with the member `text`.
pub open spec fn example_json(e: ExampleView) -> JsonValue {
    JsonValue::Object(seq![("text"@, optional_text_json(e.text))])
}

/// A list of examples.
pub open spec fn examples_json(items: Seq<ExampleView>) -> JsonValue {
    JsonValue::List(Seq::new(items.len(), |i: int| example_json(items[i])))
}

/// A sense: an object with the members `glosses` and `examples`.
pub open spec fn sense_json(s: SenseView) -> JsonValue {
    JsonValue::Object(
        seq![
            ("glosses"@, optional_texts_json(s.glosses)),
            (
                "examples"@,
                match s.examples {
                    Some(list) => examples_json(list),
                    None => JsonValue::Null,
                },
            ),
        ],
    )
}

/// A list of senses.
pub open spec fn senses_json(items: Seq<SenseView>) -> JsonValue {
    JsonValue::List(Seq::new(items.len(), |i: int| sense_json(items[i])))
}

/// A pronunciation: an object with the members `ipa` and `tags`.
pub open spec fn sound_json(s: SoundView) -> JsonValue {
    JsonValue::Object(
        seq![("ipa"@, optional_text_json(s.ipa)), ("tags"@, optional_texts_json(s.tags))],
    )
}

/// A list of pronunciations.
pub open spec fn sounds_json(items: Seq<SoundView>) -> JsonValue {
    JsonValue::List(Seq::new(items.len(), |i: int| sound_json(items[i])))
}

/// What an entry says of its word: an object with the members `senses`,
/// `etymology_text` and `sounds`, in this order. What is missing is `null`.
pub open spec fn word_info_json(w: WordInfoView) -> JsonValue {
    JsonValue::Object(
        seq![
            ("senses"@, senses_json(w.senses)),
            ("etymology_text"@, optional_text_json(w.etymology_text)),
            (
                "sounds"@,
                match w.sounds {
                    Some(list) => sounds_json(list),
                    None => JsonValue::Null,
                },
            ),
        ],
    )
}

/// Reading a written list of strings gives the list back.
pub proof fn lemma_texts_round_trip(items: Seq<Seq<char>>)
    ensures
        texts_of(texts_json(items)) == Some(items),
        number_free(texts_json(items)),
{
    let written = Seq::new(items.len(), |i: int| JsonValue::Text(items[i]));
    assert forall|i: int| 0 <= i < written.len() implies number_free(#[trigger] written[i]) by {}
    assert(texts_of(texts_json(items)).unwrap() =~= items);
}

/// Reading a written example gives the example back.
pub proof fn lemma_example_round_trip(e: ExampleView)
    ensures
        example_of(example_json(e)) == Some(e),
        number_free(example_json(e)),
{
    let members = example_json(e)->Object_0;
    lemma_member_at(members, "text"@, 0);
    assert forall|i: int| 0 <= i < members.len() implies number_free((#[trigger] members[i]).1) by {}
}

/// Reading a written list of examples gives the list back.
pub proof fn lemma_examples_round_trip(items: Seq<ExampleView>)
    ensures
        examples_of(examples_json(items)) == Some(items),
        number_free(examples_json(items)),
{
    let written = Seq::new(items.len(), |i: int| example_json(items[i]));
    assert forall|i: int| 0 <= i < written.len() implies example_of(#[trigger] written[i]) == Some(
        items[i],
    ) && number_free(written[i]) by {
        lemma_example_round_trip(items[i]);
    }
    assert(examples_of(examples_json(items)).unwrap() =~= items);
}

/// Reading a written sense gives the sense back.
pub proof fn lemma_sense_round_trip(s: SenseView)
    ensures
        sense_of(sense_json(s)) == Some(s),
        number_free(sense_json(s)),
{
    reveal_strlit("glosses");
    reveal_strlit("examples");
    let members = sense_json(s)->Object_0;
    assert("glosses"@.len() != "examples"@.len());
    lemma_member_at(members, "glosses"@, 0);
    lemma_member_at(members, "examples"@, 1);
    if let Some(list) = s.glosses {
        lemma_texts_round_trip(list);
    }
    if let Some(list) = s.examples {
        lemma_examples_round_trip(list);
    }
    assert forall|i: int| 0 <= i < members.len() implies number_free((#[trigger] members[i]).1) by {}
}

/// Reading a written list of senses gives the list back.
pub proof fn lemma_senses_round_trip(items: Seq<SenseView>)
    ensures
        senses_of(senses_json(items)) == Some(items),
        number_free(senses_json(items)),
{
    let written = Seq::new(items.len(), |i: int| sense_json(items[i]));
    assert forall|i: int| 0 <= i < written.len() implies sense_of(#[trigger] written[i]) == Some(
        items[i],
    ) && number_free(written[i]) by {
        lemma_sense_round_trip(items[i]);
    }
    assert(senses_of(senses_json(items)).unwrap() =~= items);
}

/// Reading a written pronunciation gives the pronunciation back.
pub proof fn lemma_sound_round_trip(s: SoundView)
    ensures
        sound_of(sound_json(s)) == Some(s),
        number_free(sound_json(s)),
{
    reveal_strlit("ipa");
    reveal_strlit("tags");
    let members = sound_json(s)->Object_0;
    assert("ipa"@.len() != "tags"@.len());
    lemma_member_at(members, "ipa"@, 0);
    lemma_member_at(members, "tags"@, 1);
    if let Some(list) = s.tags {
        lemma_texts_round_trip(list);
    }
    assert forall|i: int| 0 <= i < members.len() implies number_free((#[trigger] members[i]).1) by {}
}

/// Reading a written list of pronunciations gives the list back.
pub proof fn lemma_sounds_round_trip(items: Seq<SoundView>)
    ensures
        sounds_of(sounds_json(items)) == Some(items),
        number_free(sounds_json(items)),
{
    let written = Seq::new(items.len(), |i: int| sound_json(items[i]));
    assert forall|i: int| 0 <= i < written.len() implies sound_of(#[trigger] written[i]) == Some(
        items[i],
    ) && number_free(written[i]) by {
        lemma_sound_round_trip(items[i]);
    }
    assert(sounds_of(sounds_json(items)).unwrap() =~= items);
}

/// Round trip: the document that a record is written as reads back as that
/// record, field for field.
pub proof fn lemma_word_info_round_trip(w: WordInfoView)
    ensures
        word_info_of(word_info_json(w)) == Some(w),
        number_free(word_info_json(w)),
{
    reveal_strlit("senses");
    reveal_strlit("etymology_text");
    reveal_strlit("sounds");
    let members = word_info_json(w)->Object_0;
    assert("senses"@[1] != "sounds"@[1]);
    assert("senses"@.len() != "etymology_text"@.len());
    lemma_member_at(members, "senses"@, 0);
    lemma_member_at(members, "etymology_text"@, 1);
    lemma_member_at(members, "sounds"@, 2);
    lemma_senses_round_trip(w.senses);
    if let Some(list) = w.sounds {
        lemma_sounds_round_trip(list);
    }
    assert forall|i: int| 0 <= i < members.len() implies number_free((#[trigger] members[i]).1) by {}
}

/// A member named `name` that holds `value`.
fn named(name: &str, value: Json) -> (m: Member)
    ensures
        m.name@ == name@,
        m.value == value,
{
    Member { name: String::from_str(name), value }
}

/// Writes a string that may be missing.
pub fn write_optional_text(text: &Option<String>) -> (j: Json)
    ensures
        j@ == optional_text_json(opt_view(*text)),
{
    match text {
        Some(s) => Json::Text(s.clone()),
        None => Json::Null,
    }
}

/// Writes a list of strings.
pub fn write_texts(items: &Vec<String>) -> (j: Json)
    ensures
        j@ == texts_json(views_of(items@)),
{
    let mut out: Vec<Json> = Vec::new();
    let mut i: usize = 0;
    while i < items.len()
        invariant
            i <= items.len(),
            out@.len() == i,
            forall|k: int| 0 <= k < i ==> (#[trigger] out@[k])@ == JsonValue::Text(items@[k]@),
        decreases items.len() - i,
    {
        out.push(Json::Text(items[i].clone()));
        i += 1;
    }
    let j = Json::List(out);
    proof {
        lemma_json_view(j);
        assert(items_view(out@) =~= texts_json(views_of(items@))->List_0);
    }
    j
}

/// Writes a list of strings that may be missing.
pub fn write_optional_texts(items: &Option<Vec<String>>) -> (j: Json)
    ensures
        j@ == optional_texts_json(opt_views(*items)),
{
    match items {
        Some(list) => write_texts(list),
        None => Json::Null,
    }
}

/// Writes an example.
pub fn write_example(e: &Example) -> (j: Json)
    ensures
        j@ == example_json(e@),
{
    let mut members: Vec<Member> = Vec::new();
    members.push(named("text", write_optional_text(&e.text)));
    let j = Json::Object(members);
    proof {
        lemma_json_view(j);
        assert(members_view(members@) =~= example_json(e@)->Object_0);
    }
    j
}

/// Writes a list of examples.
pub fn write_examples(items: &Vec<Example>) -> (j: Json)
    ensures
        j@ == examples_json(views_of(items@)),
{
    let mut out: Vec<Json> = Vec::new();
    let mut i: usize = 0;
    while i < items.len()
        invariant
            i <= items.len(),
            out@.len() == i,
            forall|k: int| 0 <= k < i ==> (#[trigger] out@[k])@ == example_json(items@[k]@),
        decreases items.len() - i,
    {
        out.push(write_example(&items[i]));
        i += 1;
    }
    let j = Json::List(out);
    proof {
        lemma_json_view(j);
        assert(items_view(out@) =~= examples_json(views_of(items@))->List_0);
    }
    j
}

/// Writes a sense.
pub fn write_sense(s: &Sense) -> (j: Json)
    ensures
        j@ == sense_json(s@),
{
    let mut members: Vec<Member> = Vec::new();
    members.push(named("glosses", write_optional_texts(&s.glosses)));
    let examples = match &s.examples {
        Some(list) => write_examples(list),
        None => Json::Null,
    };
    members.push(named("examples", examples));
    let j = Json::Object(members);
    proof {
        lemma_json_view(j);
        assert(members_view(members@) =~= sense_json(s@)->Object_0);
    }
    j
}

/// Writes a list of senses.
pub fn write_senses(items: &Vec<Sense>) -> (j: Json)
    ensures
        j@ == senses_json(views_of(items@)),
{
    let mut out: Vec<Json> = Vec::new();
    let mut i: usize = 0;
    while i < items.len()
        invariant
            i <= items.len(),
            out@.len() == i,
            forall|k: int| 0 <= k < i ==> (#[trigger] out@[k])@ == sense_json(items@[k]@),
        decreases items.len() - i,
    {
        out.push(write_sense(&items[i]));
        i += 1;
    }
    let j = Json::List(out);
    proof {
        lemma_json_view(j);
        assert(items_view(out@) =~= senses_json(views_of(items@))->List_0);
    }
    j
}

/// Writes a pronunciation.
pub fn write_sound(s: &Sound) -> (j: Json)
    ensures
        j@ == sound_json(s@),
{
    let mut members: Vec<Member> = Vec::new();
    members.push(named("ipa", write_optional_text(&s.ipa)));
    members.push(named("tags", write_optional_texts(&s.tags)));
    let j = Json::Object(members);
    proof {
        lemma_json_view(j);
        assert(members_view(members@) =~= sound_json(s@)->Object_0);
    }
    j
}

/// Writes a list of pronunciations.
pub fn write_sounds(items: &Vec<Sound>) -> (j: Json)
    ensures
        j@ == sounds_json(views_of(items@)),
{
    let mut out: Vec<Json> = Vec::new();
    let mut i: usize = 0;
    while i < items.len()
        invariant
            i <= items.len(),
            out@.len() == i,
            forall|k: int| 0 <= k < i ==> (#[trigger] out@[k])@ == sound_json(items@[k]@),
        decreases items.len() - i,
    {
        out.push(write_sound(&items[i]));
        i += 1;
    }
    let j = Json::List(out);
    proof {
        lemma_json_view(j);
        assert(items_view(out@) =~= sounds_json(views_of(items@))->List_0);
    }
    j
}

/// Writes what an entry says of its word as the document that is stored.
pub fn write_word_info(w: &WordInfo) -> (j: Json)
    ensures
        j@ == word_info_json(w@),
        number_free(j@),
{
    let mut members: Vec<Member> = Vec::new();
    members.push(named("senses", write_senses(&w.senses)));
    members.push(named("etymology_text", write_optional_text(&w.etymology_text)));
    let sounds = match &w.sounds {
        Some(list) => write_sounds(list),
        None => Json::Null,
    };
    members.push(named("sounds", sounds));
    let j = Json::Object(members);
    proof {
        lemma_json_view(j);
        assert(members_view(members@) =~= word_info_json(w@)->Object_0);
        lemma_word_info_round_trip(w@);
    }
    j
}

} // verus!
