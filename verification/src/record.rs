//! The shape of a lexical record in JSON: which members an entry has, which
//! of them may be missing, and how an entry is read from a document.

use crate::json::items_view;
use crate::json::lemma_json_view;
use crate::json::members_view;
use crate::json::Json;
use crate::json::JsonValue;
use crate::json::Member;
use crate::structs::opt_view;
use crate::structs::opt_views;
use crate::structs::Example;
use crate::structs::ExampleView;
use crate::structs::Sense;
use crate::structs::SenseView;
use crate::structs::Sound;
use crate::structs::SoundView;
use crate::structs::Word;
use crate::structs::WordInfo;
use crate::structs::WordInfoView;
use crate::structs::WordView;
use crate::text::views_of;
use vstd::prelude::*;
use vstd::string::StringExecFns;

verus! {

/// The value of the first member of `members` that is named `key`.
pub open spec fn member(members: Seq<(Seq<char>, JsonValue)>, key: Seq<char>) -> Option<JsonValue>
    decreases members.len(),
{
    if members.len() == 0 {
        None
    } else if members[0].0 == key {
        Some(members[0].1)
    } else {
        member(members.drop_first(), key)
    }
}

/// The member at `i` is the one that is found under its name where no
/// earlier member has that name.
pub proof fn lemma_member_at(members: Seq<(Seq<char>, JsonValue)>, key: Seq<char>, i: int)
    requires
        0 <= i < members.len(),
        members[i].0 == key,
        forall|k: int| 0 <= k < i ==> (#[trigger] members[k]).0 != key,
    ensures
        member(members, key) == Some(members[i].1),
    decreases i,
{
    if i > 0 {
        let rest = members.drop_first();
        assert(members[0].0 != key);
        assert forall|k: int| 0 <= k < i - 1 implies (#[trigger] rest[k]).0 != key by {
            assert(rest[k] == members[k + 1]);
        }
        lemma_member_at(rest, key, i - 1);
    }
}

/// The members of `j`, where `j` is an object.
pub open spec fn members_of(j: JsonValue) -> Option<Seq<(Seq<char>, JsonValue)>> {
    match j {
        JsonValue::Object(members) => Some(members),
        _ => None,
    }
}

/// The string that `j` is, where it is one.
pub open spec fn text_of(j: JsonValue) -> Option<Seq<char>> {
    match j {
        JsonValue::Text(s) => Some(s),
        _ => None,
    }
}

/// Reads a member that has to be there: `found`, read by `read`.
pub open spec fn required<T>(found: Option<JsonValue>, read: spec_fn(JsonValue) -> Option<T>) -> Option<
    T,
> {
    match found {
        Some(j) => read(j),
        None => None,
    }
}

/// Reads a member that may be missing. A missing member and `null` both
/// stand for nothing; anything else has to be read by `read`.
pub open spec fn optional<T>(found: Option<JsonValue>, read: spec_fn(JsonValue) -> Option<T>) -> Option<
    Option<T>,
> {
    match found {
        None => Some(None),
        Some(JsonValue::Null) => Some(None),
        Some(j) => match read(j) {
            Some(v) => Some(Some(v)),
            None => None,
        },
    }
}

/// Reads a list item by item: `j` has to be a list, and `read` has to read
/// every item of it.
pub open spec fn list_of<T>(j: JsonValue, read: spec_fn(JsonValue) -> Option<T>) -> Option<Seq<T>> {
    match j {
        JsonValue::List(items) => if forall|i: int|
            0 <= i < items.len() ==> read(#[trigger] items[i]) is Some {
            Some(Seq::new(items.len(), |i: int| read(items[i]).unwrap()))
        } else {
            None
        },
        _ => None,
    }
}

/// Reads a list of strings.
pub open spec fn texts_of(j: JsonValue) -> Option<Seq<Seq<char>>> {
    list_of(j, |x: JsonValue| text_of(x))
}

/// Reads a string that may be missing.
pub open spec fn optional_text(found: Option<JsonValue>) -> Option<Option<Seq<char>>> {
    optional(found, |x: JsonValue| text_of(x))
}

/// Reads a list of strings that may be missing.
pub open spec fn optional_texts(found: Option<JsonValue>) -> Option<Option<Seq<Seq<char>>>> {
    optional(found, |x: JsonValue| texts_of(x))
}

/// Reads an example: an object in which `text` may be missing.
pub open spec fn example_of(j: JsonValue) -> Option<ExampleView> {
    match members_of(j) {
        Some(members) => match optional_text(member(members, "text"@)) {
            Some(text) => Some(ExampleView { text }),
            None => None,
        },
        None => None,
    }
}

/// Reads a list of examples.
pub open spec fn examples_of(j: JsonValue) -> Option<Seq<ExampleView>> {
    list_of(j, |x: JsonValue| example_of(x))
}

/// Reads a sense: an object in which `glosses`, a list of strings, and
/// `examples`, a list of examples, may each be missing.
pub open spec fn sense_of(j: JsonValue) -> Option<SenseView> {
    match members_of(j) {
        Some(members) => match (
            optional_texts(member(members, "glosses"@)),
            optional(member(members, "examples"@), |x: JsonValue| examples_of(x)),
        ) {
            (Some(glosses), Some(examples)) => Some(SenseView { glosses, examples }),
            _ => None,
        },
        None => None,
    }
}

/// Reads a list of senses.
pub open spec fn senses_of(j: JsonValue) -> Option<Seq<SenseView>> {
    list_of(j, |x: JsonValue| sense_of(x))
}

/// Reads a pronunciation: an object in which `ipa`, a string, and `tags`, a
/// list of strings, may each be missing.
pub open spec fn sound_of(j: JsonValue) -> Option<SoundView> {
    match members_of(j) {
        Some(members) => match (
            optional_text(member(members, "ipa"@)),
            optional_texts(member(members, "tags"@)),
        ) {
            (Some(ipa), Some(tags)) => Some(SoundView { ipa, tags }),
            _ => None,
        },
        None => None,
    }
}

/// Reads a list of pronunciations.
pub open spec fn sounds_of(j: JsonValue) -> Option<Seq<SoundView>> {
    list_of(j, |x: JsonValue| sound_of(x))
}

/// Reads the senses of an entry, which may be missing: a missing member and
/// `null` both read as no sense at all; anything else has to be a list of
/// senses.
pub open spec fn senses_or_none(found: Option<JsonValue>) -> Option<Seq<SenseView>> {
    match optional(found, |x: JsonValue| senses_of(x)) {
        Some(Some(senses)) => Some(senses),
        Some(None) => Some(Seq::empty()),
        None => None,
    }
}

/// Reads what an entry says of its word: an object in which `senses`, a list
/// of senses, `etymology_text`, a string, and `sounds`, a list of
/// pronunciations, may each be missing. Other members are passed over.
pub open spec fn word_info_of(j: JsonValue) -> Option<WordInfoView> {
    match members_of(j) {
        Some(members) => match (
            senses_or_none(member(members, "senses"@)),
            optional_text(member(members, "etymology_text"@)),
            optional(member(members, "sounds"@), |x: JsonValue| sounds_of(x)),
        ) {
            (Some(senses), Some(etymology_text), Some(sounds)) => Some(
                WordInfoView { senses, etymology_text, sounds },
            ),
            _ => None,
        },
        None => None,
    }
}

/// Reads what identifies an entry: an object that has the strings `word`
/// and `pos`.
pub open spec fn word_of(j: JsonValue) -> Option<WordView> {
    match members_of(j) {
        Some(members) => match (
            required(member(members, "word"@), |x: JsonValue| text_of(x)),
            required(member(members, "pos"@), |x: JsonValue| text_of(x)),
        ) {
            (Some(word), Some(pos)) => Some(WordView { word, pos }),
            _ => None,
        },
        None => None,
    }
}

/// The view of what `o` holds, where it holds something that holds something.
pub open spec fn opt_opt_view<T: View>(o: Option<Option<T>>) -> Option<Option<T::V>> {
    match o {
        Some(inner) => Some(opt_view(inner)),
        None => None,
    }
}

/// As `opt_opt_view`, for a list.
pub open spec fn opt_opt_views<T: View>(o: Option<Option<Vec<T>>>) -> Option<Option<Seq<T::V>>> {
    match o {
        Some(inner) => Some(opt_views(inner)),
        None => None,
    }
}

/// The value of the first member of `members` that is named `key`.
pub fn find_member<'a>(members: &'a Vec<Member>, key: &str) -> (found: Option<&'a Json>)
    ensures
        opt_view(found) == member(members_view(members@), key@),
{
    let name = String::from_str(key);
    let mut i: usize = 0;
    let ghost all = members_view(members@);
    proof {
        assert(all.skip(0) =~= all);
    }
    while i < members.len()
        invariant
            i <= members.len(),
            all == members_view(members@),
            name@ == key@,
            member(all, key@) == member(all.skip(i as int), key@),
        decreases members.len() - i,
    {
        proof {
            assert(all.skip(i as int).drop_first() =~= all.skip(i + 1));
            assert(all.skip(i as int)[0] == all[i as int]);
        }
        if members[i].name == name {
            return Some(&members[i].value);
        }
        i += 1;
    }
    None
}

/// Reads a string.
pub fn read_text(j: &Json) -> (r: Option<String>)
    ensures
        opt_view(r) == text_of(j@),
{
    match j {
        Json::Text(s) => Some(s.clone()),
        _ => None,
    }
}

/// Reads a list of strings.
pub fn read_texts(j: &Json) -> (r: Option<Vec<String>>)
    ensures
        opt_views(r) == texts_of(j@),
{
    proof {
        lemma_json_view(*j);
    }
    match j {
        Json::List(items) => {
            let mut out: Vec<String> = Vec::new();
            let mut i: usize = 0;
            let ghost all = items_view(items@);
            while i < items.len()
                invariant
                    i <= items.len(),
                    all == items_view(items@),
                    j@ == JsonValue::List(all),
                    out@.len() == i,
                    forall|k: int| 0 <= k < i ==> text_of(#[trigger] all[k]) == Some(out@[k]@),
                decreases items.len() - i,
            {
                match read_text(&items[i]) {
                    Some(s) => {
                        out.push(s);
                    },
                    None => {
                        assert(text_of(all[i as int]) is None);
                        return None;
                    },
                }
                i += 1;
            }
            assert(texts_of(j@).unwrap() =~= views_of(out@));
            Some(out)
        },
        _ => None,
    }
}

/// Reads the string under `key`, which may be missing.
pub fn read_optional_text(members: &Vec<Member>, key: &str) -> (r: Option<Option<String>>)
    ensures
        opt_opt_view(r) == optional_text(member(members_view(members@), key@)),
{
    match find_member(members, key) {
        None => Some(None),
        Some(Json::Null) => Some(None),
        Some(j) => match read_text(j) {
            Some(s) => Some(Some(s)),
            None => None,
        },
    }
}

/// Reads the list of strings under `key`, which may be missing.
pub fn read_optional_texts(members: &Vec<Member>, key: &str) -> (r: Option<Option<Vec<String>>>)
    ensures
        opt_opt_views(r) == optional_texts(member(members_view(members@), key@)),
{
    match find_member(members, key) {
        None => Some(None),
        Some(Json::Null) => Some(None),
        Some(j) => match read_texts(j) {
            Some(s) => Some(Some(s)),
            None => None,
        },
    }
}

/// Reads an example.
pub fn read_example(j: &Json) -> (r: Option<Example>)
    ensures
        opt_view(r) == example_of(j@),
{
    proof {
        lemma_json_view(*j);
    }
    match j {
        Json::Object(members) => match read_optional_text(members, "text") {
            Some(text) => Some(Example { text }),
            None => None,
        },
        _ => None,
    }
}

/// Reads a list of examples.
pub fn read_examples(j: &Json) -> (r: Option<Vec<Example>>)
    ensures
        opt_views(r) == examples_of(j@),
{
    proof {
        lemma_json_view(*j);
    }
    match j {
        Json::List(items) => {
            let mut out: Vec<Example> = Vec::new();
            let mut i: usize = 0;
            let ghost all = items_view(items@);
            while i < items.len()
                invariant
                    i <= items.len(),
                    all == items_view(items@),
                    j@ == JsonValue::List(all),
                    out@.len() == i,
                    forall|k: int| 0 <= k < i ==> example_of(#[trigger] all[k]) == Some(out@[k]@),
                decreases items.len() - i,
            {
                match read_example(&items[i]) {
                    Some(s) => {
                        out.push(s);
                    },
                    None => {
                        assert(example_of(all[i as int]) is None);
                        return None;
                    },
                }
                i += 1;
            }
            assert(examples_of(j@).unwrap() =~= views_of(out@));
            Some(out)
        },
        _ => None,
    }
}

/// Reads a sense.
pub fn read_sense(j: &Json) -> (r: Option<Sense>)
    ensures
        opt_view(r) == sense_of(j@),
{
    proof {
        lemma_json_view(*j);
    }
    match j {
        Json::Object(members) => {
            let glosses = match read_optional_texts(members, "glosses") {
                Some(glosses) => glosses,
                None => {
                    return None;
                },
            };
            let examples = match find_member(members, "examples") {
                None => None,
                Some(Json::Null) => None,
                Some(x) => match read_examples(x) {
                    Some(examples) => Some(examples),
                    None => {
                        return None;
                    },
                },
            };
            Some(Sense { glosses, examples })
        },
        _ => None,
    }
}

/// Reads a list of senses.
pub fn read_senses(j: &Json) -> (r: Option<Vec<Sense>>)
    ensures
        opt_views(r) == senses_of(j@),
{
    proof {
        lemma_json_view(*j);
    }
    match j {
        Json::List(items) => {
            let mut out: Vec<Sense> = Vec::new();
            let mut i: usize = 0;
            let ghost all = items_view(items@);
            while i < items.len()
                invariant
                    i <= items.len(),
                    all == items_view(items@),
                    j@ == JsonValue::List(all),
                    out@.len() == i,
                    forall|k: int| 0 <= k < i ==> sense_of(#[trigger] all[k]) == Some(out@[k]@),
                decreases items.len() - i,
            {
                match read_sense(&items[i]) {
                    Some(s) => {
                        out.push(s);
                    },
                    None => {
                        assert(sense_of(all[i as int]) is None);
                        return None;
                    },
                }
                i += 1;
            }
            assert(senses_of(j@).unwrap() =~= views_of(out@));
            Some(out)
        },
        _ => None,
    }
}

/// Reads a pronunciation.
pub fn read_sound(j: &Json) -> (r: Option<Sound>)
    ensures
        opt_view(r) == sound_of(j@),
{
    proof {
        lemma_json_view(*j);
    }
    match j {
        Json::Object(members) => {
            let ipa = match read_optional_text(members, "ipa") {
                Some(ipa) => ipa,
                None => {
                    return None;
                },
            };
            let tags = match read_optional_texts(members, "tags") {
                Some(tags) => tags,
                None => {
                    return None;
                },
            };
            Some(Sound { ipa, tags })
        },
        _ => None,
    }
}

/// Reads a list of pronunciations.
pub fn read_sounds(j: &Json) -> (r: Option<Vec<Sound>>)
    ensures
        opt_views(r) == sounds_of(j@),
{
    proof {
        lemma_json_view(*j);
    }
    match j {
        Json::List(items) => {
            let mut out: Vec<Sound> = Vec::new();
            let mut i: usize = 0;
            let ghost all = items_view(items@);
            while i < items.len()
                invariant
                    i <= items.len(),
                    all == items_view(items@),
                    j@ == JsonValue::List(all),
                    out@.len() == i,
                    forall|k: int| 0 <= k < i ==> sound_of(#[trigger] all[k]) == Some(out@[k]@),
                decreases items.len() - i,
            {
                match read_sound(&items[i]) {
                    Some(s) => {
                        out.push(s);
                    },
                    None => {
                        assert(sound_of(all[i as int]) is None);
                        return None;
                    },
                }
                i += 1;
            }
            assert(sounds_of(j@).unwrap() =~= views_of(out@));
            Some(out)
        },
        _ => None,
    }
}

/// Reads what an entry says of its word.
pub fn read_word_info(j: &Json) -> (r: Option<WordInfo>)
    ensures
        opt_view(r) == word_info_of(j@),
{
    proof {
        lemma_json_view(*j);
    }
    match j {
        Json::Object(members) => {
            let senses = match find_member(members, "senses") {
                None => Vec::new(),
                Some(Json::Null) => Vec::new(),
                Some(x) => match read_senses(x) {
                    Some(senses) => senses,
                    None => {
                        return None;
                    },
                },
            };
            assert(senses@.len() == 0 ==> views_of(senses@) =~= Seq::<SenseView>::empty());
            let etymology_text = match read_optional_text(members, "etymology_text") {
                Some(text) => text,
                None => {
                    return None;
                },
            };
            let sounds = match find_member(members, "sounds") {
                None => None,
                Some(Json::Null) => None,
                Some(x) => match read_sounds(x) {
                    Some(sounds) => Some(sounds),
                    None => {
                        return None;
                    },
                },
            };
            Some(WordInfo { senses, etymology_text, sounds })
        },
        _ => None,
    }
}

/// Reads what identifies an entry.
pub fn read_word(j: &Json) -> (r: Option<Word>)
    ensures
        opt_view(r) == word_of(j@),
{
    proof {
        lemma_json_view(*j);
    }
    match j {
        Json::Object(members) => {
            let word = match find_member(members, "word") {
                Some(x) => match read_text(x) {
                    Some(word) => word,
                    None => {
                        return None;
                    },
                },
                None => {
                    return None;
                },
            };
            let pos = match find_member(members, "pos") {
                Some(x) => match read_text(x) {
                    Some(pos) => pos,
                    None => {
                        return None;
                    },
                },
                None => {
                    return None;
                },
            };
            Some(Word { word, pos })
        },
        _ => None,
    }
}

} // verus!
