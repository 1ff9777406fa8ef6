//! The lexical record: one dictionary entry as it is read, stored and shown.

use crate::text::views_of;
use vstd::prelude::*;

verus! {

/// The view of what `o` holds, if it holds anything.
pub open spec fn opt_view<T: View>(o: Option<T>) -> Option<T::V> {
    match o {
        Some(x) => Some(x@),
        None => None,
    }
}

/// The views of the items that `o` holds, if it holds a list.
pub open spec fn opt_views<T: View>(o: Option<Vec<T>>) -> Option<Seq<T::V>> {
    match o {
        Some(items) => Some(views_of(items@)),
        None => None,
    }
}

/// What identifies an entry: the word and its part of speech.
#[derive(Debug, Clone, PartialEq, Eq)]
pub struct Word {
    pub word: String,
    pub pos: String,
}

/// A `Word` as contracts speak of it.
pub struct WordView {
    pub word: Seq<char>,
    pub pos: Seq<char>,
}

impl View for Word {
    type V = WordView;

    open spec fn view(&self) -> WordView {
        WordView { word: self.word@, pos: self.pos@ }
    }
}

/// A usage example. The quotation may be missing.
#[derive(Debug, Clone, PartialEq, Eq)]
pub struct Example {
    pub text: Option<String>,
}

/// An `Example` as contracts speak of it.
pub struct ExampleView {
    pub text: Option<Seq<char>>,
}

impl View for Example {
    type V = ExampleView;

    open spec fn view(&self) -> ExampleView {
        ExampleView { text: opt_view(self.text) }
    }
}

/// One meaning of a word: its definitions and its usage examples.
#[derive(Debug, Clone, PartialEq, Eq)]
pub struct Sense {
    pub glosses: Option<Vec<String>>,
    pub examples: Option<Vec<Example>>,
}

/// A `Sense` as contracts speak of it.
pub struct SenseView {
    pub glosses: Option<Seq<Seq<char>>>,
    pub examples: Option<Seq<ExampleView>>,
}

impl View for Sense {
    type V = SenseView;

    open spec fn view(&self) -> SenseView {
        SenseView { glosses: opt_views(self.glosses), examples: opt_views(self.examples) }
    }
}

/// One pronunciation: an IPA string and the tags that qualify it.
#[derive(Debug, Clone, PartialEq, Eq)]
pub struct Sound {
    pub ipa: Option<String>,
    pub tags: Option<Vec<String>>,
}

/// A `Sound` as contracts speak of it.
pub struct SoundView {
    pub ipa: Option<Seq<char>>,
    pub tags: Option<Seq<Seq<char>>>,
}

impl View for Sound {
    type V = SoundView;

    open spec fn view(&self) -> SoundView {
        SoundView { ipa: opt_view(self.ipa), tags: opt_views(self.tags) }
    }
}

/// What is kept of an entry besides its word and part of speech.
#[derive(Debug, Clone, PartialEq, Eq)]
pub struct WordInfo {
    pub senses: Vec<Sense>,
    pub etymology_text: Option<String>,
    pub sounds: Option<Vec<Sound>>,
}

/// A `WordInfo` as contracts speak of it.
pub struct WordInfoView {
    pub senses: Seq<SenseView>,
    pub etymology_text: Option<Seq<char>>,
    pub sounds: Option<Seq<SoundView>>,
}

impl View for WordInfo {
    type V = WordInfoView;

    open spec fn view(&self) -> WordInfoView {
        WordInfoView {
            senses: views_of(self.senses@),
            etymology_text: opt_view(self.etymology_text),
            sounds: opt_views(self.sounds),
        }
    }
}

/// A row of the store: the word, its part of speech, and the rest of the
/// entry as JSON text.
#[derive(Debug, Clone, PartialEq, Eq)]
pub struct Row {
    pub word: String,
    pub pos: String,
    pub information: Option<String>,
}

/// A `Row` as contracts speak of it.
pub struct RowView {
    pub word: Seq<char>,
    pub pos: Seq<char>,
    pub information: Option<Seq<char>>,
}

impl View for Row {
    type V = RowView;

    open spec fn view(&self) -> RowView {
        RowView { word: self.word@, pos: self.pos@, information: opt_view(self.information) }
    }
}

/// Whether `a` and `b` hold the same string, or both none.
pub fn same_text(a: &Option<String>, b: &Option<String>) -> (r: bool)
    ensures
        r == (opt_view(*a) == opt_view(*b)),
{
    match (a, b) {
        (Some(x), Some(y)) => *x == *y,
        (None, None) => true,
        _ => false,
    }
}

/// Whether `a` and `b` hold the same strings in the same order.
pub fn same_texts(a: &Vec<String>, b: &Vec<String>) -> (r: bool)
    ensures
        r == (views_of(a@) == views_of(b@)),
{
    if a.len() != b.len() {
        assert(views_of(a@).len() != views_of(b@).len());
        return false;
    }
    let mut i: usize = 0;
    while i < a.len()
        invariant
            i <= a.len(),
            a.len() == b.len(),
            forall|k: int| 0 <= k < i ==> (#[trigger] a@[k])@ == b@[k]@,
        decreases a.len() - i,
    {
        if !(a[i] == b[i]) {
            assert(views_of(a@)[i as int] != views_of(b@)[i as int]);
            return false;
        }
        i += 1;
    }
    assert(views_of(a@) =~= views_of(b@));
    true
}

/// Whether `a` and `b` hold the same list of strings, or both none.
pub fn same_optional_texts(a: &Option<Vec<String>>, b: &Option<Vec<String>>) -> (r: bool)
    ensures
        r == (opt_views(*a) == opt_views(*b)),
{
    match (a, b) {
        (Some(x), Some(y)) => same_texts(x, y),
        (None, None) => true,
        _ => false,
    }
}

impl Example {
    /// Whether `other` is the same example, field for field.
    pub fn same(&self, other: &Example) -> (r: bool)
        ensures
            r == (self@ == other@),
    {
        same_text(&self.text, &other.text)
    }
}

/// Whether `a` and `b` hold the same examples in the same order.
pub fn same_examples(a: &Vec<Example>, b: &Vec<Example>) -> (r: bool)
    ensures
        r == (views_of(a@) == views_of(b@)),
{
    if a.len() != b.len() {
        assert(views_of(a@).len() != views_of(b@).len());
        return false;
    }
    let mut i: usize = 0;
    while i < a.len()
        invariant
            i <= a.len(),
            a.len() == b.len(),
            forall|k: int| 0 <= k < i ==> (#[trigger] a@[k])@ == b@[k]@,
        decreases a.len() - i,
    {
        if !a[i].same(&b[i]) {
            assert(views_of(a@)[i as int] != views_of(b@)[i as int]);
            return false;
        }
        i += 1;
    }
    assert(views_of(a@) =~= views_of(b@));
    true
}

impl Sense {
    /// Whether `other` is the same sense, field for field.
    pub fn same(&self, other: &Sense) -> (r: bool)
        ensures
            r == (self@ == other@),
    {
        let examples = match (&self.examples, &other.examples) {
            (Some(x), Some(y)) => same_examples(x, y),
            (None, None) => true,
            _ => false,
        };
        same_optional_texts(&self.glosses, &other.glosses) && examples
    }
}

/// Whether `a` and `b` hold the same senses in the same order.
pub fn same_senses(a: &Vec<Sense>, b: &Vec<Sense>) -> (r: bool)
    ensures
        r == (views_of(a@) == views_of(b@)),
{
    if a.len() != b.len() {
        assert(views_of(a@).len() != views_of(b@).len());
        return false;
    }
    let mut i: usize = 0;
    while i < a.len()
        invariant
            i <= a.len(),
            a.len() == b.len(),
            forall|k: int| 0 <= k < i ==> (#[trigger] a@[k])@ == b@[k]@,
        decreases a.len() - i,
    {
        if !a[i].same(&b[i]) {
            assert(views_of(a@)[i as int] != views_of(b@)[i as int]);
            return false;
        }
        i += 1;
    }
    assert(views_of(a@) =~= views_of(b@));
    true
}

impl Sound {
    /// Whether `other` is the same pronunciation, field for field.
    pub fn same(&self, other: &Sound) -> (r: bool)
        ensures
            r == (self@ == other@),
    {
        same_text(&self.ipa, &other.ipa) && same_optional_texts(&self.tags, &other.tags)
    }
}

/// Whether `a` and `b` hold the same pronunciations in the same order.
pub fn same_sounds(a: &Vec<Sound>, b: &Vec<Sound>) -> (r: bool)
    ensures
        r == (views_of(a@) == views_of(b@)),
{
    if a.len() != b.len() {
        assert(views_of(a@).len() != views_of(b@).len());
        return false;
    }
    let mut i: usize = 0;
    while i < a.len()
        invariant
            i <= a.len(),
            a.len() == b.len(),
            forall|k: int| 0 <= k < i ==> (#[trigger] a@[k])@ == b@[k]@,
        decreases a.len() - i,
    {
        if !a[i].same(&b[i]) {
            assert(views_of(a@)[i as int] != views_of(b@)[i as int]);
            return false;
        }
        i += 1;
    }
    assert(views_of(a@) =~= views_of(b@));
    true
}

impl WordInfo {
    /// Whether `other` is the same record, field for field.
    pub fn same(&self, other: &WordInfo) -> (r: bool)
        ensures
            r == (self@ == other@),
    {
        let sounds = match (&self.sounds, &other.sounds) {
            (Some(x), Some(y)) => same_sounds(x, y),
            (None, None) => true,
            _ => false,
        };
        same_senses(&self.senses, &other.senses) && same_text(
            &self.etymology_text,
            &other.etymology_text,
        ) && sounds
    }
}

} // verus!
