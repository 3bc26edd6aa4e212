//! The library's data: clippings, cards, the compiled output and the error
//! taxonomy, with their mathematical models.
use vstd::prelude::*;

verus! {

/// A card with a question side and an answer side.
#[derive(Debug, Clone, PartialEq, Eq)]
pub struct Basic {
    pub front: String,
    pub back: String,
}

/// A card whose text hides a term behind cloze markers.
#[derive(Debug, Clone, PartialEq, Eq)]
pub struct Cloze {
    pub text: String,
    pub back_extra: String,
}

/// One flashcard derived from a note line.
#[derive(Debug, Clone, PartialEq, Eq)]
pub enum Card {
    Cloze(Cloze),
    Basic(Basic),
}

/// One decoded annotation record. Dates are seconds since the Unix epoch, UTC.
#[derive(Debug, Clone, PartialEq, Eq)]
pub enum Clipping {
    Highlight { book: String, author: String, date: i64, sentence: String },
    Note { book: String, author: String, date: i64, cards: Vec<Card> },
}

/// The compiled cards with the dates of the first and last clipping.
#[derive(Debug, Clone, PartialEq, Eq)]
pub struct Output {
    pub cards: Vec<Card>,
    pub begin_date: i64,
    pub end_date: i64,
}

/// Every way a conversion or a compilation can fail. `line` is the 0-based
/// index of the offending line.
#[derive(Debug, Clone, Copy, PartialEq, Eq, Structural)]
pub enum ConvertError {
    MalformedTitleLine { line: usize },
    MalformedMetaLine { line: usize },
    DateParseError { line: usize },
    UnknownRecordKind { line: usize },
    MissingBasicDescription { line: usize },
    MissingHighlightForCloze { line: usize },
    NoClozeMatch { line: usize },
    MissingFrontBackSeparator { line: usize },
    MissingCardTerm { line: usize },
    InvalidBlockSequence { line: usize },
    EmptyMetadata,
    InvalidStartDate,
}

/// The model of a card.
pub enum CardModel {
    Cloze { text: Seq<char>, back_extra: Seq<char> },
    Basic { front: Seq<char>, back: Seq<char> },
}

impl View for Card {
    type V = CardModel;

    open spec fn view(&self) -> CardModel {
        match self {
            Card::Cloze(c) => CardModel::Cloze { text: c.text@, back_extra: c.back_extra@ },
            Card::Basic(b) => CardModel::Basic { front: b.front@, back: b.back@ },
        }
    }
}

/// The models of a sequence of cards.
pub open spec fn cards_model(cards: Seq<Card>) -> Seq<CardModel> {
    cards.map_values(|c: Card| c@)
}

/// The model of a clipping.
pub enum ClippingModel {
    Highlight { book: Seq<char>, author: Seq<char>, date: i64, sentence: Seq<char> },
    Note { book: Seq<char>, author: Seq<char>, date: i64, cards: Seq<CardModel> },
}

impl ClippingModel {
    /// The date of the clipping.
    pub open spec fn date(self) -> i64 {
        match self {
            ClippingModel::Highlight { date, .. } => date,
            ClippingModel::Note { date, .. } => date,
        }
    }
}

impl View for Clipping {
    type V = ClippingModel;

    open spec fn view(&self) -> ClippingModel {
        match self {
            Clipping::Highlight { book, author, date, sentence } => ClippingModel::Highlight {
                book: book@,
                author: author@,
                date: *date,
                sentence: sentence@,
            },
            Clipping::Note { book, author, date, cards } => ClippingModel::Note {
                book: book@,
                author: author@,
                date: *date,
                cards: cards_model(cards@),
            },
        }
    }
}

/// The models of a sequence of clippings.
pub open spec fn clippings_model(v: Seq<Clipping>) -> Seq<ClippingModel> {
    v.map_values(|c: Clipping| c@)
}

impl Clipping {
    /// The date of the clipping.
    pub fn date(&self) -> (r: i64)
        ensures
            r == self@.date(),
    {
        match self {
            Clipping::Highlight { date, .. } => *date,
            Clipping::Note { date, .. } => *date,
        }
    }
}

} // verus!
