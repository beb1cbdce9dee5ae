//! Records that own their text, for keeping a topic beyond the input it was
//! read from.
use crate::data::{CardModel, TopicModel};
use vstd::prelude::*;

verus! {

/// The models of a sequence of owned cards.
pub open spec fn owned_card_models(cards: Seq<OwnedCard>) -> Seq<CardModel> {
    cards.map_values(|c: OwnedCard| c@)
}

/// A topic that owns its title and its cards.
pub struct OwnedTopic {
    title: String,
    cards: Vec<OwnedCard>,
}

impl View for OwnedTopic {
    type V = TopicModel;

    closed spec fn view(&self) -> TopicModel {
        TopicModel { title: self.title@, cards: owned_card_models(self.cards@) }
    }
}

impl OwnedTopic {
    pub fn new(title: String, cards: Vec<OwnedCard>) -> (r: Self)
        ensures
            r@ == (TopicModel { title: title@, cards: owned_card_models(cards@) }),
    {
        OwnedTopic { title, cards }
    }

    pub fn title(&self) -> (r: &str)
        ensures
            r@ == self@.title,
    {
        self.title.as_str()
    }

    pub fn title_mut(&mut self) -> (r: &mut String)
        ensures
            r@ == old(self)@.title,
            final(self)@ == (TopicModel { title: final(r)@, cards: old(self)@.cards }),
    {
        &mut self.title
    }

    pub fn cards(&self) -> (r: &[OwnedCard])
        ensures
            owned_card_models(r@) == self@.cards,
    {
        self.cards.as_slice()
    }

    pub fn cards_mut(&mut self) -> (r: &mut Vec<OwnedCard>)
        ensures
            owned_card_models(r@) == old(self)@.cards,
            final(self)@ == (TopicModel {
                title: old(self)@.title,
                cards: owned_card_models(final(r)@),
            }),
    {
        &mut self.cards
    }
}

/// A card that owns its question and its answer.
pub struct OwnedCard {
    question: String,
    answer: String,
}

impl View for OwnedCard {
    type V = CardModel;

    closed spec fn view(&self) -> CardModel {
        CardModel { question: self.question@, answer: self.answer@ }
    }
}

impl OwnedCard {
    pub fn new(question: String, answer: String) -> (r: Self)
        ensures
            r@ == (CardModel { question: question@, answer: answer@ }),
    {
        OwnedCard { question, answer }
    }

    pub fn question(&self) -> (r: &str)
        ensures
            r@ == self@.question,
    {
        self.question.as_str()
    }

    pub fn question_mut(&mut self) -> (r: &mut String)
        ensures
            r@ == old(self)@.question,
            final(self)@ == (CardModel { question: final(r)@, answer: old(self)@.answer }),
    {
        &mut self.question
    }

    pub fn answer(&self) -> (r: &str)
        ensures
            r@ == self@.answer,
    {
        self.answer.as_str()
    }

    pub fn answer_mut(&mut self) -> (r: &mut String)
        ensures
            r@ == old(self)@.answer,
            final(self)@ == (CardModel { question: old(self)@.question, answer: final(r)@ }),
    {
        &mut self.answer
    }
}

} // verus!
