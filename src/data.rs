//! The parsed records: a topic and its cards, borrowing from the input text.
use vstd::prelude::*;

verus! {

/// What a card holds: its question and its answer.
pub struct CardModel {
    pub question: Seq<char>,
    pub answer: Seq<char>,
}

/// What a topic holds: its title and its cards, in order.
pub struct TopicModel {
    pub title: Seq<char>,
    pub cards: Seq<CardModel>,
}

/// The models of a sequence of cards.
pub open spec fn card_models<'a>(cards: Seq<Card<'a>>) -> Seq<CardModel> {
    cards.map_values(|c: Card<'a>| c@)
}

/// How a card reads when shown to a person.
pub open spec fn card_text(c: CardModel) -> Seq<char> {
    "=== Card ===\nQuestion: "@ + c.question + "\nAnswer: "@ + c.answer + "\n"@
}

/// The cards one after another, each followed by a blank line.
pub open spec fn cards_text(cards: Seq<CardModel>) -> Seq<char>
    decreases cards.len(),
{
    if cards.len() == 0 {
        Seq::empty()
    } else {
        cards_text(cards.drop_last()) + card_text(cards.last()) + "\n\n"@
    }
}

/// How a topic reads when shown to a person: its title, a blank line, then
/// its cards.
pub open spec fn topic_text(t: TopicModel) -> Seq<char> {
    "Topic: "@ + t.title + "\n\n"@ + cards_text(t.cards)
}

/// A named collection of cards.
#[derive(Debug, Clone, PartialEq, Eq, PartialOrd, Ord)]
pub struct Topic<'a> {
    title: &'a str,
    cards: Vec<Card<'a>>,
}

impl<'a> View for Topic<'a> {
    type V = TopicModel;

    closed spec fn view(&self) -> TopicModel {
        TopicModel { title: self.title@, cards: card_models(self.cards@) }
    }
}

impl<'a> Topic<'a> {
    pub fn new(title: &'a str, cards: Vec<Card<'a>>) -> (r: Self)
        ensures
            r@ == (TopicModel { title: title@, cards: card_models(cards@) }),
    {
        Topic { title, cards }
    }

    pub fn title(&self) -> (r: &str)
        ensures
            r@ == self@.title,
    {
        self.title
    }

    pub fn cards(&self) -> (r: &[Card<'a>])
        ensures
            card_models(r@) == self@.cards,
    {
        self.cards.as_slice()
    }

    /// The topic as text for a person to read.
    pub fn to_text(&self) -> (r: String)
        ensures
            r@ == topic_text(self@),
    {
        let mut out = String::from_str("Topic: ");
        out.append(self.title);
        out.append("\n\n");
        let mut i: usize = 0;
        while i < self.cards.len()
            invariant
                i <= self.cards@.len(),
                out@ == "Topic: "@ + self.title@ + "\n\n"@ + cards_text(
                    card_models(self.cards@.subrange(0, i as int)),
                ),
            decreases self.cards@.len() - i,
        {
            let ghost done = card_models(self.cards@.subrange(0, i as int));
            let ghost next = card_models(self.cards@.subrange(0, i + 1));
            let ghost head = "Topic: "@ + self.title@ + "\n\n"@;
            let ghost start = out@;
            let shown = self.cards[i].to_text();
            out.append(shown.as_str());
            out.append("\n\n");
            assert(next.drop_last() =~= done);
            assert(next.last() == self.cards@[i as int]@);
            assert(next.len() == i + 1);
            assert(cards_text(next) == cards_text(done) + card_text(next.last()) + "\n\n"@);
            assert(shown@ == card_text(next.last()));
            assert(out@ =~= start + (shown@ + "\n\n"@));
            assert(head + cards_text(next) =~= start + (shown@ + "\n\n"@));
            i = i + 1;
        }
        assert(self.cards@.subrange(0, i as int) =~= self.cards@);
        out
    }
}

/// One question with its answer.
#[derive(Debug, Clone, PartialEq, Eq, PartialOrd, Ord)]
pub struct Card<'a> {
    question: &'a str,
    answer: &'a str,
}

impl<'a> View for Card<'a> {
    type V = CardModel;

    closed spec fn view(&self) -> CardModel {
        CardModel { question: self.question@, answer: self.answer@ }
    }
}

impl<'a> Card<'a> {
    pub fn new(question: &'a str, answer: &'a str) -> (r: Self)
        ensures
            r@ == (CardModel { question: question@, answer: answer@ }),
    {
        Card { question, answer }
    }

    pub fn question(&self) -> (r: &str)
        ensures
            r@ == self@.question,
    {
        self.question
    }

    pub fn answer(&self) -> (r: &str)
        ensures
            r@ == self@.answer,
    {
        self.answer
    }

    /// The card as text for a person to read.
    pub fn to_text(&self) -> (r: String)
        ensures
            r@ == card_text(self@),
    {
        let mut out = String::from_str("=== Card ===\nQuestion: ");
        out.append(self.question);
        out.append("\nAnswer: ");
        out.append(self.answer);
        out.append("\n");
        out
    }
}

} // verus!
