//! The grammar: a topic is a title followed by cards; a card is a question,
//! a divider and an answer, ended by a separator or by the end of the text.
use crate::data::{card_models, Card, CardModel, Topic, TopicModel};
use crate::text::{
    all_white_space, contains_char, first_index, is_white_space, lemma_find_from_finds, lemma_split_after,
    lemma_split_len, lemma_trim_ignores_padding, lemma_trimmed_ends, lemma_trimmed_len, occurs_at,
    split_spec, split_text, trim, trim_end, trim_start, trimmed,
};
use vstd::prelude::*;

verus! {

/// Why a text is not a topic.
#[derive(Debug, Clone, PartialEq, Eq, PartialOrd, Ord)]
pub enum ParseError<'a> {
    TopicTitleIsEmpty,
    TopicTitleIsMultipleLinesLong { title: &'a str },
    CardQuestionIsEmpty,
    CardAnswerIsEmpty,
}

/// What a parse error says, with the offending title as characters.
pub enum ParseErrorModel {
    TopicTitleIsEmpty,
    TopicTitleIsMultipleLinesLong { title: Seq<char> },
    CardQuestionIsEmpty,
    CardAnswerIsEmpty,
}

impl<'a> View for ParseError<'a> {
    type V = ParseErrorModel;

    open spec fn view(&self) -> ParseErrorModel {
        match self {
            ParseError::TopicTitleIsEmpty => ParseErrorModel::TopicTitleIsEmpty,
            ParseError::TopicTitleIsMultipleLinesLong { title } =>
                ParseErrorModel::TopicTitleIsMultipleLinesLong { title: title@ },
            ParseError::CardQuestionIsEmpty => ParseErrorModel::CardQuestionIsEmpty,
            ParseError::CardAnswerIsEmpty => ParseErrorModel::CardAnswerIsEmpty,
        }
    }
}

/// The marker that ends a title or an answer: `\n/==`.
pub open spec fn separator() -> Seq<char> {
    seq!['\n', '/', '=', '=']
}

/// The marker that ends a question: `\n/-`.
pub open spec fn divider() -> Seq<char> {
    seq!['\n', '/', '-']
}

/// The text up to the first `sep`, trimmed, with what follows that `sep`;
/// `None` where the trimmed text is empty.
pub open spec fn field_spec(sep: Seq<char>, s: Seq<char>) -> Option<(Seq<char>, Seq<char>)> {
    let (rest, text) = split_spec(sep, s);
    if trimmed(text).len() == 0 {
        None
    } else {
        Some((rest, trimmed(text)))
    }
}

/// The first card of `s` and the text after it.
pub open spec fn card_spec(s: Seq<char>) -> Result<(Seq<char>, CardModel), ParseErrorModel> {
    match field_spec(divider(), s) {
        None => Err(ParseErrorModel::CardQuestionIsEmpty),
        Some((after_question, question)) => match field_spec(separator(), after_question) {
            None => Err(ParseErrorModel::CardAnswerIsEmpty),
            Some((rest, answer)) => Ok((rest, CardModel { question, answer })),
        },
    }
}

/// The cards of `s`, read one after another until the text is used up.
pub open spec fn cards_spec(s: Seq<char>) -> Result<Seq<CardModel>, ParseErrorModel>
    decreases s.len(),
    via cards_spec_decreases
{
    if s.len() == 0 {
        Ok(Seq::empty())
    } else {
        match card_spec(s) {
            Err(e) => Err(e),
            Ok((rest, c)) => match cards_spec(rest) {
                Ok(cs) => Ok(seq![c] + cs),
                Err(e) => Err(e),
            },
        }
    }
}

#[via_fn]
proof fn cards_spec_decreases(s: Seq<char>) {
    if s.len() != 0 {
        lemma_card_consumes(s);
    }
}

/// The title of `s` and the text after it.
pub open spec fn topic_title_spec(s: Seq<char>) -> Result<(Seq<char>, Seq<char>), ParseErrorModel> {
    match field_spec(separator(), s) {
        None => Err(ParseErrorModel::TopicTitleIsEmpty),
        Some((rest, title)) => if title.contains('\n') {
            Err(ParseErrorModel::TopicTitleIsMultipleLinesLong { title })
        } else {
            Ok((rest, title))
        },
    }
}

/// The topic that `s` holds.
pub open spec fn topic_spec(s: Seq<char>) -> Result<TopicModel, ParseErrorModel> {
    match topic_title_spec(trimmed(s)) {
        Err(e) => Err(e),
        Ok((rest, title)) => match cards_spec(rest) {
            Ok(cards) => Ok(TopicModel { title, cards }),
            Err(e) => Err(e),
        },
    }
}

/// `prefix` in front of the cards of a parse, or the parse's error.
pub open spec fn after_cards(
    prefix: Seq<CardModel>,
    r: Result<Seq<CardModel>, ParseErrorModel>,
) -> Result<Seq<CardModel>, ParseErrorModel> {
    match r {
        Ok(cs) => Ok(prefix + cs),
        Err(e) => Err(e),
    }
}

/// Parses a whole text into a topic. Surrounding white space is ignored.
pub fn topic<'a>(input: &'a str) -> (r: Result<Topic<'a>, ParseError<'a>>)
    ensures
        match r {
            Ok(t) => topic_spec(input@) == Ok::<_, ParseErrorModel>(t@),
            Err(e) => topic_spec(input@) == Err::<TopicModel, _>(e@),
        },
{
    let input = trim(input);
    let (input, title) = match topic_title(input) {
        Ok(found) => found,
        Err(e) => {
            return Err(e);
        },
    };
    let cards = match cards(input) {
        Ok(cards) => cards,
        Err(e) => {
            return Err(e);
        },
    };
    Ok(Topic::new(title, cards))
}

/// Reads cards one after another until `input` is used up; the first card
/// that fails ends the parse with its error.
pub fn cards<'a>(input: &'a str) -> (r: Result<Vec<Card<'a>>, ParseError<'a>>)
    ensures
        match r {
            Ok(v) => cards_spec(input@) == Ok::<_, ParseErrorModel>(card_models(v@)),
            Err(e) => cards_spec(input@) == Err::<Seq<CardModel>, _>(e@),
        },
{
    let mut text = input;
    let mut results: Vec<Card<'a>> = Vec::new();
    while text.unicode_len() != 0
        invariant
            cards_spec(input@) == after_cards(card_models(results@), cards_spec(text@)),
        decreases text@.len(),
    {
        let (remaining, card) = match card(text) {
            Ok(found) => found,
            Err(e) => {
                proof {
                    lemma_cards_step(text@);
                }
                return Err(e);
            },
        };
        let ghost before = card_models(results@);
        proof {
            lemma_card_consumes(text@);
            lemma_cards_step(text@);
            match cards_spec(remaining@) {
                Ok(cs) => {
                    assert(before + (seq![card@] + cs) =~= (before + seq![card@]) + cs);
                },
                Err(_) => {},
            }
        }
        results.push(card);
        assert(card_models(results@) =~= before + seq![card@]);
        text = remaining;
    }
    assert(card_models(results@) + Seq::empty() =~= card_models(results@));
    Ok(results)
}

/// The title: the text up to the first separator, trimmed, which must be a
/// single line. Returns the text after that separator and the title.
pub fn topic_title<'a>(input: &'a str) -> (r: Result<(&'a str, &'a str), ParseError<'a>>)
    ensures
        match r {
            Ok((rest, title)) => topic_title_spec(input@) == Ok::<_, ParseErrorModel>(
                (rest@, title@),
            ),
            Err(e) => topic_title_spec(input@) == Err::<(Seq<char>, Seq<char>), _>(e@),
        },
{
    let (input, text) = match text_until_card_separator(input) {
        Ok(found) => found,
        Err(_) => {
            return Err(ParseError::TopicTitleIsEmpty);
        },
    };
    if contains_char(text, '\n') {
        return Err(ParseError::TopicTitleIsMultipleLinesLong { title: text });
    }
    Ok((input, text))
}

/// The first card of `input`, and the text after it.
pub fn card<'a>(input: &'a str) -> (r: Result<(&'a str, Card<'a>), ParseError<'a>>)
    ensures
        match r {
            Ok((rest, c)) => card_spec(input@) == Ok::<_, ParseErrorModel>((rest@, c@)),
            Err(e) => card_spec(input@) == Err::<(Seq<char>, CardModel), _>(e@),
        },
{
    let (input, question) = match text_until_card_divider(input) {
        Ok(found) => found,
        Err(_) => {
            return Err(ParseError::CardQuestionIsEmpty);
        },
    };
    let (input, answer) = match text_until_card_separator(input) {
        Ok(found) => found,
        Err(_) => {
            return Err(ParseError::CardAnswerIsEmpty);
        },
    };
    Ok((input, Card::new(question, answer)))
}

/// The failure of a field extractor: the field was empty once trimmed.
struct TextIsEmpty;

/// The text up to the first separator, trimmed, and the text after that
/// separator.
fn text_until_card_separator<'a>(input: &'a str) -> (r: Result<(&'a str, &'a str), TextIsEmpty>)
    ensures
        match r {
            Ok((rest, text)) => field_spec(separator(), input@) == Some((rest@, text@)),
            Err(_) => field_spec(separator(), input@) is None,
        },
{
    proof {
        reveal_strlit("\n/==");
        assert("\n/=="@ =~= separator());
    }
    let (input, text) = split_text("\n/==", input);
    let text = trim(text);
    if text.unicode_len() == 0 {
        return Err(TextIsEmpty);
    }
    Ok((input, text))
}

/// The text up to the first divider, trimmed, and the text after that
/// divider.
fn text_until_card_divider<'a>(input: &'a str) -> (r: Result<(&'a str, &'a str), TextIsEmpty>)
    ensures
        match r {
            Ok((rest, text)) => field_spec(divider(), input@) == Some((rest@, text@)),
            Err(_) => field_spec(divider(), input@) is None,
        },
{
    proof {
        reveal_strlit("\n/-");
        assert("\n/-"@ =~= divider());
    }
    let (input, text) = split_text("\n/-", input);
    let text = trim(text);
    if text.unicode_len() == 0 {
        return Err(TextIsEmpty);
    }
    Ok((input, text))
}

/// One step of reading cards: the first card, then the cards after it.
pub proof fn lemma_cards_step(s: Seq<char>)
    requires
        s.len() > 0,
    ensures
        cards_spec(s) == match card_spec(s) {
            Err(e) => Err(e),
            Ok((rest, c)) => after_cards(seq![c], cards_spec(rest)),
        },
{
    lemma_card_consumes(s);
}

/// Reading a card uses up at least one character of the text.
pub proof fn lemma_card_consumes(s: Seq<char>)
    requires
        s.len() > 0,
    ensures
        card_spec(s) matches Ok((rest, _)) ==> rest.len() < s.len(),
{
    let (r1, t1) = split_spec(divider(), s);
    let (r2, t2) = split_spec(separator(), r1);
    lemma_split_len(divider(), s);
    lemma_split_len(separator(), r1);
    lemma_trimmed_len(t1);
}

/// Whether `marker` first occurs in `text + marker` right after `text`: the
/// text holds no marker, nor the start of one that runs on into the marker
/// after it.
pub open spec fn ends_before(text: Seq<char>, marker: Seq<char>) -> bool {
    first_index(text + marker, marker) == Some(text.len() as int)
}

/// A field as the parser gives it back: not empty, and its own trimmed form.
pub open spec fn is_field(f: Seq<char>) -> bool {
    f.len() > 0 && trimmed(f) == f
}

/// White space around a field does not change what is read: where the padded
/// text and the bare one both run up to the first marker, reading a field
/// from them gives the same field and the same text after it.
pub proof fn lemma_padding_keeps_field(
    marker: Seq<char>,
    w1: Seq<char>,
    f: Seq<char>,
    w2: Seq<char>,
    y: Seq<char>,
)
    requires
        marker.len() > 0,
        all_white_space(w1),
        all_white_space(w2),
        ends_before(w1 + f + w2, marker),
        ends_before(f, marker),
    ensures
        field_spec(marker, w1 + f + w2 + marker + y) == field_spec(marker, f + marker + y),
{
    lemma_split_after(w1 + f + w2, marker, y);
    lemma_split_after(f, marker, y);
    lemma_trim_ignores_padding(w1, f, w2);
}

/// A question text `x`, a divider, an answer text `z` and then either a
/// separator or the end of the text read as one card.
proof fn lemma_card_parts(x: Seq<char>, z: Seq<char>, y: Seq<char>)
    requires
        ends_before(x, divider()),
        ends_before(z, separator()),
        trimmed(x).len() > 0,
        trimmed(z).len() > 0,
    ensures
        card_spec(x + divider() + z + separator() + y) == Ok::<_, ParseErrorModel>(
            (y, CardModel { question: trimmed(x), answer: trimmed(z) }),
        ),
        card_spec(x + divider() + z) == Ok::<_, ParseErrorModel>(
            (Seq::<char>::empty(), CardModel { question: trimmed(x), answer: trimmed(z) }),
        ),
{
    let rest = z + separator() + y;
    assert(x + divider() + z + separator() + y =~= x + divider() + rest);
    lemma_split_after(x, divider(), rest);
    lemma_split_after(z, separator(), y);
    lemma_split_after(x, divider(), z);
}

/// A field after a line break trims back to itself.
proof fn lemma_field_after_newline(f: Seq<char>)
    requires
        is_field(f),
    ensures
        trimmed(seq!['\n'] + f) == f,
{
    assert(is_white_space('\n'));
    assert(all_white_space(seq!['\n']));
    assert(all_white_space(Seq::<char>::empty()));
    assert(seq!['\n'] + f + Seq::<char>::empty() =~= seq!['\n'] + f);
    lemma_trim_ignores_padding(seq!['\n'], f, Seq::<char>::empty());
}

/// The separator after the last answer is optional: a question, a divider
/// and an answer read as the same single card with a separator after them
/// and without one.
pub proof fn lemma_trailing_separator_optional(q: Seq<char>, a: Seq<char>)
    requires
        is_field(q),
        is_field(a),
        ends_before(q, divider()),
        ends_before(seq!['\n'] + a, separator()),
    ensures
        cards_spec(q + divider() + seq!['\n'] + a + separator()) == Ok::<_, ParseErrorModel>(
            seq![CardModel { question: q, answer: a }],
        ),
        cards_spec(q + divider() + seq!['\n'] + a) == Ok::<_, ParseErrorModel>(
            seq![CardModel { question: q, answer: a }],
        ),
{
    let z = seq!['\n'] + a;
    let c = CardModel { question: q, answer: a };
    let with_end = q + divider() + seq!['\n'] + a + separator();
    let without_end = q + divider() + seq!['\n'] + a;
    lemma_field_after_newline(a);
    lemma_card_parts(q, z, Seq::<char>::empty());
    assert(with_end =~= q + divider() + z + separator() + Seq::<char>::empty());
    assert(without_end =~= q + divider() + z);
    lemma_cards_step(with_end);
    lemma_cards_step(without_end);
    assert(cards_spec(Seq::<char>::empty()) == Ok::<_, ParseErrorModel>(Seq::<CardModel>::empty()));
    assert(seq![c] + Seq::<CardModel>::empty() =~= seq![c]);
}

/// A title and two cards, each field on its own lines, read as a topic with
/// that title and those two cards in order.
pub proof fn lemma_two_cards(
    t: Seq<char>,
    q1: Seq<char>,
    a1: Seq<char>,
    q2: Seq<char>,
    a2: Seq<char>,
)
    requires
        is_field(t),
        !t.contains('\n'),
        is_field(q1),
        is_field(a1),
        is_field(q2),
        is_field(a2),
        ends_before(seq!['\n'] + q1, divider()),
        ends_before(seq!['\n'] + a1, separator()),
        ends_before(seq!['\n'] + q2, divider()),
        ends_before(seq!['\n'] + a2, separator()),
    ensures
        topic_spec(
            t + separator() + seq!['\n'] + q1 + divider() + seq!['\n'] + a1 + separator() + seq![
                '\n',
            ] + q2 + divider() + seq!['\n'] + a2,
        ) == Ok::<_, ParseErrorModel>(
            TopicModel {
                title: t,
                cards: seq![
                    CardModel { question: q1, answer: a1 },
                    CardModel { question: q2, answer: a2 },
                ],
            },
        ),
{
    let nl = seq!['\n'];
    let (x1, z1, x2, z2) = (nl + q1, nl + a1, nl + q2, nl + a2);
    let second = x2 + divider() + z2;
    let rest = x1 + divider() + z1 + separator() + second;
    let input = t + separator() + nl + q1 + divider() + nl + a1 + separator() + nl + q2 + divider()
        + nl + a2;
    let c1 = CardModel { question: q1, answer: a1 };
    let c2 = CardModel { question: q2, answer: a2 };
    assert(input =~= t + separator() + rest);

    // The whole text is already trimmed.
    lemma_trimmed_ends(t);
    lemma_trimmed_ends(a2);
    assert(input[0] == t[0]);
    assert(input.last() == a2.last());
    assert(trim_start(input) == input);
    assert(trim_end(input) == input);

    // The title ends at the first separator, as it holds no line break.
    let s1 = t + separator();
    assert forall|k: int| 0 <= k < t.len() implies !occurs_at(s1, separator(), k) by {
        if occurs_at(s1, separator(), k) {
            assert(s1.subrange(k, k + 4)[0] == s1[k]);
            assert(t[k] == '\n');
        }
    }
    assert(s1.subrange(t.len() as int, t.len() + 4int) =~= separator());
    lemma_find_from_finds(s1, separator(), 0, t.len() as int);
    lemma_split_after(t, separator(), rest);
    assert(topic_title_spec(input) == Ok::<_, ParseErrorModel>((rest, t)));

    // Then the two cards.
    lemma_field_after_newline(q1);
    lemma_field_after_newline(a1);
    lemma_field_after_newline(q2);
    lemma_field_after_newline(a2);
    lemma_card_parts(x1, z1, second);
    lemma_card_parts(x2, z2, Seq::<char>::empty());
    lemma_cards_step(rest);
    lemma_cards_step(second);
    assert(cards_spec(Seq::<char>::empty()) == Ok::<_, ParseErrorModel>(Seq::<CardModel>::empty()));
    assert(seq![c1] + (seq![c2] + Seq::<CardModel>::empty()) =~= seq![c1, c2]);
}

} // verus!
