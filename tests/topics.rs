use flashcards::{card, cards, topic, topic_title, Card, OwnedCard, OwnedTopic, ParseError, Topic};

#[test]
fn two_cards_keep_their_order() {
    let input = "Title\n/==\nQ1\n/-\nA1\n/==\nQ2\n/-\nA2";
    let parsed = topic(input).unwrap();
    assert_eq!(parsed.title(), "Title");
    let found: Vec<(&str, &str)> = parsed.cards().iter().map(|c| (c.question(), c.answer())).collect();
    assert_eq!(found, vec![("Q1", "A1"), ("Q2", "A2")]);
}

#[test]
fn trailing_separator_is_optional() {
    assert_eq!(cards("Q\n/-\nA\n/=="), cards("Q\n/-\nA"));
    assert_eq!(cards("Q\n/-\nA"), Ok(vec![Card::new("Q", "A")]));
}

#[test]
fn padding_around_fields_is_ignored() {
    let plain = topic("Title\n/==\nQ\n/-\nA").unwrap();
    let padded = topic("  \n Title \t\n\n/==\n\n  Q \n\n/-\n\n\t A  \n\n/==\n\n").unwrap();
    assert_eq!(plain, padded);
}

#[test]
fn empty_title_is_refused() {
    assert_eq!(topic_title("\n\n/=="), Err(ParseError::TopicTitleIsEmpty));
    assert_eq!(topic(" \n\t "), Err(ParseError::TopicTitleIsEmpty));
}

#[test]
fn multi_line_title_is_refused() {
    assert_eq!(
        topic("Title\nSecond Line\n\n/=="),
        Err(ParseError::TopicTitleIsMultipleLinesLong { title: "Title\nSecond Line" })
    );
}

#[test]
fn empty_answer_after_divider_is_refused() {
    assert_eq!(card("Question\n/-\n\n/=="), Err(ParseError::CardAnswerIsEmpty));
    assert_eq!(topic("T\n/==\nQ\n/-\n  \n/==\nQ2\n/-\nA2"), Err(ParseError::CardAnswerIsEmpty));
}

#[test]
fn empty_question_in_topic_is_refused() {
    assert_eq!(topic("T\n/==\nQ\n/-\nA\n/==\n\n/-\nA2"), Err(ParseError::CardQuestionIsEmpty));
}

#[test]
fn topic_without_cards() {
    let parsed = topic("Title\n/==").unwrap();
    assert_eq!(parsed.title(), "Title");
    assert!(parsed.cards().is_empty());
}

#[test]
fn only_markers_end_with_an_error() {
    assert_eq!(topic("\n/==\n/==\n/=="), Err(ParseError::CardAnswerIsEmpty));
    assert_eq!(topic("T\n/==\n/-\n/-\n/=="), Err(ParseError::CardQuestionIsEmpty));
    assert_eq!(cards("\n/==\n/=="), Err(ParseError::CardAnswerIsEmpty));
    assert_eq!(topic(""), Err(ParseError::TopicTitleIsEmpty));
}

#[test]
fn question_without_divider_has_no_answer() {
    assert_eq!(card("Only a question"), Err(ParseError::CardAnswerIsEmpty));
}

#[test]
fn unicode_white_space_is_trimmed() {
    assert_eq!(card("\u{3000}Q\u{a0}\n/-\u{2003}A\u{85}"), Ok(("", Card::new("Q", "A"))));
}

#[test]
fn title_of_other_scripts() {
    let parsed = topic("Café ünïcode\n/==\nß?\n/-\nÆ").unwrap();
    assert_eq!(parsed.title(), "Café ünïcode");
    assert_eq!(parsed.cards()[0], Card::new("ß?", "Æ"));
}

#[test]
fn card_text_for_people() {
    let c = Card::new("Q", "A");
    assert_eq!(c.to_text(), "=== Card ===\nQuestion: Q\nAnswer: A\n");
}

#[test]
fn topic_text_for_people() {
    let t = topic("Title\n/==\nQ1\n/-\nA1\n/==\nQ2\n/-\nA2").unwrap();
    assert_eq!(
        t.to_text(),
        "Topic: Title\n\n=== Card ===\nQuestion: Q1\nAnswer: A1\n\n\n=== Card ===\nQuestion: Q2\nAnswer: A2\n\n\n"
    );
    assert_eq!(Topic::new("T", vec![]).to_text(), "Topic: T\n\n");
}

#[test]
fn owned_records_hold_and_change_their_text() {
    let mut c = OwnedCard::new("Q".to_string(), "A".to_string());
    c.question_mut().push('?');
    c.answer_mut().push('!');
    assert_eq!((c.question(), c.answer()), ("Q?", "A!"));
    let mut t = OwnedTopic::new("T".to_string(), vec![c]);
    t.title_mut().push_str("itle");
    t.cards_mut().push(OwnedCard::new("Q2".to_string(), "A2".to_string()));
    assert_eq!(t.title(), "Title");
    assert_eq!(t.cards().len(), 2);
    assert_eq!(t.cards()[1].answer(), "A2");
}
