use flashcards::{card, cards, topic, topic_title, Card, ParseError, Topic};

#[test]
fn can_parse_topic() {
    let input = "Title\n/==\nQuestion\n/-\nAnswer\n/==";
    let expected = Ok(Topic::new("Title", vec![Card::new("Question", "Answer")]));
    let actual = topic(input);
    assert_eq!(expected, actual);
}

#[test]
fn can_parse_topic_title() {
    let input = "Title\n/==";
    let expected = Ok(("", "Title"));
    let actual = topic_title(input);
    assert_eq!(expected, actual);
}

#[test]
fn can_parse_topic_title_with_empty_lines() {
    let input = "Title\n\n\n/==";
    let expected = Ok(("", "Title"));
    let actual = topic_title(input);
    assert_eq!(expected, actual);
}

#[test]
fn cannot_parse_topic_title_when_empty() {
    let input = "\n\n/==";
    let expected = Err(ParseError::TopicTitleIsEmpty);
    let actual = topic_title(input);
    assert_eq!(expected, actual);
}

#[test]
fn cannot_parse_topic_title_when_multiple_lines_long() {
    let input = "Title\nWith Second Line\n\n/==";
    let expected = Err(ParseError::TopicTitleIsMultipleLinesLong {
        title: "Title\nWith Second Line",
    });
    let actual = topic_title(input);
    assert_eq!(expected, actual);
}

#[test]
fn can_parse_multiple_cards() {
    let input = "First Question\n/-\nFirst Answer\n/==\nSecond Question\n/-\nSecond Answer";
    let expected = Ok(vec![
        Card::new("First Question", "First Answer"),
        Card::new("Second Question", "Second Answer"),
    ]);
    let actual = cards(input);
    assert_eq!(expected, actual);
}

#[test]
fn can_parse_card() {
    let input = "Question\n/-\nAnswer";
    let expected = Ok(("", Card::new("Question", "Answer")));
    let actual = card(input);
    assert_eq!(expected, actual);
}

#[test]
fn can_parse_card_with_separator_at_end() {
    let input = "Question\n/-\nAnswer\n/==";
    let expected = Ok(("", Card::new("Question", "Answer")));
    let actual = card(input);
    assert_eq!(expected, actual);
}

#[test]
fn can_parse_card_with_texts_inline_with_divider() {
    let input = "Question\n/-Answer\n";
    let expected = Ok(("", Card::new("Question", "Answer")));
    let actual = card(input);
    assert_eq!(expected, actual);
}

#[test]
fn cannot_parse_card_with_empty_question() {
    let input = "\n/-\nAnswer\n/==";
    let expected = Err(ParseError::CardQuestionIsEmpty);
    let actual = card(input);
    assert_eq!(expected, actual);
}

#[test]
fn cannot_parse_card_with_empty_answer() {
    let input = "Question/-\n\n/==";
    let expected = Err(ParseError::CardAnswerIsEmpty);
    let actual = card(input);
    assert_eq!(expected, actual);
}
