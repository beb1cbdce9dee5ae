//! Parser for a plain-text flashcard format: a topic title followed by
//! question/answer cards, with `\n/==` ending a title or an answer and `\n/-`
//! ending a question.

pub use crate::data::{Card, Topic};
pub use crate::owned::{OwnedCard, OwnedTopic};
pub use crate::parse::{card, cards, topic, topic_title, ParseError};

pub mod data;
pub mod owned;
pub mod parse;
pub mod text;
