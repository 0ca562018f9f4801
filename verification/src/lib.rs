//! Statistics over an exported chat history.
//!
//! A [`ChatData`] document holds conversations, each an ordered list of
//! [`Message`]s. [`analyze_messages`] keeps the messages that a
//! [`FilterConfig`] accepts and folds them into a [`Statistics`] value:
//! totals, a tally per media type, a tally per correspondent and the span
//! of time that the accepted messages cover.
//!
//! Every function is stated against a mathematical model: a document is the
//! sequence of its messages, a tally is a map from text to counts, and the
//! result of an analysis is [`summarize`] applied to that sequence.

pub mod analysis;
pub mod filter;
pub mod laws;
pub mod message;
pub mod statistics;
pub mod sums;
pub mod tally;
pub mod text;
pub mod timestamp;

pub use analysis::{analyze_messages, is_applicable, summarize};
pub use filter::FilterConfig;
pub use message::{ChatData, Message};
pub use statistics::{Statistics, StatisticsView};
pub use timestamp::Timestamp;
