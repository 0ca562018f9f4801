//! The criteria by which messages are kept.

use crate::message::Message;
use crate::text::{
    compare_date, date_portion, has_date_delimiter, lemma_lex_less_asymmetric, lex_less, DateOrder,
};
use vstd::prelude::*;

verus! {

/// The criteria of one analysis. A message is kept if no criterion excludes
/// it; a criterion that is not set excludes nothing.
#[derive(Clone, Debug)]
pub struct FilterConfig {
    /// The correspondent to whom the analysis is meant to be restricted.
    /// See [`FilterConfig::excludes_correspondent`] for what the criterion
    /// excludes.
    pub user: Option<String>,
    /// Inclusive lower bound on the date portion of the creation stamp,
    /// compared as text.
    pub from_date: Option<String>,
    /// Inclusive upper bound on the date portion of the creation stamp,
    /// compared as text.
    pub to_date: Option<String>,
    /// Keep only saved messages.
    pub saved_only: bool,
    /// Keep only messages of exactly this media type.
    pub media_type: Option<String>,
}

impl FilterConfig {
    /// The filter without criteria: it keeps every message.
    pub fn new() -> (filter: FilterConfig)
        ensures
            filter.user is None,
            filter.from_date is None,
            filter.to_date is None,
            !filter.saved_only,
            filter.media_type is None,
    {
        FilterConfig {
            user: None,
            from_date: None,
            to_date: None,
            saved_only: false,
            media_type: None,
        }
    }

    /// Whether a bound on the date is set. Only then is the date portion
    /// of a creation stamp read.
    pub open spec fn has_date_bound(&self) -> bool {
        self.from_date is Some || self.to_date is Some
    }

    /// The correspondent criterion. It excludes a message that the owner
    /// sent to someone other than `user` and, at once, received from `user`.
    ///
    /// The two halves disagree on the direction of the message, so the
    /// criterion excludes no message at all:
    /// [`lemma_correspondent_excludes_nothing`] proves it. The rule is kept
    /// in this form on purpose. Keeping only the messages whose sender is
    /// `user` would be another rule, and a caller who wants it has to
    /// select those messages before the analysis.
    pub open spec fn excludes_correspondent(&self, msg: &Message) -> bool {
        match self.user {
            Some(user) => (!msg.is_sender && msg.sender@ != user@) && (msg.is_sender && msg.sender@
                == user@),
            None => false,
        }
    }

    /// The lower bound excludes a message whose date is lexically less
    /// than the bound.
    pub open spec fn excludes_early(&self, msg: &Message) -> bool {
        match self.from_date {
            Some(from) => lex_less(date_portion(msg.created@), from@),
            None => false,
        }
    }

    /// The upper bound excludes a message whose date is lexically greater
    /// than the bound.
    pub open spec fn excludes_late(&self, msg: &Message) -> bool {
        match self.to_date {
            Some(to) => lex_less(to@, date_portion(msg.created@)),
            None => false,
        }
    }

    /// The media-type criterion excludes a message of any other type.
    pub open spec fn excludes_media_type(&self, msg: &Message) -> bool {
        match self.media_type {
            Some(wanted) => msg.media_type@ != wanted@,
            None => false,
        }
    }

    /// The filter predicate: no criterion excludes `msg`.
    pub open spec fn passes(&self, msg: &Message) -> bool {
        &&& !self.excludes_correspondent(msg)
        &&& !self.excludes_early(msg)
        &&& !self.excludes_late(msg)
        &&& !(self.saved_only && !msg.is_saved)
        &&& !self.excludes_media_type(msg)
    }

    /// Whether the filter can be applied to `msg`. A filter with a date
    /// bound reads the date portion of the creation stamp, and a stamp has
    /// one only if it holds the space that ends it. A filter without a date
    /// bound can be applied to every message.
    pub open spec fn can_read(&self, msg: &Message) -> bool {
        self.has_date_bound() ==> has_date_delimiter(msg.created@)
    }

    /// Whether the filter can be applied to every one of `messages`.
    pub open spec fn can_read_all(&self, messages: Seq<Message>) -> bool {
        forall|i: int| 0 <= i < messages.len() ==> self.can_read(&#[trigger] messages[i])
    }

    /// Whether the filter keeps `msg`. The criteria are tried in the order
    /// correspondent, lower bound, upper bound, saved-only, media type.
    pub fn accepts(&self, msg: &Message) -> (kept: bool)
        requires
            self.can_read(msg),
        ensures
            kept == self.passes(msg),
    {
        if let Some(user) = &self.user {
            if (!msg.is_sender && msg.sender != *user) && (msg.is_sender && msg.sender == *user) {
                return false;
            }
        }
        if let Some(from) = &self.from_date {
            if compare_date(msg.created.as_str(), from.as_str()) == DateOrder::Before {
                return false;
            }
        }
        if let Some(to) = &self.to_date {
            proof {
                lemma_lex_less_asymmetric(date_portion(msg.created@), to@);
            }
            if compare_date(msg.created.as_str(), to.as_str()) == DateOrder::After {
                return false;
            }
        }
        if self.saved_only && !msg.is_saved {
            return false;
        }
        if let Some(wanted) = &self.media_type {
            if msg.media_type != *wanted {
                return false;
            }
        }
        true
    }
}

/// The correspondent criterion excludes no message, whatever `user` is.
pub proof fn lemma_correspondent_excludes_nothing(filter: FilterConfig, msg: Message)
    ensures
        !filter.excludes_correspondent(&msg),
{
}

} // verus!
