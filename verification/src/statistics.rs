//! The running totals of an analysis.

use crate::message::Message;
use crate::sums::{
    lemma_map_sum_bounds, lemma_map_sum_insert, lemma_pair_sum_bounds, lemma_pair_sum_empty,
    lemma_pair_sum_insert, map_sum, one_if, pair_sum,
};
use crate::tally::{enumerates, Tally};
use crate::timestamp::{created_instant, days_between, elapsed_days, Timestamp};
use vstd::prelude::*;

verus! {

/// What a [`Statistics`] value holds, as mathematics.
#[verifier::ext_equal]
pub struct StatisticsView {
    /// How many messages were folded in.
    pub total_messages: nat,
    /// How many of them the account owner sent.
    pub messages_sent: nat,
    /// How many of them the account owner received.
    pub messages_received: nat,
    /// How many of them were saved.
    pub saved_messages: nat,
    /// For each media type that occurred, how many messages had it.
    pub media_type_counts: Map<Seq<char>, nat>,
    /// For each sender that occurred, how many messages under that name
    /// were sent and how many received.
    pub user_interaction_counts: Map<Seq<char>, (nat, nat)>,
    /// The earliest instant among the creation stamps that could be read.
    pub earliest_message: Option<Timestamp>,
    /// The latest instant among the creation stamps that could be read.
    pub latest_message: Option<Timestamp>,
}

/// The earlier of `instant` and the instant held so far.
pub open spec fn earlier_of(held: Option<Timestamp>, instant: Timestamp) -> Timestamp {
    match held {
        Some(e) => if instant.is_before(e) {
            instant
        } else {
            e
        },
        None => instant,
    }
}

/// The later of `instant` and the instant held so far.
pub open spec fn later_of(held: Option<Timestamp>, instant: Timestamp) -> Timestamp {
    match held {
        Some(l) => if l.is_before(instant) {
            instant
        } else {
            l
        },
        None => instant,
    }
}

/// A count of whole days, if it is positive.
pub open spec fn positive(days: Option<i64>) -> Option<i64> {
    match days {
        Some(d) => if d > 0 {
            Some(d)
        } else {
            None
        },
        None => None,
    }
}

/// Keeps a count of whole days only if it is positive.
pub fn positive_days(days: Option<i64>) -> (kept: Option<i64>)
    ensures
        kept == positive(days),
{
    match days {
        Some(d) => if d > 0 {
            Some(d)
        } else {
            None
        },
        None => None,
    }
}

impl StatisticsView {
    /// Nothing folded in yet.
    pub open spec fn empty() -> StatisticsView {
        StatisticsView {
            total_messages: 0,
            messages_sent: 0,
            messages_received: 0,
            saved_messages: 0,
            media_type_counts: Map::empty(),
            user_interaction_counts: Map::empty(),
            earliest_message: None,
            latest_message: None,
        }
    }

    /// The count under `media_type`; zero for a type that did not occur.
    pub open spec fn count_of(self, media_type: Seq<char>) -> nat {
        if self.media_type_counts.contains_key(media_type) {
            self.media_type_counts[media_type]
        } else {
            0
        }
    }

    /// The sent and received counts under `user`; zeros for a sender that
    /// did not occur.
    pub open spec fn interaction_of(self, user: Seq<char>) -> (nat, nat) {
        if self.user_interaction_counts.contains_key(user) {
            self.user_interaction_counts[user]
        } else {
            (0, 0)
        }
    }

    /// The counters after one more message. A message with `is_sender`
    /// set counts as received, any other as sent.
    pub open spec fn counted(self, msg: Message) -> StatisticsView {
        let had = self.interaction_of(msg.sender@);
        StatisticsView {
            total_messages: self.total_messages + 1,
            messages_sent: self.messages_sent + one_if(!msg.is_sender),
            messages_received: self.messages_received + one_if(msg.is_sender),
            saved_messages: self.saved_messages + one_if(msg.is_saved),
            media_type_counts: self.media_type_counts.insert(
                msg.media_type@,
                self.count_of(msg.media_type@) + 1,
            ),
            user_interaction_counts: self.user_interaction_counts.insert(
                msg.sender@,
                (had.0 + one_if(!msg.is_sender), had.1 + one_if(msg.is_sender)),
            ),
            ..self
        }
    }

    /// The time range after one more creation stamp. A stamp that could
    /// not be read leaves the range as it is; the first instant sets both
    /// ends; a later one moves an end only if it lies strictly beyond it.
    pub open spec fn with_instant(self, instant: Option<Timestamp>) -> StatisticsView {
        match instant {
            Some(t) => StatisticsView {
                earliest_message: Some(earlier_of(self.earliest_message, t)),
                latest_message: Some(later_of(self.latest_message, t)),
                ..self
            },
            None => self,
        }
    }

    /// The folding step: the counters move on by `msg`, then the time
    /// range takes in its creation stamp.
    pub open spec fn folded(self, msg: Message) -> StatisticsView {
        self.counted(msg).with_instant(created_instant(msg.created@))
    }

    /// The whole days from the earliest to the latest instant, where both
    /// are there and at least one whole day lies between them.
    pub open spec fn date_range_days(self) -> Option<i64> {
        match (self.earliest_message, self.latest_message) {
            (Some(e), Some(l)) => positive(elapsed_days(e.secs, e.nanos, l.secs, l.nanos)),
            _ => None,
        }
    }

    /// What holds of the totals however many messages were folded in:
    /// every message is either sent or received, has one media type and
    /// one sender, and the time range is empty or runs forward.
    pub open spec fn consistent(self) -> bool {
        &&& self.total_messages == self.messages_sent + self.messages_received
        &&& self.saved_messages <= self.total_messages
        &&& self.media_type_counts.dom().finite()
        &&& map_sum(self.media_type_counts) == self.total_messages
        &&& self.user_interaction_counts.dom().finite()
        &&& pair_sum(self.user_interaction_counts) == self.total_messages
        &&& self.earliest_message is Some <==> self.latest_message is Some
        &&& match (self.earliest_message, self.latest_message) {
            (Some(e), Some(l)) => !l.is_before(e),
            _ => true,
        }
    }
}

/// Counting one more message keeps the totals consistent.
pub proof fn lemma_counted_consistent(stats: StatisticsView, msg: Message)
    requires
        stats.consistent(),
    ensures
        stats.counted(msg).consistent(),
{
    let had = stats.interaction_of(msg.sender@);
    lemma_map_sum_insert(
        stats.media_type_counts,
        msg.media_type@,
        stats.count_of(msg.media_type@) + 1,
    );
    lemma_pair_sum_insert(
        stats.user_interaction_counts,
        msg.sender@,
        (had.0 + one_if(!msg.is_sender), had.1 + one_if(msg.is_sender)),
    );
}

/// Taking in an instant, or none, keeps the totals consistent.
pub proof fn lemma_with_instant_consistent(stats: StatisticsView, instant: Option<Timestamp>)
    requires
        stats.consistent(),
    ensures
        stats.with_instant(instant).consistent(),
{
}

/// The time range only ever grows: taking in an instant moves neither
/// end inwards.
pub proof fn lemma_time_range_grows(stats: StatisticsView, instant: Option<Timestamp>)
    ensures
        stats.earliest_message matches Some(e) ==> stats.with_instant(instant).earliest_message
            matches Some(moved) && !e.is_before(moved),
        stats.latest_message matches Some(l) ==> stats.with_instant(instant).latest_message
            matches Some(moved) && !moved.is_before(l),
{
}

/// The folding step keeps the totals consistent.
pub proof fn lemma_folded_consistent(stats: StatisticsView, msg: Message)
    requires
        stats.consistent(),
    ensures
        stats.folded(msg).consistent(),
{
    lemma_counted_consistent(stats, msg);
    lemma_with_instant_consistent(stats.counted(msg), created_instant(msg.created@));
}

/// Reads a machine count as a number.
pub open spec fn count_view() -> spec_fn(usize) -> nat {
    |count: usize| count as nat
}

/// Reads a pair of machine counts as a pair of numbers.
pub open spec fn pair_view() -> spec_fn((usize, usize)) -> (nat, nat) {
    |pair: (usize, usize)| (pair.0 as nat, pair.1 as nat)
}

/// The accumulator of one analysis.
///
/// It starts empty ([`Statistics::new`]) and takes in one accepted message
/// at a time ([`Statistics::record`]).
pub struct Statistics {
    total_messages: usize,
    messages_sent: usize,
    messages_received: usize,
    saved_messages: usize,
    media_type_counts: Tally<usize>,
    users_interaction_counts: Tally<(usize, usize)>,
    earliest_message: Option<Timestamp>,
    latest_message: Option<Timestamp>,
}

impl View for Statistics {
    type V = StatisticsView;

    closed spec fn view(&self) -> StatisticsView {
        StatisticsView {
            total_messages: self.total_messages as nat,
            messages_sent: self.messages_sent as nat,
            messages_received: self.messages_received as nat,
            saved_messages: self.saved_messages as nat,
            media_type_counts: self.media_type_counts@.map_values(count_view()),
            user_interaction_counts: self.users_interaction_counts@.map_values(pair_view()),
            earliest_message: self.earliest_message,
            latest_message: self.latest_message,
        }
    }
}

impl Statistics {
    /// Both tallies list their keys.
    pub closed spec fn tallies_wf(&self) -> bool {
        self.media_type_counts.wf() && self.users_interaction_counts.wf()
    }

    /// Both tallies list their keys, and the totals are consistent. Every
    /// value that this module hands out is of this kind.
    pub open spec fn wf(&self) -> bool {
        &&& self.tallies_wf()
        &&& self@.consistent()
    }

    /// The empty accumulator.
    pub fn new() -> (stats: Statistics)
        ensures
            stats.wf(),
            stats@ == StatisticsView::empty(),
    {
        let stats = Statistics {
            total_messages: 0,
            messages_sent: 0,
            messages_received: 0,
            saved_messages: 0,
            media_type_counts: Tally::new(),
            users_interaction_counts: Tally::new(),
            earliest_message: None,
            latest_message: None,
        };
        proof {
            lemma_pair_sum_empty::<Seq<char>>();
        }
        stats
    }

    /// Takes one instant into the time range: the first sets both ends, a
    /// later one moves an end only if it lies strictly beyond it.
    pub fn extend_time_range(&mut self, instant: Timestamp)
        requires
            old(self).wf(),
        ensures
            final(self).wf(),
            final(self)@ == old(self)@.with_instant(Some(instant)),
    {
        let earliest = match self.earliest_message {
            Some(e) => if instant.before(&e) {
                instant
            } else {
                e
            },
            None => instant,
        };
        let latest = match self.latest_message {
            Some(l) => if l.before(&instant) {
                instant
            } else {
                l
            },
            None => instant,
        };
        self.earliest_message = Some(earliest);
        self.latest_message = Some(latest);
    }

    /// Takes the creation stamp `created` into the time range. A stamp
    /// that does not have the format of one leaves the range as it is.
    pub fn update_time_range(&mut self, created: &str)
        requires
            old(self).wf(),
        ensures
            final(self).wf(),
            final(self)@ == old(self)@.with_instant(created_instant(created@)),
    {
        if let Some(instant) = Timestamp::parse(created) {
            self.extend_time_range(instant);
        }
    }

    /// The folding step: counts `msg` in every total and tally, then
    /// takes its creation stamp into the time range.
    pub fn record(&mut self, msg: &Message)
        requires
            old(self).wf(),
            old(self)@.total_messages < usize::MAX,
        ensures
            final(self).wf(),
            final(self)@ == old(self)@.folded(*msg),
    {
        proof {
            self.media_type_counts.lemma_finite();
            self.users_interaction_counts.lemma_finite();
        }
        let seen = match self.media_type_counts.get(msg.media_type.as_str()) {
            Some(count) => *count,
            None => 0,
        };
        let (sent, received) = match self.users_interaction_counts.get(msg.sender.as_str()) {
            Some(pair) => *pair,
            None => (0, 0),
        };
        proof {
            // No count exceeds the total, so the increments below stay in range.
            if self@.media_type_counts.contains_key(msg.media_type@) {
                lemma_map_sum_bounds(self@.media_type_counts, msg.media_type@);
            }
            if self@.user_interaction_counts.contains_key(msg.sender@) {
                lemma_pair_sum_bounds(self@.user_interaction_counts, msg.sender@);
            }
        }
        self.total_messages += 1;
        if msg.is_sender {
            self.messages_received += 1;
            self.users_interaction_counts.set(&msg.sender, (sent, received + 1));
        } else {
            self.messages_sent += 1;
            self.users_interaction_counts.set(&msg.sender, (sent + 1, received));
        }
        if msg.is_saved {
            self.saved_messages += 1;
        }
        self.media_type_counts.set(&msg.media_type, seen + 1);
        proof {
            assert(self@ =~= old(self)@.counted(*msg));
            lemma_counted_consistent(old(self)@, *msg);
        }
        self.update_time_range(msg.created.as_str());
    }

    /// How many messages were folded in.
    pub fn total_messages(&self) -> (count: usize)
        ensures
            count == self@.total_messages,
    {
        self.total_messages
    }

    /// How many of the messages the account owner sent.
    pub fn messages_sent(&self) -> (count: usize)
        ensures
            count == self@.messages_sent,
    {
        self.messages_sent
    }

    /// How many of the messages the account owner received.
    pub fn messages_received(&self) -> (count: usize)
        ensures
            count == self@.messages_received,
    {
        self.messages_received
    }

    /// How many of the messages were saved.
    pub fn saved_messages(&self) -> (count: usize)
        ensures
            count == self@.saved_messages,
    {
        self.saved_messages
    }

    /// How many of the messages had the media type `media_type`.
    pub fn media_type_count(&self, media_type: &str) -> (count: usize)
        ensures
            count == self@.count_of(media_type@),
    {
        match self.media_type_counts.get(media_type) {
            Some(count) => *count,
            None => 0,
        }
    }

    /// How many of the messages under the sender `user` were sent, and how
    /// many received.
    pub fn user_interaction(&self, user: &str) -> (pair: (usize, usize))
        ensures
            (pair.0 as nat, pair.1 as nat) == self@.interaction_of(user@),
    {
        match self.users_interaction_counts.get(user) {
            Some(pair) => *pair,
            None => (0, 0),
        }
    }

    /// The media types that occurred, in the order in which they first did.
    pub fn media_types(&self) -> (types: &Vec<String>)
        requires
            self.wf(),
        ensures
            enumerates(types@, self@.media_type_counts.dom()),
    {
        self.media_type_counts.keys()
    }

    /// The senders that occurred, in the order in which they first did.
    pub fn users(&self) -> (users: &Vec<String>)
        requires
            self.wf(),
        ensures
            enumerates(users@, self@.user_interaction_counts.dom()),
    {
        self.users_interaction_counts.keys()
    }

    /// The earliest instant among the creation stamps that could be read.
    pub fn earliest_message(&self) -> (instant: Option<Timestamp>)
        ensures
            instant == self@.earliest_message,
    {
        self.earliest_message
    }

    /// The latest instant among the creation stamps that could be read.
    pub fn latest_message(&self) -> (instant: Option<Timestamp>)
        ensures
            instant == self@.latest_message,
    {
        self.latest_message
    }

    /// The whole days that the time range spans, where it spans at least
    /// one. A report shows the span, and the messages per day, only then.
    pub fn date_range_days(&self) -> (days: Option<i64>)
        ensures
            days == self@.date_range_days(),
            days matches Some(d) ==> d > 0 && self@.earliest_message is Some
                && self@.latest_message is Some,
            days matches Some(d) ==> (self@.earliest_message->0.on_whole_second()
                && self@.latest_message->0.on_whole_second() && self@.earliest_message->0.secs
                <= self@.latest_message->0.secs ==> d
                == self@.earliest_message->0.whole_days_until(self@.latest_message->0)),
    {
        match (self.earliest_message, self.latest_message) {
            (Some(earliest), Some(latest)) => positive_days(days_between(&earliest, &latest)),
            _ => None,
        }
    }
}

} // verus!
