//! The analysis: one pass over the messages of a document.

use crate::filter::FilterConfig;
use crate::message::{ChatData, Message};
use crate::statistics::{earlier_of, later_of, Statistics, StatisticsView};
use crate::sums::{map_sum, one_if, pair_sum};
use crate::text::is_delimited;
use crate::timestamp::{created_instant, Timestamp};
use vstd::prelude::*;

verus! {

/// The messages that `filter` keeps.
pub open spec fn passing(filter: FilterConfig) -> spec_fn(Message) -> bool {
    |msg: Message| filter.passes(&msg)
}

/// The messages that the account owner sent.
pub open spec fn sent() -> spec_fn(Message) -> bool {
    |msg: Message| !msg.is_sender
}

/// The messages that the account owner received.
pub open spec fn received() -> spec_fn(Message) -> bool {
    |msg: Message| msg.is_sender
}

/// The saved messages.
pub open spec fn saved() -> spec_fn(Message) -> bool {
    |msg: Message| msg.is_saved
}

/// The messages of the media type `media_type`.
pub open spec fn of_media_type(media_type: Seq<char>) -> spec_fn(Message) -> bool {
    |msg: Message| msg.media_type@ == media_type
}

/// The messages under the sender `user`.
pub open spec fn under(user: Seq<char>) -> spec_fn(Message) -> bool {
    |msg: Message| msg.sender@ == user
}

/// The messages under the sender `user` that the owner sent.
pub open spec fn sent_under(user: Seq<char>) -> spec_fn(Message) -> bool {
    |msg: Message| msg.sender@ == user && !msg.is_sender
}

/// The messages under the sender `user` that the owner received.
pub open spec fn received_under(user: Seq<char>) -> spec_fn(Message) -> bool {
    |msg: Message| msg.sender@ == user && msg.is_sender
}

/// The instant of a message's creation stamp, if the stamp can be read.
pub open spec fn instant_of() -> spec_fn(Message) -> Option<Timestamp> {
    |msg: Message| created_instant(msg.created@)
}

/// How many of `messages` are among `which`.
pub open spec fn how_many(messages: Seq<Message>, which: spec_fn(Message) -> bool) -> nat {
    messages.filter(which).len()
}

/// The messages that `filter` keeps, in their order.
pub open spec fn accepted(messages: Seq<Message>, filter: FilterConfig) -> Seq<Message> {
    messages.filter(passing(filter))
}

/// For each media type that occurs in `kept`, how many messages have it.
pub open spec fn media_type_tally(kept: Seq<Message>) -> Map<Seq<char>, nat> {
    Map::new(
        |media_type: Seq<char>| how_many(kept, of_media_type(media_type)) > 0,
        |media_type: Seq<char>| how_many(kept, of_media_type(media_type)),
    )
}

/// For each sender that occurs in `kept`, how many of the messages under
/// that name the owner sent, and how many the owner received.
pub open spec fn interaction_tally(kept: Seq<Message>) -> Map<Seq<char>, (nat, nat)> {
    Map::new(
        |user: Seq<char>| how_many(kept, under(user)) > 0,
        |user: Seq<char>| (how_many(kept, sent_under(user)), how_many(kept, received_under(user))),
    )
}

/// The instants of the creation stamps of `kept` that can be read, in
/// their order.
pub open spec fn instants(kept: Seq<Message>) -> Seq<Timestamp> {
    kept.filter_map(instant_of())
}

/// The earliest of `instants`; none where there is no instant.
pub open spec fn earliest_of(instants: Seq<Timestamp>) -> Option<Timestamp>
    decreases instants.len(),
{
    if instants.len() == 0 {
        None
    } else {
        Some(earlier_of(earliest_of(instants.drop_last()), instants.last()))
    }
}

/// The latest of `instants`; none where there is no instant.
pub open spec fn latest_of(instants: Seq<Timestamp>) -> Option<Timestamp>
    decreases instants.len(),
{
    if instants.len() == 0 {
        None
    } else {
        Some(later_of(latest_of(instants.drop_last()), instants.last()))
    }
}

/// The statistics of `messages` under `filter`.
pub open spec fn summarize(messages: Seq<Message>, filter: FilterConfig) -> StatisticsView {
    let kept = accepted(messages, filter);
    StatisticsView {
        total_messages: kept.len(),
        messages_sent: how_many(kept, sent()),
        messages_received: how_many(kept, received()),
        saved_messages: how_many(kept, saved()),
        media_type_counts: media_type_tally(kept),
        user_interaction_counts: interaction_tally(kept),
        earliest_message: earliest_of(instants(kept)),
        latest_message: latest_of(instants(kept)),
    }
}

/// The statistics of no messages are the empty totals.
pub proof fn lemma_summarize_nothing(filter: FilterConfig)
    ensures
        summarize(Seq::empty(), filter) == StatisticsView::empty(),
{
}

/// One more message that the filter keeps moves the statistics on by the
/// folding step; one that it excludes leaves them as they are.
pub proof fn lemma_summarize_push(messages: Seq<Message>, msg: Message, filter: FilterConfig)
    ensures
        summarize(messages.push(msg), filter) == if filter.passes(&msg) {
            summarize(messages, filter).folded(msg)
        } else {
            summarize(messages, filter)
        },
{
    let kept = accepted(messages, filter);
    messages.lemma_filter_push(msg, passing(filter));
    if filter.passes(&msg) {
        let grown = kept.push(msg);
        kept.lemma_filter_len_push(sent(), msg);
        kept.lemma_filter_len_push(received(), msg);
        kept.lemma_filter_len_push(saved(), msg);
        assert forall|media_type: Seq<char>|
            how_many(grown, of_media_type(media_type)) == how_many(
                kept,
                of_media_type(media_type),
            ) + one_if(msg.media_type@ == media_type) by {
            kept.lemma_filter_len_push(of_media_type(media_type), msg);
        }
        assert forall|user: Seq<char>|
            {
                &&& how_many(grown, under(user)) == how_many(kept, under(user)) + one_if(
                    msg.sender@ == user,
                )
                &&& how_many(grown, sent_under(user)) == how_many(kept, sent_under(user)) + one_if(
                    msg.sender@ == user && !msg.is_sender,
                )
                &&& how_many(grown, received_under(user)) == how_many(kept, received_under(user))
                    + one_if(msg.sender@ == user && msg.is_sender)
            } by {
            kept.lemma_filter_len_push(under(user), msg);
            kept.lemma_filter_len_push(sent_under(user), msg);
            kept.lemma_filter_len_push(received_under(user), msg);
        }
        lemma_sent_and_received_under(kept, msg.sender@);
        assert(grown.drop_last() =~= kept);
        if let Some(t) = created_instant(msg.created@) {
            assert((instants(kept) + seq![t]).drop_last() =~= instants(kept));
        }
    }
}

/// The messages under one sender are those sent and those received under
/// it.
proof fn lemma_sent_and_received_under(kept: Seq<Message>, user: Seq<char>)
    ensures
        how_many(kept, under(user)) == how_many(kept, sent_under(user)) + how_many(
            kept,
            received_under(user),
        ),
    decreases kept.len(),
{
    if kept.len() > 0 {
        let rest = kept.drop_last();
        lemma_sent_and_received_under(rest, user);
        assert(rest.push(kept.last()) =~= kept);
        rest.lemma_filter_len_push(under(user), kept.last());
        rest.lemma_filter_len_push(sent_under(user), kept.last());
        rest.lemma_filter_len_push(received_under(user), kept.last());
    }
}

/// Whether `filter` can be applied to `data`: it reads no date, or every
/// creation stamp holds the space that ends its date.
pub fn is_applicable(data: &ChatData, filter: &FilterConfig) -> (applicable: bool)
    ensures
        applicable == filter.can_read_all(data.all_messages()),
{
    if filter.from_date.is_none() && filter.to_date.is_none() {
        return true;
    }
    let flat = data.messages();
    let ghost all = data.all_messages();
    let mut at: usize = 0;
    while at < flat.len()
        invariant
            at <= flat.len(),
            filter.has_date_bound(),
            all == data.all_messages(),
            flat@.len() == all.len(),
            forall|k: int| 0 <= k < flat@.len() ==> *flat@[k] == all[k],
            forall|k: int| 0 <= k < at ==> filter.can_read(&#[trigger] all[k]),
        decreases flat.len() - at,
    {
        if !is_delimited(flat[at].created.as_str()) {
            assert(!filter.can_read(&all[at as int]));
            return false;
        }
        at += 1;
    }
    true
}

/// Analyzes a document: folds every message that `filter` keeps into the
/// statistics, in one pass over all conversations.
///
/// A filter with a date bound reads the date portion of every creation
/// stamp, so every stamp has to hold the space that ends it
/// ([`is_applicable`] tells).
pub fn analyze_messages(data: &ChatData, filter: &FilterConfig) -> (stats: Statistics)
    requires
        filter.can_read_all(data.all_messages()),
    ensures
        stats.wf(),
        stats@ == summarize(data.all_messages(), *filter),
        stats@.total_messages == stats@.messages_sent + stats@.messages_received,
        stats@.total_messages == map_sum(stats@.media_type_counts),
        stats@.total_messages == pair_sum(stats@.user_interaction_counts),
{
    let flat = data.messages();
    let ghost all = data.all_messages();
    let mut stats = Statistics::new();
    let mut at: usize = 0;
    proof {
        lemma_summarize_nothing(*filter);
    }
    while at < flat.len()
        invariant
            at <= flat.len(),
            flat@.len() == all.len(),
            forall|k: int| 0 <= k < flat@.len() ==> *flat@[k] == all[k],
            filter.can_read_all(all),
            stats.wf(),
            stats@ == summarize(all.take(at as int), *filter),
        decreases flat.len() - at,
    {
        let msg = flat[at];
        proof {
            let done = all.take(at as int);
            assert(all.take(at as int + 1) =~= done.push(all[at as int]));
            lemma_summarize_push(done, all[at as int], *filter);
            done.lemma_filter_len(passing(*filter));
        }
        if filter.accepts(msg) {
            stats.record(msg);
        }
        at += 1;
    }
    proof {
        assert(all.take(at as int) =~= all);
    }
    stats
}

} // verus!
