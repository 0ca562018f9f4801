//! What holds of every analysis, whatever the messages and the filter.

use crate::analysis::{
    accepted, earliest_of, how_many, instant_of, instants, latest_of, lemma_summarize_nothing,
    lemma_summarize_push, of_media_type, passing, received, received_under, saved, sent, sent_under,
    summarize, under,
};
use crate::filter::FilterConfig;
use crate::message::{
    conversation_map, distinct_ids, holds_at, lemma_conversation_map_at, message_lists, ChatData,
    Message,
};
use crate::statistics::lemma_folded_consistent;
use crate::sums::{lemma_pair_sum_empty, map_sum, pair_sum};
use crate::timestamp::Timestamp;
use vstd::prelude::*;
use vstd::seq_lib::{
    lemma_flatten_concat, lemma_multiset_commutative, to_multiset_contains, to_multiset_len,
    to_multiset_remove,
};

verus! {

/// The statistics of any messages under any filter are consistent: the
/// total is the sum of sent and received, the sum over the media types, and
/// the sum over the senders of sent and received.
pub proof fn lemma_summary_consistent(messages: Seq<Message>, filter: FilterConfig)
    ensures
        summarize(messages, filter).consistent(),
    decreases messages.len(),
{
    if messages.len() == 0 {
        assert(messages =~= Seq::empty());
        lemma_summarize_nothing(filter);
        lemma_pair_sum_empty::<Seq<char>>();
    } else {
        let rest = messages.drop_last();
        assert(rest.push(messages.last()) =~= messages);
        lemma_summary_consistent(rest, filter);
        lemma_summarize_push(rest, messages.last(), filter);
        lemma_folded_consistent(summarize(rest, filter), messages.last());
    }
}

/// Every counted message is either sent or received: the total is the sum
/// of the two counters.
pub proof fn lemma_total_is_sent_plus_received(messages: Seq<Message>, filter: FilterConfig)
    ensures
        summarize(messages, filter).total_messages == summarize(messages, filter).messages_sent
            + summarize(messages, filter).messages_received,
{
    lemma_summary_consistent(messages, filter);
}

/// Every counted message has one media type: the total is the sum of the
/// counts of all media types.
pub proof fn lemma_total_is_sum_over_media_types(messages: Seq<Message>, filter: FilterConfig)
    ensures
        summarize(messages, filter).media_type_counts.dom().finite(),
        summarize(messages, filter).total_messages == map_sum(
            summarize(messages, filter).media_type_counts,
        ),
{
    lemma_summary_consistent(messages, filter);
}

/// Every counted message stands under one sender: the total is the sum,
/// over all senders, of the sent and the received count.
pub proof fn lemma_total_is_sum_over_users(messages: Seq<Message>, filter: FilterConfig)
    ensures
        summarize(messages, filter).user_interaction_counts.dom().finite(),
        summarize(messages, filter).total_messages == pair_sum(
            summarize(messages, filter).user_interaction_counts,
        ),
{
    lemma_summary_consistent(messages, filter);
}

/// `filter` with the saved-only criterion switched on.
pub open spec fn saved_only(filter: FilterConfig) -> FilterConfig {
    FilterConfig { saved_only: true, ..filter }
}

/// Where every one of `messages` is among `which`, all of them are counted.
proof fn lemma_how_many_all(messages: Seq<Message>, which: spec_fn(Message) -> bool)
    requires
        forall|i: int| 0 <= i < messages.len() ==> which(messages[i]),
    ensures
        how_many(messages, which) == messages.len(),
    decreases messages.len(),
{
    if messages.len() > 0 {
        let rest = messages.drop_last();
        assert(rest.push(messages.last()) =~= messages);
        lemma_how_many_all(rest, which);
        rest.lemma_filter_len_push(which, messages.last());
    }
}

/// Where some of `messages` are counted among `which`, one of them is
/// among `which`.
proof fn lemma_how_many_positive(messages: Seq<Message>, which: spec_fn(Message) -> bool)
    requires
        how_many(messages, which) > 0,
    ensures
        exists|i: int| 0 <= i < messages.len() && which(messages[i]),
    decreases messages.len(),
{
    if messages.len() > 0 {
        let rest = messages.drop_last();
        assert(rest.push(messages.last()) =~= messages);
        rest.lemma_filter_len_push(which, messages.last());
        if !which(messages.last()) {
            lemma_how_many_positive(rest, which);
            let i = choose|i: int| 0 <= i < rest.len() && which(rest[i]);
            assert(which(messages[i]));
        }
    }
}

/// A filter that excludes whatever another one excludes keeps no more
/// messages than that one.
proof fn lemma_stricter_keeps_fewer(messages: Seq<Message>, strict: FilterConfig, lax: FilterConfig)
    requires
        forall|msg: Message| strict.passes(&msg) ==> lax.passes(&msg),
    ensures
        accepted(messages, strict).len() <= accepted(messages, lax).len(),
    decreases messages.len(),
{
    if messages.len() > 0 {
        let rest = messages.drop_last();
        assert(rest.push(messages.last()) =~= messages);
        lemma_stricter_keeps_fewer(rest, strict, lax);
        rest.lemma_filter_len_push(passing(strict), messages.last());
        rest.lemma_filter_len_push(passing(lax), messages.last());
    }
}

/// Switching on the saved-only criterion never raises the total, and then
/// every counted message is a saved one.
pub proof fn lemma_saved_only_restricts(messages: Seq<Message>, filter: FilterConfig)
    ensures
        summarize(messages, saved_only(filter)).total_messages <= summarize(
            messages,
            filter,
        ).total_messages,
        forall|i: int|
            0 <= i < accepted(messages, saved_only(filter)).len() ==> (#[trigger] accepted(
                messages,
                saved_only(filter),
            )[i]).is_saved,
        summarize(messages, saved_only(filter)).saved_messages == summarize(
            messages,
            saved_only(filter),
        ).total_messages,
{
    let strict = saved_only(filter);
    let kept = accepted(messages, strict);
    lemma_stricter_keeps_fewer(messages, strict, filter);
    assert forall|i: int| 0 <= i < kept.len() implies (#[trigger] kept[i]).is_saved by {
        messages.lemma_filter_pred(passing(strict), i);
    }
    lemma_how_many_all(kept, saved());
}

/// Under a media-type criterion no other media type is counted: the tally
/// of media types is empty or holds that one type alone.
pub proof fn lemma_media_type_filter_single_key(messages: Seq<Message>, filter: FilterConfig)
    requires
        filter.media_type is Some,
    ensures
        forall|media_type: Seq<char>|
            summarize(messages, filter).media_type_counts.contains_key(media_type)
                ==> media_type == filter.media_type->0@,
{
    let kept = accepted(messages, filter);
    assert forall|media_type: Seq<char>|
        summarize(messages, filter).media_type_counts.contains_key(
            media_type,
        ) implies media_type == filter.media_type->0@ by {
        lemma_how_many_positive(kept, of_media_type(media_type));
        let at = choose|at: int| 0 <= at < kept.len() && of_media_type(media_type)(kept[at]);
        messages.lemma_filter_pred(passing(filter), at);
    }
}

/// Where the filter keeps no message, the time range is empty and spans
/// no days.
pub proof fn lemma_nothing_accepted(messages: Seq<Message>, filter: FilterConfig)
    requires
        accepted(messages, filter).len() == 0,
    ensures
        summarize(messages, filter).total_messages == 0,
        summarize(messages, filter).earliest_message is None,
        summarize(messages, filter).latest_message is None,
        summarize(messages, filter).date_range_days() is None,
{
}

/// The earliest of some instants is one of them, and none lies before it;
/// the latest is one of them, and none lies after it.
pub proof fn lemma_extremes(instants: Seq<Timestamp>)
    ensures
        earliest_of(instants) is None <==> instants.len() == 0,
        latest_of(instants) is None <==> instants.len() == 0,
        earliest_of(instants) matches Some(e) ==> instants.contains(e) && forall|i: int|
            0 <= i < instants.len() ==> !(#[trigger] instants[i]).is_before(e),
        latest_of(instants) matches Some(l) ==> instants.contains(l) && forall|i: int|
            0 <= i < instants.len() ==> !l.is_before(#[trigger] instants[i]),
    decreases instants.len(),
{
    if instants.len() > 0 {
        let rest = instants.drop_last();
        lemma_extremes(rest);
        let e = earliest_of(instants)->0;
        let l = latest_of(instants)->0;
        assert forall|i: int| 0 <= i < instants.len() implies !(#[trigger] instants[i]).is_before(
            e,
        ) && !l.is_before(instants[i]) by {
            if i < rest.len() {
                assert(rest[i] == instants[i]);
            }
        }
        if earliest_of(rest) == Some(e) {
            let at = choose|at: int| 0 <= at < rest.len() && rest[at] == e;
            assert(instants[at] == e);
        }
        if latest_of(rest) == Some(l) {
            let at = choose|at: int| 0 <= at < rest.len() && rest[at] == l;
            assert(instants[at] == l);
        }
    }
}

/// The time range of the statistics runs from the earliest to the latest
/// instant among the creation stamps of the kept messages that can be read.
pub proof fn lemma_time_range(messages: Seq<Message>, filter: FilterConfig)
    ensures
        ({
            let read = instants(accepted(messages, filter));
            let stats = summarize(messages, filter);
            &&& stats.earliest_message is None <==> read.len() == 0
            &&& stats.latest_message is None <==> read.len() == 0
            &&& stats.earliest_message matches Some(e) ==> read.contains(e) && forall|i: int|
                0 <= i < read.len() ==> !(#[trigger] read[i]).is_before(e)
            &&& stats.latest_message matches Some(l) ==> read.contains(l) && forall|i: int|
                0 <= i < read.len() ==> !l.is_before(#[trigger] read[i])
        }),
{
    lemma_extremes(instants(accepted(messages, filter)));
}

/// The messages that are among `first` and among `second`.
pub open spec fn both(first: spec_fn(Message) -> bool, second: spec_fn(Message) -> bool) -> spec_fn(
    Message,
) -> bool {
    |msg: Message| first(msg) && second(msg)
}

/// Selecting among the selected is selecting by both.
proof fn lemma_filter_twice(
    messages: Seq<Message>,
    first: spec_fn(Message) -> bool,
    second: spec_fn(Message) -> bool,
)
    ensures
        messages.filter(first).filter(second) == messages.filter(both(first, second)),
    decreases messages.len(),
{
    if messages.len() > 0 {
        let rest = messages.drop_last();
        assert(rest.push(messages.last()) =~= messages);
        lemma_filter_twice(rest, first, second);
        rest.lemma_filter_push(messages.last(), first);
        rest.lemma_filter_push(messages.last(), both(first, second));
        rest.filter(first).lemma_filter_push(messages.last(), second);
    }
}

/// Taking one message out lowers a count by one if the message was
/// counted, and else leaves it.
proof fn lemma_how_many_remove(messages: Seq<Message>, at: int, which: spec_fn(Message) -> bool)
    requires
        0 <= at < messages.len(),
    ensures
        how_many(messages, which) == how_many(messages.remove(at), which) + (if which(
            messages[at],
        ) {
            1nat
        } else {
            0nat
        }),
{
    let front = messages.take(at);
    let back = messages.skip(at + 1);
    assert(messages =~= front.push(messages[at]) + back);
    Seq::filter_distributes_over_add(front.push(messages[at]), back, which);
    Seq::filter_distributes_over_add(front, back, which);
    front.lemma_filter_len_push(which, messages[at]);
}

/// A count does not depend on the order of the messages.
proof fn lemma_how_many_rearranged(
    first: Seq<Message>,
    second: Seq<Message>,
    which: spec_fn(Message) -> bool,
)
    requires
        first.to_multiset() == second.to_multiset(),
    ensures
        how_many(first, which) == how_many(second, which),
    decreases first.len(),
{
    to_multiset_len(first);
    to_multiset_len(second);
    if first.len() > 0 {
        let last = first.last();
        let rest = first.drop_last();
        to_multiset_contains(first, last);
        to_multiset_contains(second, last);
        let at = choose|at: int| 0 <= at < second.len() && second[at] == last;
        to_multiset_remove(first, first.len() - 1);
        to_multiset_remove(second, at);
        lemma_how_many_rearranged(rest, second.remove(at), which);
        lemma_how_many_remove(first, first.len() - 1, which);
        lemma_how_many_remove(second, at, which);
    }
}

/// An instant is among those read from `kept` exactly if it is the instant
/// of one of the messages.
proof fn lemma_instants_members(kept: Seq<Message>, instant: Timestamp)
    ensures
        instants(kept).contains(instant) <==> exists|i: int|
            0 <= i < kept.len() && instant_of()(#[trigger] kept[i]) == Some(instant),
    decreases kept.len(),
{
    if kept.len() > 0 {
        let rest = kept.drop_last();
        lemma_instants_members(rest, instant);
        let read = instants(rest);
        if instants(kept).contains(instant) {
            let j = choose|j: int| 0 <= j < instants(kept).len() && instants(kept)[j] == instant;
            if j < read.len() {
                let i = choose|i: int|
                    0 <= i < rest.len() && instant_of()(#[trigger] rest[i]) == Some(instant);
                assert(instant_of()(kept[i]) == Some(instant));
            } else {
                assert(instant_of()(kept[kept.len() - 1]) == Some(instant));
            }
        }
        if exists|i: int| 0 <= i < kept.len() && instant_of()(#[trigger] kept[i]) == Some(instant) {
            let i = choose|i: int|
                0 <= i < kept.len() && instant_of()(#[trigger] kept[i]) == Some(instant);
            if i < rest.len() {
                assert(instant_of()(rest[i]) == Some(instant));
                let j = choose|j: int| 0 <= j < read.len() && read[j] == instant;
                assert(instants(kept)[j] == instant);
            } else {
                assert(instants(kept)[instants(kept).len() - 1] == instant);
            }
        }
    }
}

/// The instants read from the messages that a filter keeps are the same,
/// in whatever order the messages come.
proof fn lemma_instants_rearranged(
    first: Seq<Message>,
    second: Seq<Message>,
    filter: FilterConfig,
    instant: Timestamp,
)
    requires
        first.to_multiset() == second.to_multiset(),
        instants(accepted(first, filter)).contains(instant),
    ensures
        instants(accepted(second, filter)).contains(instant),
{
    let kept = accepted(first, filter);
    lemma_instants_members(kept, instant);
    let i = choose|i: int| 0 <= i < kept.len() && instant_of()(#[trigger] kept[i]) == Some(instant);
    let msg = kept[i];
    first.lemma_filter_pred(passing(filter), i);
    first.lemma_filter_contains_rev(passing(filter), msg);
    to_multiset_contains(first, msg);
    to_multiset_contains(second, msg);
    let j = choose|j: int| 0 <= j < second.len() && second[j] == msg;
    second.lemma_filter_contains(passing(filter), j);
    let other = accepted(second, filter);
    let k = choose|k: int| 0 <= k < other.len() && other[k] == msg;
    assert(instant_of()(other[k]) == Some(instant));
    lemma_instants_members(other, instant);
}

/// The statistics do not depend on the order of the messages: two lists
/// that hold the same messages, each as often as the other, have the same
/// statistics under every filter. So it does not matter in which order the
/// conversations of a document stand, nor the messages within them.
pub proof fn lemma_order_is_irrelevant(
    first: Seq<Message>,
    second: Seq<Message>,
    filter: FilterConfig,
)
    requires
        first.to_multiset() == second.to_multiset(),
    ensures
        summarize(first, filter) == summarize(second, filter),
{
    let a = accepted(first, filter);
    let b = accepted(second, filter);
    let pass = passing(filter);
    assert forall|which: spec_fn(Message) -> bool| how_many(a, which) == how_many(b, which) by {
        lemma_filter_twice(first, pass, which);
        lemma_filter_twice(second, pass, which);
        lemma_how_many_rearranged(first, second, both(pass, which));
    }
    assert(a.len() == b.len()) by {
        lemma_how_many_rearranged(first, second, pass);
    }
    assert forall|media_type: Seq<char>|
        how_many(a, of_media_type(media_type)) == how_many(b, of_media_type(media_type)) by {}
    assert forall|user: Seq<char>|
        how_many(a, under(user)) == how_many(b, under(user)) && how_many(a, sent_under(user))
            == how_many(b, sent_under(user)) && how_many(a, received_under(user)) == how_many(
            b,
            received_under(user),
        ) by {}
    let read_a = instants(a);
    let read_b = instants(b);
    lemma_extremes(read_a);
    lemma_extremes(read_b);
    assert forall|instant: Timestamp| read_a.contains(instant) == read_b.contains(instant) by {
        if read_a.contains(instant) {
            lemma_instants_rearranged(first, second, filter, instant);
        }
        if read_b.contains(instant) {
            lemma_instants_rearranged(second, first, filter, instant);
        }
    }
}

/// Taking one conversation out of a list takes its messages out of the
/// flattened list.
proof fn lemma_flatten_remove(conversations: Seq<(Seq<char>, Seq<Message>)>, at: int)
    requires
        0 <= at < conversations.len(),
    ensures
        message_lists(conversations).flatten().to_multiset() == message_lists(
            conversations.remove(at),
        ).flatten().to_multiset().add(conversations[at].1.to_multiset()),
{
    let lists = message_lists(conversations);
    let front = lists.take(at);
    let back = lists.skip(at + 1);
    assert(lists =~= front.push(lists[at]) + back);
    assert(message_lists(conversations.remove(at)) =~= front + back);
    lemma_flatten_concat(front.push(lists[at]), back);
    lemma_flatten_concat(front, back);
    front.lemma_flatten_push(lists[at]);
    lemma_multiset_commutative(front.push(lists[at]).flatten(), back.flatten());
    lemma_multiset_commutative(front.flatten(), lists[at]);
    lemma_multiset_commutative(front.flatten(), back.flatten());
}

/// Two lists of conversations that stand for the same mapping hold the
/// same messages, each as often as the other.
proof fn lemma_same_map_same_messages(
    first: Seq<(Seq<char>, Seq<Message>)>,
    second: Seq<(Seq<char>, Seq<Message>)>,
)
    requires
        distinct_ids(first),
        distinct_ids(second),
        conversation_map(first) == conversation_map(second),
    ensures
        message_lists(first).flatten().to_multiset() == message_lists(
            second,
        ).flatten().to_multiset(),
    decreases first.len(),
{
    if first.len() == 0 {
        if second.len() > 0 {
            lemma_conversation_map_at(second, 0);
            assert(conversation_map(first).contains_key(second[0].0));
        }
    } else {
        let end = first.len() - 1;
        let id = first[end].0;
        lemma_conversation_map_at(first, end);
        let at = choose|at: int| holds_at(second, id, at);
        lemma_conversation_map_at(second, at);
        let rest = first.remove(end);
        let others = second.remove(at);
        assert(distinct_ids(rest)) by {
            assert forall|i: int, j: int| 0 <= i < j < rest.len() implies (#[trigger] rest[i]).0
                != (#[trigger] rest[j]).0 by {
                assert(first[i].0 != first[j].0);
            }
        }
        assert(distinct_ids(others)) by {
            assert forall|i: int, j: int| 0 <= i < j < others.len() implies (#[trigger] others[i]).0
                != (#[trigger] others[j]).0 by {
                let k = if i < at { i } else { i + 1 };
                let l = if j < at { j } else { j + 1 };
                assert(second[k].0 != second[l].0);
            }
        }
        let left = conversation_map(rest);
        let right = conversation_map(others);
        assert forall|key: Seq<char>| #[trigger]
            left.dom().contains(key) implies right.dom().contains(key) && left[key]
            == right[key] by {
            let i = choose|i: int| holds_at(rest, key, i);
            lemma_conversation_map_at(rest, i);
            lemma_conversation_map_at(first, i);
            let j = choose|j: int| holds_at(second, key, j);
            lemma_conversation_map_at(second, j);
            let k = if j < at { j } else { j - 1 };
            assert(holds_at(others, key, k));
            lemma_conversation_map_at(others, k);
        }
        assert forall|key: Seq<char>| #[trigger]
            right.dom().contains(key) implies left.dom().contains(key) by {
            let k = choose|k: int| holds_at(others, key, k);
            let j = if k < at { k } else { k + 1 };
            assert(holds_at(second, key, j) && j != at);
            lemma_conversation_map_at(second, j);
            let i = choose|i: int| holds_at(first, key, i);
            assert(holds_at(rest, key, i));
        }
        assert(left =~= right);
        lemma_same_map_same_messages(rest, others);
        lemma_flatten_remove(first, end);
        lemma_flatten_remove(second, at);
    }
}

/// The order in which conversations were put into a document is
/// irrelevant: two documents that map the same identifiers to the same
/// messages have the same statistics under every filter.
pub proof fn lemma_insertion_order_is_irrelevant(
    first: ChatData,
    second: ChatData,
    filter: FilterConfig,
)
    requires
        first.wf(),
        second.wf(),
        first.as_map() == second.as_map(),
    ensures
        summarize(first.all_messages(), filter) == summarize(second.all_messages(), filter),
{
    lemma_same_map_same_messages(first@, second@);
    lemma_order_is_irrelevant(first.all_messages(), second.all_messages(), filter);
}

} // verus!
