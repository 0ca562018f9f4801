//! The chat document: messages grouped into conversations.

use vstd::prelude::*;

verus! {

/// One chat event.
#[derive(Clone, Debug)]
pub struct Message {
    /// The author's identifier.
    pub sender: String,
    /// Free-form category label such as `TEXT` or `MEDIA`.
    pub media_type: String,
    /// Creation stamp, `YYYY-MM-DD HH:MM:SS TZ`.
    pub created: String,
    /// The body; absent for media without text.
    pub content: Option<String>,
    /// The group's name, where the conversation is a group.
    pub conversation_title: Option<String>,
    /// Direction of the message. The flag reads against its name: `true`
    /// marks a message that the account owner received, `false` one that
    /// the owner sent.
    pub is_sender: bool,
    /// Creation time in microseconds since the epoch. Carried along; no
    /// filter or tally reads it.
    pub created_microseconds: i64,
    /// Whether a participant saved the message.
    pub is_saved: bool,
}

/// The messages of one conversation, in the order of the document.
struct Conversation {
    id: String,
    messages: Vec<Message>,
}

/// A chat document: a mapping from conversation identifier to the ordered
/// messages of that conversation.
///
/// The conversations are kept in the order in which their identifiers were
/// first inserted. The view is that list of pairs; [`ChatData::wf`] says
/// that no identifier occurs twice, so the list stands for a map
/// ([`ChatData::as_map`]).
pub struct ChatData {
    conversations: Vec<Conversation>,
}

/// The message lists of a list of conversations.
pub open spec fn message_lists(conversations: Seq<(Seq<char>, Seq<Message>)>) -> Seq<Seq<Message>> {
    conversations.map_values(|c: (Seq<char>, Seq<Message>)| c.1)
}

/// The conversation `id` stands at position `at` of `conversations`.
pub open spec fn holds_at(
    conversations: Seq<(Seq<char>, Seq<Message>)>,
    id: Seq<char>,
    at: int,
) -> bool {
    0 <= at < conversations.len() && conversations[at].0 == id
}

/// No identifier occurs twice in `conversations`.
pub open spec fn distinct_ids(conversations: Seq<(Seq<char>, Seq<Message>)>) -> bool {
    forall|i: int, j: int|
        0 <= i < j < conversations.len() ==> (#[trigger] conversations[i]).0
            != (#[trigger] conversations[j]).0
}

/// The mapping that a list of conversations stands for.
pub open spec fn conversation_map(conversations: Seq<(Seq<char>, Seq<Message>)>) -> Map<
    Seq<char>,
    Seq<Message>,
> {
    Map::new(
        |id: Seq<char>| exists|at: int| holds_at(conversations, id, at),
        |id: Seq<char>| conversations[choose|at: int| holds_at(conversations, id, at)].1,
    )
}

/// Where no identifier occurs twice, the mapping holds each conversation
/// under its identifier.
pub proof fn lemma_conversation_map_at(conversations: Seq<(Seq<char>, Seq<Message>)>, at: int)
    requires
        distinct_ids(conversations),
        0 <= at < conversations.len(),
    ensures
        conversation_map(conversations).contains_key(conversations[at].0),
        conversation_map(conversations)[conversations[at].0] == conversations[at].1,
{
    let id = conversations[at].0;
    assert(holds_at(conversations, id, at));
}

impl View for ChatData {
    type V = Seq<(Seq<char>, Seq<Message>)>;

    closed spec fn view(&self) -> Self::V {
        self.conversations@.map_values(|c: Conversation| (c.id@, c.messages@))
    }
}

impl ChatData {
    /// No conversation identifier occurs twice.
    pub open spec fn wf(&self) -> bool {
        distinct_ids(self@)
    }

    /// The document as a mapping from identifier to messages.
    pub open spec fn as_map(&self) -> Map<Seq<char>, Seq<Message>> {
        conversation_map(self@)
    }

    /// Every message of the document, conversation after conversation.
    pub open spec fn all_messages(&self) -> Seq<Message> {
        message_lists(self@).flatten()
    }

    /// A document without conversations.
    pub fn new() -> (data: ChatData)
        ensures
            data@ == Seq::<(Seq<char>, Seq<Message>)>::empty(),
            data.wf(),
    {
        ChatData { conversations: Vec::new() }
    }

    /// The number of conversations.
    pub fn len(&self) -> (count: usize)
        ensures
            count == self@.len(),
    {
        self.conversations.len()
    }

    /// The first position at which the conversation `id` stands, if the
    /// document holds it.
    pub fn position(&self, id: &String) -> (found: Option<usize>)
        ensures
            match found {
                Some(at) => holds_at(self@, id@, at as int) && forall|before: int|
                    0 <= before < at ==> !holds_at(self@, id@, before),
                None => forall|at: int| !holds_at(self@, id@, at),
            },
    {
        let mut at: usize = 0;
        while at < self.conversations.len()
            invariant
                at <= self.conversations.len(),
                forall|k: int| 0 <= k < at ==> !holds_at(self@, id@, k),
            decreases self.conversations.len() - at,
        {
            if self.conversations[at].id == *id {
                return Some(at);
            }
            at += 1;
        }
        None
    }

    /// Maps `id` to `messages`. A conversation that `id` already named is
    /// replaced where it stands; a new one is put last.
    pub fn insert(&mut self, id: String, messages: Vec<Message>)
        requires
            old(self).wf(),
        ensures
            final(self).wf(),
            final(self).as_map() == old(self).as_map().insert(id@, messages@),
            forall|at: int|
                holds_at(old(self)@, id@, at) ==> final(self)@ == old(self)@.update(
                    at,
                    (id@, messages@),
                ),
            (forall|at: int| !holds_at(old(self)@, id@, at)) ==> final(self)@ == old(self)@.push(
                (id@, messages@),
            ),
    {
        let ghost entry = (id@, messages@);
        let found = self.position(&id);
        let ghost place: int;
        match found {
            Some(at) => {
                self.conversations.set(at, Conversation { id, messages });
                proof {
                    place = at as int;
                }
            },
            None => {
                self.conversations.push(Conversation { id, messages });
                proof {
                    place = old(self)@.len() as int;
                }
            },
        }
        proof {
            assert(distinct_ids(self@)) by {
                assert forall|i: int, j: int| 0 <= i < j < self@.len() implies (
                #[trigger] self@[i]).0 != (#[trigger] self@[j]).0 by {
                    if i != place && j != place {
                        assert(old(self)@[i].0 != old(self)@[j].0);
                    } else if j == place {
                        assert(!holds_at(old(self)@, entry.0, i));
                    }
                }
            }
            let before = old(self).as_map();
            let after = self.as_map();
            assert forall|key: Seq<char>| #[trigger]
                after.contains_key(key) == before.insert(entry.0, entry.1).contains_key(key) by {
                if key == entry.0 {
                    assert(holds_at(self@, key, place));
                } else if after.contains_key(key) {
                    let k = choose|k: int| holds_at(self@, key, k);
                    assert(holds_at(old(self)@, key, k));
                } else if before.contains_key(key) {
                    let k = choose|k: int| holds_at(old(self)@, key, k);
                    assert(holds_at(self@, key, k));
                }
            }
            assert forall|key: Seq<char>| #[trigger] after.contains_key(key) implies after[key]
                == before.insert(entry.0, entry.1)[key] by {
                let k = choose|k: int| holds_at(self@, key, k);
                lemma_conversation_map_at(self@, k);
                if key != entry.0 {
                    lemma_conversation_map_at(old(self)@, k);
                } else {
                    lemma_conversation_map_at(self@, place);
                }
            }
        }
    }

    /// Every message of the document in one list, conversation after
    /// conversation.
    pub fn messages(&self) -> (flat: Vec<&Message>)
        ensures
            flat@.len() == self.all_messages().len(),
            forall|k: int| 0 <= k < flat@.len() ==> *flat@[k] == self.all_messages()[k],
    {
        let mut flat: Vec<&Message> = Vec::new();
        let ghost lists = message_lists(self@);
        let mut at: usize = 0;
        while at < self.conversations.len()
            invariant
                at <= self.conversations.len(),
                lists == message_lists(self@),
                lists.len() == self.conversations.len(),
                flat@.len() == lists.take(at as int).flatten().len(),
                forall|k: int|
                    0 <= k < flat@.len() ==> *flat@[k] == lists.take(at as int).flatten()[k],
            decreases self.conversations.len() - at,
        {
            let conversation = &self.conversations[at];
            let ghost done = lists.take(at as int).flatten();
            let mut within: usize = 0;
            while within < conversation.messages.len()
                invariant
                    within <= conversation.messages.len(),
                    flat@.len() == done.len() + within,
                    forall|k: int| 0 <= k < done.len() ==> *flat@[k] == done[k],
                    forall|k: int|
                        0 <= k < within ==> *flat@[done.len() + k] == conversation.messages@[k],
                decreases conversation.messages.len() - within,
            {
                flat.push(&conversation.messages[within]);
                within += 1;
            }
            proof {
                assert(lists.take(at as int + 1) =~= lists.take(at as int).push(lists[at as int]));
                lists.take(at as int).lemma_flatten_push(lists[at as int]);
            }
            at += 1;
        }
        assert(lists.take(at as int) =~= lists);
        flat
    }
}

} // verus!
