//! A conversation materialized from its authenticated, causally ordered events.
use vstd::prelude::*;
use vstd::string::*;
use vstd::string::StrSliceExecFns;
use vstd::utf8::encode_utf8;
use crate::digest::{blake3_digest, blake3_hash};
use crate::ids::{ConversationId, DeviceId, EventId, IdentityId, OpaqueId};
use crate::ordered::{compare_bytes, key_order, lex_lt, KeyOrder, SortKey, SortedMap};
use crate::protocol::{
    CausalFrontier, ConversationEvent, EventBody, MessageContent, MessageContentView,
    PROTOCOL_VERSION,
};

verus! {

/// The longest message text, in bytes of UTF-8.
pub const MAX_MESSAGE_BYTES: usize = 65536;

/// The most attachments one message may carry.
pub const MAX_ATTACHMENTS: usize = 64;

/// The longest reaction, in characters.
pub const MAX_REACTION_CHARS: usize = 16;

/// The longest group name, in characters.
pub const MAX_GROUP_NAME_CHARS: usize = 128;

/// A set of identities, ascending by their bytes.
pub type IdentitySet = SortedMap<IdentityId, ()>;

/// Who owns a conversation and who belongs to it.
#[derive(Debug, Clone, PartialEq, Eq)]
pub struct Membership {
    pub owner: IdentityId,
    pub members: IdentitySet,
}

/// Who reacted, and with what.
#[derive(Debug, Clone, PartialEq, Eq)]
pub struct ReactionKey {
    pub identity: IdentityId,
    pub emoji: String,
}

/// The bytes a reaction orders by: the identity, then the reaction's UTF-8.
pub open spec fn reaction_key_bytes(identity: IdentityId, emoji: Seq<char>) -> Seq<u8> {
    identity@ + encode_utf8(emoji)
}

impl ReactionKey {
    fn key_bytes(&self) -> (r: Vec<u8>)
        ensures
            r@ == self.sort_bytes(),
    {
        let mut out: Vec<u8> = Vec::new();
        let id = self.identity.as_bytes();
        let mut i: usize = 0;
        while i < 32
            invariant
                i <= 32,
                id@ == self.identity@,
                id@.len() == 32,
                out@ == id@.take(i as int),
            decreases 32 - i,
        {
            out.push(id[i]);
            assert(id@.take(i + 1) =~= id@.take(i as int).push(id@[i as int]));
            i = i + 1;
        }
        assert(id@.take(32) =~= id@);
        let emoji = self.emoji.as_str().as_bytes();
        let mut j: usize = 0;
        while j < emoji.len()
            invariant
                j <= emoji@.len(),
                out@ == self.identity@ + emoji@.take(j as int),
            decreases emoji@.len() - j,
        {
            out.push(emoji[j]);
            assert(emoji@.take(j + 1) =~= emoji@.take(j as int).push(emoji@[j as int]));
            j = j + 1;
        }
        assert(emoji@.take(j as int) =~= emoji@);
        out
    }
}

impl SortKey for ReactionKey {
    open spec fn sort_bytes(&self) -> Seq<u8> {
        reaction_key_bytes(self.identity, self.emoji@)
    }

    fn compare_key(&self, other: &Self) -> (r: KeyOrder) {
        let a = self.key_bytes();
        let b = other.key_bytes();
        compare_bytes(a.as_slice(), b.as_slice())
    }
}

/// A message as its events have left it.
#[derive(Debug, Clone, PartialEq, Eq)]
pub struct MaterializedMessage {
    pub id: EventId,
    pub author: IdentityId,
    pub content: MessageContent,
    pub deleted: bool,
    pub reactions: SortedMap<ReactionKey, bool>,
}

/// The value of a materialized message.
pub struct MessageState {
    pub id: EventId,
    pub author: IdentityId,
    pub content: MessageContentView,
    pub deleted: bool,
    pub reactions: Map<Seq<u8>, bool>,
}

impl MaterializedMessage {
    pub open spec fn state(&self) -> MessageState {
        MessageState {
            id: self.id,
            author: self.author,
            content: self.content@,
            deleted: self.deleted,
            reactions: self.reactions@,
        }
    }
}

/// The value of a conversation: its owner and members, what it has seen of
/// each device, its events and messages (keyed by event bytes) and its name.
pub struct ConversationState {
    pub id: ConversationId,
    pub owner: IdentityId,
    pub members: Set<Seq<u8>>,
    pub frontier: Map<Seq<u8>, u64>,
    pub events: Map<Seq<u8>, ConversationEvent>,
    pub messages: Map<Seq<u8>, MessageState>,
    pub name: Seq<char>,
}

/// Why an event was not applied.
#[derive(Debug)]
pub enum ApplyError {
    /// The event belongs to another conversation or protocol version.
    WrongConversation,
    /// The event does not directly follow the last one seen from its device.
    MissingPredecessor { device: DeviceId, expected: u64, actual: u64 },
    /// The author is not a member.
    NotMember(IdentityId),
    /// Only the message author can perform this action.
    NotAuthor,
    /// Only the group owner can perform this action.
    OwnerRequired,
    /// Group ownership must be transferred before removing the owner.
    OwnerMustTransfer,
    /// The ownership transfer is invalid.
    InvalidOwnershipTransfer,
    /// The message does not exist.
    UnknownMessage(EventId),
    /// The content breaks a limit; the text says which.
    InvalidContent(&'static str),
    /// The event could not be encoded.
    Codec(crate::codec::CodecError),
}

/// Whether the identity owns the conversation.
pub open spec fn owned_by(s: ConversationState, author: IdentityId) -> bool {
    s.owner@ == author@
}

/// The length in bytes of text encoded as UTF-8, as `str::len` reports it.
pub open spec fn utf8_byte_len(text: Seq<char>) -> usize {
    encode_utf8(text).len() as usize
}

/// The limit a message's content breaks, if any.
pub open spec fn content_error(c: MessageContentView) -> Option<ApplyError> {
    if utf8_byte_len(c.text) > MAX_MESSAGE_BYTES {
        Some(ApplyError::InvalidContent("message exceeds 64 KiB"))
    } else if c.attachment_ids.len() > MAX_ATTACHMENTS {
        Some(ApplyError::InvalidContent("message has too many attachments"))
    } else {
        None
    }
}

/// The sequence number the next event of a device must carry.
pub open spec fn expected_sequence(s: ConversationState, device: DeviceId) -> int {
    (if s.frontier.contains_key(device@) {
        s.frontier[device@] as int
    } else {
        0
    }) + 1
}

/// What an event's body does to the conversation, once the event is known to
/// be new, in order and from a member (or adding one).
pub open spec fn applied_body(s: ConversationState, e: ConversationEvent) -> Result<ConversationState, ApplyError> {
    match e.body {
        EventBody::MessageCreate { content } => match content_error(content@) {
            Some(err) => Err(err),
            None => Ok(
                ConversationState {
                    messages: s.messages.insert(
                        e.event_id@,
                        MessageState {
                            id: e.event_id,
                            author: e.author_identity,
                            content: content@,
                            deleted: false,
                            reactions: Map::empty(),
                        },
                    ),
                    ..s
                },
            ),
        },
        EventBody::MessageEdit { target, content } => match content_error(content@) {
            Some(err) => Err(err),
            None => if !s.messages.contains_key(target@) {
                Err(ApplyError::UnknownMessage(target))
            } else if s.messages[target@].author@ != e.author_identity@ {
                Err(ApplyError::NotAuthor)
            } else {
                Ok(
                    ConversationState {
                        messages: s.messages.insert(
                            target@,
                            MessageState { content: content@, ..s.messages[target@] },
                        ),
                        ..s
                    },
                )
            },
        },
        EventBody::MessageDelete { target } => if !s.messages.contains_key(target@) {
            Err(ApplyError::UnknownMessage(target))
        } else if s.messages[target@].author@ != e.author_identity@ {
            Err(ApplyError::NotAuthor)
        } else {
            Ok(
                ConversationState {
                    messages: s.messages.insert(
                        target@,
                        MessageState { deleted: true, ..s.messages[target@] },
                    ),
                    ..s
                },
            )
        },
        EventBody::ReactionSet { target, emoji, active } => if emoji@.len() > MAX_REACTION_CHARS {
            Err(ApplyError::InvalidContent("reaction is too long"))
        } else if !s.messages.contains_key(target@) {
            Err(ApplyError::UnknownMessage(target))
        } else {
            Ok(
                ConversationState {
                    messages: s.messages.insert(
                        target@,
                        MessageState {
                            reactions: s.messages[target@].reactions.insert(
                                reaction_key_bytes(e.author_identity, emoji@),
                                active,
                            ),
                            ..s.messages[target@]
                        },
                    ),
                    ..s
                },
            )
        },
        EventBody::GroupRename { name } => if !owned_by(s, e.author_identity) {
            Err(ApplyError::OwnerRequired)
        } else if name@.len() == 0 || name@.len() > MAX_GROUP_NAME_CHARS {
            Err(ApplyError::InvalidContent("group name must contain 1-128 characters"))
        } else {
            Ok(ConversationState { name: name@, ..s })
        },
        EventBody::MembershipAdd { identity, .. } => if !owned_by(s, e.author_identity) {
            Err(ApplyError::OwnerRequired)
        } else {
            Ok(ConversationState { members: s.members.insert(identity@), ..s })
        },
        EventBody::MembershipRemove { identity, .. } => if !owned_by(s, e.author_identity) {
            Err(ApplyError::OwnerRequired)
        } else if identity@ == s.owner@ {
            Err(ApplyError::OwnerMustTransfer)
        } else {
            Ok(ConversationState { members: s.members.remove(identity@), ..s })
        },
        EventBody::OwnershipTransfer { from, to } => if !owned_by(s, e.author_identity) {
            Err(ApplyError::OwnerRequired)
        } else if from@ != s.owner@ || !s.members.contains(to@) {
            Err(ApplyError::InvalidOwnershipTransfer)
        } else {
            Ok(ConversationState { owner: to, ..s })
        },
        _ => Ok(s),
    }
}

/// The outcome of applying an event: the new state, or why it was refused.
/// An event already applied leaves the state as it is.
pub open spec fn applied(s: ConversationState, e: ConversationEvent) -> Result<ConversationState, ApplyError> {
    if e.version != PROTOCOL_VERSION || e.conversation_id@ != s.id@ {
        Err(ApplyError::WrongConversation)
    } else if s.events.contains_key(e.event_id@) {
        Ok(s)
    } else if e.device_sequence != expected_sequence(s, e.author_device) {
        Err(
            ApplyError::MissingPredecessor {
                device: e.author_device,
                expected: expected_sequence(s, e.author_device) as u64,
                actual: e.device_sequence,
            },
        )
    } else if !s.members.contains(e.author_identity@) && !(e.body is MembershipAdd) {
        Err(ApplyError::NotMember(e.author_identity))
    } else {
        match applied_body(s, e) {
            Ok(t) => Ok(
                ConversationState {
                    frontier: t.frontier.insert(e.author_device@, e.device_sequence),
                    events: t.events.insert(e.event_id@, e),
                    ..t
                },
            ),
            Err(err) => Err(err),
        }
    }
}

/// Whether applying the event would need a sequence number past `u64::MAX`,
/// where the count would overflow.
pub open spec fn sequence_overflows(s: ConversationState, e: ConversationEvent) -> bool {
    e.version == PROTOCOL_VERSION && e.conversation_id@ == s.id@ && !s.events.contains_key(
        e.event_id@,
    ) && s.frontier.contains_key(e.author_device@) && s.frontier[e.author_device@] == u64::MAX
}

/// The values of materialized messages.
pub open spec fn message_states(m: Map<Seq<u8>, MaterializedMessage>) -> Map<Seq<u8>, MessageState> {
    Map::new(|k: Seq<u8>| m.contains_key(k), |k: Seq<u8>| m[k].state())
}

proof fn lemma_message_states_insert(m: Map<Seq<u8>, MaterializedMessage>, k: Seq<u8>, v: MaterializedMessage)
    ensures
        message_states(m.insert(k, v)) == message_states(m).insert(k, v.state()),
{
    assert(message_states(m.insert(k, v)) =~= message_states(m).insert(k, v.state()));
}

proof fn lemma_message_states_replace(m: Map<Seq<u8>, MaterializedMessage>, k: Seq<u8>, v: MaterializedMessage)
    requires
        m.contains_key(k),
    ensures
        message_states(m.remove(k).insert(k, v)) == message_states(m).insert(k, v.state()),
{
    assert(m.remove(k).insert(k, v) =~= m.insert(k, v));
    lemma_message_states_insert(m, k, v);
}

/// Checks a message's content against the size limits.
fn validate_content(content: &MessageContent) -> (r: Result<(), ApplyError>)
    ensures
        match content_error(content@) {
            Some(e) => r == Err::<(), ApplyError>(e),
            None => r is Ok,
        },
{
    if content.text.as_str().len() > MAX_MESSAGE_BYTES {
        return Err(ApplyError::InvalidContent("message exceeds 64 KiB"));
    }
    if content.attachment_ids.len() > MAX_ATTACHMENTS {
        return Err(ApplyError::InvalidContent("message has too many attachments"));
    }
    Ok(())
}

/// Checks that the author owns the conversation.
fn require_owner(membership: &Membership, author: IdentityId) -> (r: Result<(), ApplyError>)
    ensures
        r is Ok <==> membership.owner@ == author@,
        r is Err ==> r == Err::<(), ApplyError>(ApplyError::OwnerRequired),
{
    if membership.owner.same(&author) {
        Ok(())
    } else {
        Err(ApplyError::OwnerRequired)
    }
}

/// A conversation: membership, causal frontier, events and the messages
/// they materialize.
#[derive(Debug, Clone)]
pub struct Conversation {
    id: ConversationId,
    membership: Membership,
    frontier: CausalFrontier,
    events: SortedMap<EventId, ConversationEvent>,
    messages: SortedMap<EventId, MaterializedMessage>,
    name: String,
}

impl Conversation {
    /// The value of the conversation.
    pub closed spec fn view(&self) -> ConversationState {
        ConversationState {
            id: self.id,
            owner: self.membership.owner,
            members: self.membership.members@.dom(),
            frontier: self.frontier@,
            events: self.events@,
            messages: message_states(self.messages@),
            name: self.name@,
        }
    }

    /// The events with their identifiers, ascending by identifier.
    pub closed spec fn event_entries(&self) -> Seq<(EventId, ConversationEvent)> {
        self.events.entries()
    }

    /// The messages with their identifiers, ascending by identifier.
    pub closed spec fn message_entries(&self) -> Seq<(EventId, MaterializedMessage)> {
        self.messages.entries()
    }

    /// The internal maps stay sorted.
    pub closed spec fn wf(&self) -> bool {
        &&& self.membership.members.wf()
        &&& self.frontier.wf()
        &&& self.events.wf()
        &&& self.messages.wf()
        &&& forall|k: Seq<u8>| #[trigger] self.messages@.contains_key(k) ==> self.messages@[k].reactions.wf()
    }

    /// A conversation with only its owner, no events and the given name.
    pub fn new(id: ConversationId, owner: IdentityId, name: String) -> (r: Self)
        ensures
            r.wf(),
            r@.id == id,
            r@.owner == owner,
            r@.members == set![owner@],
            r@.frontier == Map::<Seq<u8>, u64>::empty(),
            r@.events == Map::<Seq<u8>, ConversationEvent>::empty(),
            r@.messages == Map::<Seq<u8>, MessageState>::empty(),
            r@.name == name@,
            r@ == fresh_conversation(id, owner, name@),
            messages_have_events(r@),
    {
        let mut members = SortedMap::new();
        members.insert(owner, ());
        let r = Conversation {
            id,
            membership: Membership { owner, members },
            frontier: SortedMap::new(),
            events: SortedMap::new(),
            messages: SortedMap::new(),
            name,
        };
        assert(r@.members =~= set![owner@]);
        assert(r@.messages =~= Map::<Seq<u8>, MessageState>::empty());
        r
    }

    pub fn id(&self) -> (r: ConversationId)
        ensures
            r == self@.id,
    {
        self.id
    }

    pub fn membership(&self) -> (r: &Membership)
        ensures
            r.owner == self@.owner,
            r.members@.dom() == self@.members,
    {
        &self.membership
    }

    pub fn name(&self) -> (r: &str)
        ensures
            r@ == self@.name,
    {
        self.name.as_str()
    }

    pub fn frontier(&self) -> (r: &CausalFrontier)
        ensures
            r@ == self@.frontier,
    {
        &self.frontier
    }

    /// The events, ascending by event identifier.
    pub fn events(&self) -> (r: &[(EventId, ConversationEvent)])
        requires
            self.wf(),
        ensures
            r@ == self.event_entries(),
            r@.len() == self@.events.dom().len(),
            forall|i: int|
                0 <= i < r@.len() ==> self@.events.contains_key(#[trigger] r@[i].0@)
                    && self@.events[r@[i].0@] == r@[i].1,
            forall|i: int, j: int| 0 <= i < j < r@.len() ==> lex_lt(#[trigger] r@[i].0@, #[trigger] r@[j].0@),
            forall|k: Seq<u8>|
                #[trigger] self@.events.contains_key(k) ==> exists|i: int|
                    0 <= i < r@.len() && #[trigger] r@[i].0@ == k,
    {
        proof {
            self.events.lemma_entries_view();
            let s = self.events.entries();
            assert forall|i: int, j: int| 0 <= i < j < s.len() implies lex_lt(s[i].0@, s[j].0@) by {
                assert(lex_lt(s[i].0.sort_bytes(), s[j].0.sort_bytes()));
            }
            assert forall|i: int| 0 <= i < s.len() implies self@.events.contains_key(s[i].0@)
                && self@.events[s[i].0@] == s[i].1 by {
                assert(self.events@.contains_key(s[i].0.sort_bytes()));
            }
            assert forall|k: Seq<u8>| #[trigger] self@.events.contains_key(k) implies exists|i: int|
                0 <= i < s.len() && #[trigger] s[i].0@ == k by {
                assert(self.events@.contains_key(k));
                let i = choose|i: int| 0 <= i < s.len() && #[trigger] s[i].0.sort_bytes() == k;
                assert(s[i].0@ == k);
            }
        }
        self.events.as_slice()
    }

    /// The messages, ascending by event identifier.
    pub fn messages(&self) -> (r: &[(EventId, MaterializedMessage)])
        requires
            self.wf(),
        ensures
            r@ == self.message_entries(),
            r@.len() == self@.messages.dom().len(),
            forall|i: int|
                0 <= i < r@.len() ==> self@.messages.contains_key(#[trigger] r@[i].0@)
                    && self@.messages[r@[i].0@] == r@[i].1.state(),
            forall|i: int, j: int| 0 <= i < j < r@.len() ==> lex_lt(#[trigger] r@[i].0@, #[trigger] r@[j].0@),
            forall|k: Seq<u8>|
                #[trigger] self@.messages.contains_key(k) ==> exists|i: int|
                    0 <= i < r@.len() && #[trigger] r@[i].0@ == k,
    {
        proof {
            self.messages.lemma_entries_view();
            assert(message_states(self.messages@).dom() =~= self.messages@.dom());
            let s = self.messages.entries();
            assert forall|i: int, j: int| 0 <= i < j < s.len() implies lex_lt(s[i].0@, s[j].0@) by {
                assert(lex_lt(s[i].0.sort_bytes(), s[j].0.sort_bytes()));
            }
            assert forall|i: int| 0 <= i < s.len() implies self@.messages.contains_key(s[i].0@)
                && self@.messages[s[i].0@] == s[i].1.state() by {
                assert(self.messages@.contains_key(s[i].0.sort_bytes()));
            }
            assert forall|k: Seq<u8>| #[trigger] self@.messages.contains_key(k) implies exists|i: int|
                0 <= i < s.len() && #[trigger] s[i].0@ == k by {
                assert(self.messages@.contains_key(k));
                let i = choose|i: int| 0 <= i < s.len() && #[trigger] s[i].0.sort_bytes() == k;
                assert(s[i].0@ == k);
            }
        }
        self.messages.as_slice()
    }

    /// Applies one event. An event already applied changes nothing; a
    /// refused event leaves the conversation as it was.
    pub fn apply(&mut self, event: ConversationEvent) -> (r: Result<(), ApplyError>)
        requires
            old(self).wf(),
            !sequence_overflows(old(self)@, event),
        ensures
            final(self).wf(),
            match applied(old(self)@, event) {
                Ok(t) => r is Ok && final(self)@ == t,
                Err(e) => r == Err::<(), ApplyError>(e) && final(self)@ == old(self)@,
            },
    {
        if event.version != PROTOCOL_VERSION || !event.conversation_id.same(&self.id) {
            return Err(ApplyError::WrongConversation);
        }
        if self.events.contains(&event.event_id) {
            return Ok(());
        }
        let known: u64 = match self.frontier.get(&event.author_device) {
            Some(v) => *v,
            None => 0,
        };
        let expected: u64 = known + 1;
        if event.device_sequence != expected {
            return Err(
                ApplyError::MissingPredecessor {
                    device: event.author_device,
                    expected,
                    actual: event.device_sequence,
                },
            );
        }
        let adds_member = match &event.body {
            EventBody::MembershipAdd { .. } => true,
            _ => false,
        };
        if !self.membership.members.contains(&event.author_identity) && !adds_member {
            return Err(ApplyError::NotMember(event.author_identity));
        }
        match self.apply_body(&event) {
            Err(e) => {
                return Err(e);
            },
            Ok(()) => {},
        }
        self.frontier.insert(event.author_device, event.device_sequence);
        let event_id = event.event_id;
        self.events.insert(event_id, event);
        Ok(())
    }

    /// Carries out what the event's body does.
    fn apply_body(&mut self, event: &ConversationEvent) -> (r: Result<(), ApplyError>)
        requires
            old(self).wf(),
        ensures
            final(self).wf(),
            final(self).frontier == old(self).frontier,
            final(self).events == old(self).events,
            final(self).id == old(self).id,
            match applied_body(old(self)@, *event) {
                Ok(t) => r is Ok && final(self)@ == t,
                Err(e) => r == Err::<(), ApplyError>(e) && final(self)@ == old(self)@,
            },
    {
        let ghost s = self@;
        match &event.body {
            EventBody::MessageCreate { content } => {
                match validate_content(content) {
                    Err(e) => {
                        return Err(e);
                    },
                    Ok(()) => {},
                }
                let message = MaterializedMessage {
                    id: event.event_id,
                    author: event.author_identity,
                    content: content.duplicate(),
                    deleted: false,
                    reactions: SortedMap::new(),
                };
                let ghost old_messages = self.messages@;
                self.messages.insert(event.event_id, message);
                proof {
                    lemma_message_states_insert(old_messages, event.event_id@, message);
                    assert(message.state().reactions =~= Map::<Seq<u8>, bool>::empty());
                    assert(message.state().content == content@);
                }
                Ok(())
            },
            EventBody::MessageEdit { target, content } => {
                match validate_content(content) {
                    Err(e) => {
                        return Err(e);
                    },
                    Ok(()) => {},
                }
                match self.messages.get(target) {
                    None => {
                        return Err(ApplyError::UnknownMessage(*target));
                    },
                    Some(m) => {
                        if !m.author.same(&event.author_identity) {
                            return Err(ApplyError::NotAuthor);
                        }
                    },
                }
                let ghost old_messages = self.messages@;
                match self.messages.remove(target) {
                    Some((k, message)) => {
                        let mut message = message;
                        message.content = content.duplicate();
                        self.messages.insert(k, message);
                        proof {
                            lemma_message_states_replace(old_messages, target@, message);
                        }
                    },
                    None => {},
                }
                Ok(())
            },
            EventBody::MessageDelete { target } => {
                match self.messages.get(target) {
                    None => {
                        return Err(ApplyError::UnknownMessage(*target));
                    },
                    Some(m) => {
                        if !m.author.same(&event.author_identity) {
                            return Err(ApplyError::NotAuthor);
                        }
                    },
                }
                let ghost old_messages = self.messages@;
                match self.messages.remove(target) {
                    Some((k, message)) => {
                        let mut message = message;
                        message.deleted = true;
                        self.messages.insert(k, message);
                        proof {
                            lemma_message_states_replace(old_messages, target@, message);
                        }
                    },
                    None => {},
                }
                Ok(())
            },
            EventBody::ReactionSet { target, emoji, active } => {
                if emoji.as_str().unicode_len() > MAX_REACTION_CHARS {
                    return Err(ApplyError::InvalidContent("reaction is too long"));
                }
                if !self.messages.contains(target) {
                    return Err(ApplyError::UnknownMessage(*target));
                }
                let ghost old_messages = self.messages@;
                match self.messages.remove(target) {
                    Some((k, message)) => {
                        let mut message = message;
                        let key = ReactionKey { identity: event.author_identity, emoji: emoji.clone() };
                        message.reactions.insert(key, *active);
                        self.messages.insert(k, message);
                        proof {
                            lemma_message_states_replace(old_messages, target@, message);
                        }
                    },
                    None => {},
                }
                Ok(())
            },
            EventBody::GroupRename { name } => {
                match require_owner(&self.membership, event.author_identity) {
                    Err(e) => {
                        return Err(e);
                    },
                    Ok(()) => {},
                }
                let chars = name.as_str().unicode_len();
                if chars == 0 || chars > MAX_GROUP_NAME_CHARS {
                    return Err(ApplyError::InvalidContent("group name must contain 1-128 characters"));
                }
                self.name = name.clone();
                Ok(())
            },
            EventBody::MembershipAdd { identity, .. } => {
                match require_owner(&self.membership, event.author_identity) {
                    Err(e) => {
                        return Err(e);
                    },
                    Ok(()) => {},
                }
                self.membership.members.insert(*identity, ());
                proof {
                    assert(self.membership.members@.dom() =~= s.members.insert(identity@));
                }
                Ok(())
            },
            EventBody::MembershipRemove { identity, .. } => {
                match require_owner(&self.membership, event.author_identity) {
                    Err(e) => {
                        return Err(e);
                    },
                    Ok(()) => {},
                }
                if identity.same(&self.membership.owner) {
                    return Err(ApplyError::OwnerMustTransfer);
                }
                self.membership.members.remove(identity);
                proof {
                    assert(self.membership.members@.dom() =~= s.members.remove(identity@));
                }
                Ok(())
            },
            EventBody::OwnershipTransfer { from, to } => {
                match require_owner(&self.membership, event.author_identity) {
                    Err(e) => {
                        return Err(e);
                    },
                    Ok(()) => {},
                }
                if !from.same(&self.membership.owner) || !self.membership.members.contains(to) {
                    return Err(ApplyError::InvalidOwnershipTransfer);
                }
                self.membership.owner = *to;
                Ok(())
            },
            _ => Ok(()),
        }
    }
}


/// The value of a builder: whose events it writes, the sequence number of
/// the next one and the frontier it carries.
pub struct BuilderState {
    pub conversation_id: ConversationId,
    pub identity_id: IdentityId,
    pub device_id: DeviceId,
    pub next_sequence: u64,
    pub frontier: Map<Seq<u8>, u64>,
}

/// Writes the events of one device of one identity, numbering them in order.
#[derive(Debug)]
pub struct ConversationBuilder {
    conversation_id: ConversationId,
    identity_id: IdentityId,
    device_id: DeviceId,
    next_sequence: u64,
    frontier: CausalFrontier,
}

/// The bytes an event identifier is the digest of: the encoded draft, then
/// the draft's random identifier.
pub open spec fn event_id_material(encoded_draft: Seq<u8>, random_id: EventId) -> Seq<u8> {
    encoded_draft + random_id@
}

impl ConversationBuilder {
    pub closed spec fn view(&self) -> BuilderState {
        BuilderState {
            conversation_id: self.conversation_id,
            identity_id: self.identity_id,
            device_id: self.device_id,
            next_sequence: self.next_sequence,
            frontier: self.frontier@,
        }
    }

    pub closed spec fn wf(&self) -> bool {
        self.frontier.wf()
    }

    /// The frontier's entries, ascending by device.
    pub closed spec fn frontier_entries(&self) -> Seq<(DeviceId, u64)> {
        self.frontier.entries()
    }

    /// A builder that continues after what `frontier` records of `device_id`.
    pub fn new(
        conversation_id: ConversationId,
        identity_id: IdentityId,
        device_id: DeviceId,
        frontier: CausalFrontier,
    ) -> (r: Self)
        requires
            frontier.wf(),
            !(frontier@.contains_key(device_id@) && frontier@[device_id@] == u64::MAX),
        ensures
            r.wf(),
            r@.conversation_id == conversation_id,
            r@.identity_id == identity_id,
            r@.device_id == device_id,
            r@.frontier == frontier@,
            r.frontier_entries() == frontier.entries(),
            r@.next_sequence == (if frontier@.contains_key(device_id@) {
                frontier@[device_id@] as int
            } else {
                0
            }) + 1,
    {
        let known: u64 = match frontier.get(&device_id) {
            Some(v) => *v,
            None => 0,
        };
        ConversationBuilder {
            conversation_id,
            identity_id,
            device_id,
            next_sequence: known + 1,
            frontier,
        }
    }

    /// The next event with `random_id` as a provisional identifier, before
    /// it is encoded and sealed.
    pub fn draft(&self, body: EventBody, logical_time_ms: i64, random_id: EventId) -> (r: ConversationEvent)
        ensures
            r.version == PROTOCOL_VERSION,
            r.conversation_id == self@.conversation_id,
            r.event_id == random_id,
            r.author_identity == self@.identity_id,
            r.author_device == self@.device_id,
            r.device_sequence == self@.next_sequence,
            r.causal_frontier.entries() == self.frontier_entries(),
            r.logical_time_ms == logical_time_ms,
            r.body == body,
    {
        ConversationEvent {
            version: PROTOCOL_VERSION,
            conversation_id: self.conversation_id,
            event_id: random_id,
            author_identity: self.identity_id,
            author_device: self.device_id,
            device_sequence: self.next_sequence,
            causal_frontier: self.frontier.duplicate(),
            logical_time_ms,
            body,
        }
    }

    /// Gives a draft its final identifier, the digest of its encoding and
    /// its provisional identifier, and moves the builder past it.
    pub fn seal(&mut self, draft: ConversationEvent, encoded_draft: &[u8]) -> (r: ConversationEvent)
        requires
            old(self).wf(),
            old(self)@.next_sequence < u64::MAX,
        ensures
            final(self).wf(),
            r == (ConversationEvent { event_id: r.event_id, ..draft }),
            r.event_id@ == blake3_digest(event_id_material(encoded_draft@, draft.event_id)),
            final(self)@ == (BuilderState {
                next_sequence: (old(self)@.next_sequence + 1) as u64,
                frontier: old(self)@.frontier.insert(old(self)@.device_id@, old(self)@.next_sequence),
                ..old(self)@
            }),
    {
        let mut material: Vec<u8> = Vec::new();
        let mut i: usize = 0;
        while i < encoded_draft.len()
            invariant
                i <= encoded_draft@.len(),
                material@ == encoded_draft@.take(i as int),
            decreases encoded_draft@.len() - i,
        {
            material.push(encoded_draft[i]);
            assert(encoded_draft@.take(i + 1) =~= encoded_draft@.take(i as int).push(encoded_draft@[i as int]));
            i = i + 1;
        }
        assert(encoded_draft@.take(i as int) =~= encoded_draft@);
        let random = draft.event_id.as_bytes();
        let mut j: usize = 0;
        while j < 32
            invariant
                j <= 32,
                random@.len() == 32,
                material@ == encoded_draft@ + random@.take(j as int),
            decreases 32 - j,
        {
            material.push(random[j]);
            assert(random@.take(j + 1) =~= random@.take(j as int).push(random@[j as int]));
            j = j + 1;
        }
        assert(random@.take(32) =~= random@);
        let event_id = EventId::from_bytes(blake3_hash(material.as_slice()));
        self.frontier.insert(self.device_id, self.next_sequence);
        self.next_sequence = self.next_sequence + 1;
        ConversationEvent { event_id, ..draft }
    }
}

/// Applying an event a second time changes nothing: events are idempotent.
pub proof fn law_apply_idempotent(s: ConversationState, e: ConversationEvent)
    requires
        applied(s, e) is Ok,
    ensures
        applied(applied(s, e)->Ok_0, e) == applied(s, e),
{
}

/// Only the owner changes who belongs to a conversation, its owner or its
/// name.
pub proof fn law_only_owner_governs(s: ConversationState, e: ConversationEvent)
    requires
        applied(s, e) is Ok,
        applied(s, e)->Ok_0.members != s.members || applied(s, e)->Ok_0.owner != s.owner
            || applied(s, e)->Ok_0.name != s.name,
    ensures
        e.author_identity@ == s.owner@,
{
}

/// Every message was created by an event the conversation holds.
pub open spec fn messages_have_events(s: ConversationState) -> bool {
    forall|k: Seq<u8>| #[trigger] s.messages.contains_key(k) ==> s.events.contains_key(k)
}

/// Applying an event keeps every message backed by an event.
pub proof fn law_messages_keep_events(s: ConversationState, e: ConversationEvent)
    requires
        messages_have_events(s),
        applied(s, e) is Ok,
    ensures
        messages_have_events(applied(s, e)->Ok_0),
{
}

/// Only a message's author edits or deletes it; others may react to it.
pub proof fn law_only_author_changes_message(s: ConversationState, e: ConversationEvent, k: Seq<u8>)
    requires
        messages_have_events(s),
        applied(s, e) is Ok,
        s.messages.contains_key(k),
        applied(s, e)->Ok_0.messages[k].content != s.messages[k].content
            || applied(s, e)->Ok_0.messages[k].deleted != s.messages[k].deleted,
    ensures
        e.author_identity@ == s.messages[k].author@,
{
}

/// The owner stays a member: the owner cannot be removed, and ownership only
/// passes to a member.
pub proof fn law_owner_stays_member(s: ConversationState, e: ConversationEvent)
    requires
        s.members.contains(s.owner@),
        applied(s, e) is Ok,
    ensures
        applied(s, e)->Ok_0.members.contains(applied(s, e)->Ok_0.owner@),
{
}

/// What a conversation has seen of each device only grows.
pub proof fn law_frontier_grows(s: ConversationState, e: ConversationEvent, d: Seq<u8>)
    requires
        applied(s, e) is Ok,
        s.frontier.contains_key(d),
    ensures
        applied(s, e)->Ok_0.frontier.contains_key(d),
        applied(s, e)->Ok_0.frontier[d] >= s.frontier[d],
{
}

/// A builder that starts from a conversation's frontier writes the event the
/// conversation expects next from that device.
pub proof fn law_builder_continues_frontier(b: BuilderState, s: ConversationState)
    requires
        b.frontier == s.frontier,
        b.next_sequence == (if b.frontier.contains_key(b.device_id@) {
            b.frontier[b.device_id@] as int
        } else {
            0
        }) + 1,
    ensures
        b.next_sequence == expected_sequence(s, b.device_id),
{
}

/// A new conversation: only its owner, no events and the given name.
pub open spec fn fresh_conversation(id: ConversationId, owner: IdentityId, name: Seq<char>) -> ConversationState {
    ConversationState {
        id,
        owner,
        members: set![owner@],
        frontier: Map::empty(),
        events: Map::empty(),
        messages: Map::empty(),
        name,
    }
}

/// The conversation after applying the events in order, each refused one
/// leaving it as it was.
pub open spec fn applied_all(s: ConversationState, events: Seq<ConversationEvent>) -> ConversationState
    decreases events.len(),
{
    if events.len() == 0 {
        s
    } else {
        let next = match applied(s, events[0]) {
            Ok(t) => t,
            Err(_) => s,
        };
        applied_all(next, events.drop_first())
    }
}

proof fn lemma_owner_member_kept(s: ConversationState, events: Seq<ConversationEvent>)
    requires
        s.members.contains(s.owner@),
    ensures
        applied_all(s, events).members.contains(applied_all(s, events).owner@),
    decreases events.len(),
{
    if events.len() > 0 {
        if applied(s, events[0]) is Ok {
            law_owner_stays_member(s, events[0]);
        }
        let next = match applied(s, events[0]) {
            Ok(t) => t,
            Err(_) => s,
        };
        lemma_owner_member_kept(next, events.drop_first());
    }
}

/// However many events a new conversation is handed, accepted or refused,
/// its owner is always a member.
pub proof fn law_owner_always_member(
    id: ConversationId,
    owner: IdentityId,
    name: Seq<char>,
    events: Seq<ConversationEvent>,
)
    ensures
        applied_all(fresh_conversation(id, owner, name), events).members.contains(
            applied_all(fresh_conversation(id, owner, name), events).owner@,
        ),
{
    assert(fresh_conversation(id, owner, name).members.contains(owner@));
    lemma_owner_member_kept(fresh_conversation(id, owner, name), events);
}

/// Applying one more event to the conversation `events` led to continues
/// the fold: what `apply` makes of the state is the fold over `events`
/// followed by that event, so a conversation that `new` started and `apply`
/// calls changed is always a fold of `applied_all`.
pub proof fn law_apply_extends_fold(s: ConversationState, events: Seq<ConversationEvent>, e: ConversationEvent)
    ensures
        applied_all(s, events.push(e)) == match applied(applied_all(s, events), e) {
            Ok(t) => t,
            Err(_) => applied_all(s, events),
        },
    decreases events.len(),
{
    if events.len() == 0 {
        assert(events.push(e).drop_first() =~= Seq::<ConversationEvent>::empty());
        assert(events.push(e)[0] == e);
        reveal_with_fuel(applied_all, 2);
    } else {
        assert(events.push(e)[0] == events[0]);
        assert(events.push(e).drop_first() =~= events.drop_first().push(e));
        let next = match applied(s, events[0]) {
            Ok(t) => t,
            Err(_) => s,
        };
        law_apply_extends_fold(next, events.drop_first(), e);
        assert(applied_all(s, events) == applied_all(next, events.drop_first()));
        assert(applied_all(s, events.push(e)) == applied_all(next, events.drop_first().push(e)));
    }
}

/// A reaction event records exactly what it says: after a new
/// `ReactionSet { target, emoji, active }` from author `a` is accepted, the
/// target's reaction of `(a, emoji)` is `active`, set or withdrawn, and the
/// message's author, content and deletion are unchanged.
pub proof fn law_reaction_records_active(s: ConversationState, e: ConversationEvent)
    requires
        applied(s, e) is Ok,
        !s.events.contains_key(e.event_id@),
        e.body is ReactionSet,
    ensures
        match e.body {
            EventBody::ReactionSet { target, emoji, active } => {
                let t = applied(s, e)->Ok_0;
                &&& s.messages.contains_key(target@)
                &&& t.messages.contains_key(target@)
                &&& t.messages[target@].reactions.contains_key(reaction_key_bytes(e.author_identity, emoji@))
                &&& t.messages[target@].reactions[reaction_key_bytes(e.author_identity, emoji@)] == active
                &&& t.messages[target@].author == s.messages[target@].author
                &&& t.messages[target@].content == s.messages[target@].content
                &&& t.messages[target@].deleted == s.messages[target@].deleted
            },
            _ => true,
        },
{
}

/// An edit replaces the content: after a new `MessageEdit { target,
/// content }` is accepted, the target message holds exactly the event's
/// content, by its author, and neither its author nor its deletion changes.
pub proof fn law_edit_replaces_content(s: ConversationState, e: ConversationEvent)
    requires
        applied(s, e) is Ok,
        !s.events.contains_key(e.event_id@),
        e.body is MessageEdit,
    ensures
        match e.body {
            EventBody::MessageEdit { target, content } => {
                let t = applied(s, e)->Ok_0;
                &&& s.messages.contains_key(target@)
                &&& s.messages[target@].author@ == e.author_identity@
                &&& t.messages.contains_key(target@)
                &&& t.messages[target@].content == content@
                &&& t.messages[target@].author == s.messages[target@].author
                &&& t.messages[target@].deleted == s.messages[target@].deleted
                &&& t.messages[target@].reactions == s.messages[target@].reactions
            },
            _ => true,
        },
{
}

/// A deletion by the author marks the target deleted and keeps its
/// author.
pub proof fn law_delete_marks_deleted(s: ConversationState, e: ConversationEvent)
    requires
        applied(s, e) is Ok,
        !s.events.contains_key(e.event_id@),
        e.body is MessageDelete,
    ensures
        match e.body {
            EventBody::MessageDelete { target } => {
                let t = applied(s, e)->Ok_0;
                &&& s.messages.contains_key(target@)
                &&& s.messages[target@].author@ == e.author_identity@
                &&& t.messages.contains_key(target@)
                &&& t.messages[target@].deleted
                &&& t.messages[target@].author == s.messages[target@].author
            },
            _ => true,
        },
{
}

} // verus!
