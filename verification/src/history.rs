//! The messages a group's history shows: its events replayed in order,
//! each new message appended, and an edit or a deletion applied to the
//! message it targets only where its author wrote that message.
use vstd::prelude::*;
use crate::contacts::ContactKey;
use crate::group::{find_group, GroupProfile};
use crate::ids::{ConversationId, EventId, IdentityId};
use crate::protocol::{ConversationEvent, EventBody};

verus! {

/// One message of a group's history.
#[derive(Debug, Clone)]
pub struct GroupMessage {
    pub message_id: EventId,
    pub author_identity: IdentityId,
    pub text: String,
    pub logical_time_ms: i64,
    pub reply_to: Option<EventId>,
    pub edited: bool,
    pub deleted: bool,
}

/// The value of a history message.
pub struct GroupMessageView {
    pub message_id: EventId,
    pub author_identity: IdentityId,
    pub text: Seq<char>,
    pub logical_time_ms: i64,
    pub reply_to: Option<EventId>,
    pub edited: bool,
    pub deleted: bool,
}

impl View for GroupMessage {
    type V = GroupMessageView;

    open spec fn view(&self) -> GroupMessageView {
        GroupMessageView {
            message_id: self.message_id,
            author_identity: self.author_identity,
            text: self.text@,
            logical_time_ms: self.logical_time_ms,
            reply_to: self.reply_to,
            edited: self.edited,
            deleted: self.deleted,
        }
    }
}

/// The values of the messages.
pub open spec fn message_views(ms: Seq<GroupMessage>) -> Seq<GroupMessageView> {
    Seq::new(ms.len(), |i: int| ms[i]@)
}

/// The position of the last message with the identifier, if any.
pub open spec fn last_with_id(ms: Seq<GroupMessageView>, id: EventId) -> Option<int>
    decreases ms.len(),
{
    if ms.len() == 0 {
        None
    } else if ms.last().message_id == id {
        Some(ms.len() - 1)
    } else {
        last_with_id(ms.drop_last(), id)
    }
}

/// Whether an edit or deletion by `author` of `target` applies: the last
/// message with that identifier is the author's.
pub open spec fn mutable_by(ms: Seq<GroupMessageView>, target: EventId, author: IdentityId) -> bool {
    last_with_id(ms, target) matches Some(i) && ms[i].author_identity == author
}

/// The history after one more event.
pub open spec fn replay_step(ms: Seq<GroupMessageView>, e: ConversationEvent) -> Seq<GroupMessageView> {
    match e.body {
        EventBody::MessageCreate { content } => ms.push(
            GroupMessageView {
                message_id: e.event_id,
                author_identity: e.author_identity,
                text: content.text@,
                logical_time_ms: e.logical_time_ms,
                reply_to: content.reply_to,
                edited: false,
                deleted: false,
            },
        ),
        EventBody::MessageEdit { target, content } => if mutable_by(ms, target, e.author_identity) {
            let i = last_with_id(ms, target).unwrap();
            ms.update(i, GroupMessageView { text: content.text@, edited: true, ..ms[i] })
        } else {
            ms
        },
        EventBody::MessageDelete { target } => if mutable_by(ms, target, e.author_identity) {
            let i = last_with_id(ms, target).unwrap();
            ms.update(i, GroupMessageView { text: Seq::empty(), edited: false, deleted: true, ..ms[i] })
        } else {
            ms
        },
        _ => ms,
    }
}

/// The history the events give, replayed in order.
pub open spec fn replayed_history(events: Seq<ConversationEvent>) -> Seq<GroupMessageView>
    decreases events.len(),
{
    if events.len() == 0 {
        Seq::empty()
    } else {
        replay_step(replayed_history(events.drop_last()), events.last())
    }
}

proof fn lemma_last_with_id_bounds(ms: Seq<GroupMessageView>, id: EventId)
    ensures
        last_with_id(ms, id) matches Some(i) ==> 0 <= i < ms.len() && ms[i].message_id == id,
    decreases ms.len(),
{
    if ms.len() > 0 && ms.last().message_id != id {
        lemma_last_with_id_bounds(ms.drop_last(), id);
    }
}

/// The position of the last message with the identifier.
fn find_last(messages: &Vec<GroupMessage>, id: EventId) -> (r: Option<usize>)
    ensures
        r matches Some(i) ==> last_with_id(message_views(messages@), id) == Some(i as int),
        r is None ==> last_with_id(message_views(messages@), id) is None,
{
    let ghost views = message_views(messages@);
    let mut k: usize = messages.len();
    assert(views.take(k as int) =~= views);
    while k > 0
        invariant
            k <= messages@.len(),
            views == message_views(messages@),
            last_with_id(views, id) == last_with_id(views.take(k as int), id),
        decreases k,
    {
        assert(views.take(k as int).drop_last() =~= views.take(k - 1));
        if messages[k - 1].message_id.same(&id) {
            return Some(k - 1);
        }
        k = k - 1;
    }
    None
}

/// Applies one event to the history.
fn apply_event(messages: &mut Vec<GroupMessage>, event: &ConversationEvent)
    ensures
        message_views(final(messages)@) == replay_step(message_views(old(messages)@), *event),
{
    let ghost before = message_views(messages@);
    match &event.body {
        EventBody::MessageCreate { content } => {
            messages.push(
                GroupMessage {
                    message_id: event.event_id,
                    author_identity: event.author_identity,
                    text: content.text.clone(),
                    logical_time_ms: event.logical_time_ms,
                    reply_to: content.reply_to,
                    edited: false,
                    deleted: false,
                },
            );
            assert(message_views(messages@) =~= replay_step(before, *event));
        },
        EventBody::MessageEdit { target, content } => {
            proof {
                lemma_last_with_id_bounds(before, *target);
            }
            if let Some(i) = find_last(messages, *target) {
                if messages[i].author_identity.same(&event.author_identity) {
                    let old_message = &messages[i];
                    let updated = GroupMessage {
                        message_id: old_message.message_id,
                        author_identity: old_message.author_identity,
                        text: content.text.clone(),
                        logical_time_ms: old_message.logical_time_ms,
                        reply_to: old_message.reply_to,
                        edited: true,
                        deleted: old_message.deleted,
                    };
                    messages.set(i, updated);
                    assert(message_views(messages@) =~= replay_step(before, *event));
                }
            }
        },
        EventBody::MessageDelete { target } => {
            proof {
                lemma_last_with_id_bounds(before, *target);
            }
            if let Some(i) = find_last(messages, *target) {
                if messages[i].author_identity.same(&event.author_identity) {
                    let old_message = &messages[i];
                    let updated = GroupMessage {
                        message_id: old_message.message_id,
                        author_identity: old_message.author_identity,
                        text: String::new(),
                        logical_time_ms: old_message.logical_time_ms,
                        reply_to: old_message.reply_to,
                        edited: false,
                        deleted: true,
                    };
                    messages.set(i, updated);
                    assert(message_views(messages@) =~= replay_step(before, *event));
                }
            }
        },
        _ => {},
    }
}

/// The messages a group's history shows, or `None` where the group is not
/// one of the known groups.
pub fn group_messages(groups: &Vec<GroupProfile>, group_id: ConversationId, events: &[ConversationEvent]) -> (r: Option<
    Vec<GroupMessage>,
>)
    ensures
        (forall|j: int| 0 <= j < groups@.len() ==> groups@[j].id != group_id) ==> r is None,
        (exists|j: int| 0 <= j < groups@.len() && groups@[j].id == group_id) ==> (r matches Some(ms)
            && message_views(ms@) == replayed_history(events@)),
{
    if find_group(groups, &group_id).is_none() {
        return None;
    }
    let mut messages: Vec<GroupMessage> = Vec::new();
    let mut k: usize = 0;
    assert(message_views(messages@) =~= replayed_history(events@.take(0)));
    while k < events.len()
        invariant
            k <= events@.len(),
            message_views(messages@) == replayed_history(events@.take(k as int)),
        decreases events@.len() - k,
    {
        assert(events@.take(k + 1).drop_last() =~= events@.take(k as int));
        apply_event(&mut messages, &events[k]);
        k = k + 1;
    }
    assert(events@.take(k as int) =~= events@);
    Some(messages)
}

/// How many of the events create a message.
pub open spec fn created_count(events: Seq<ConversationEvent>) -> nat
    decreases events.len(),
{
    if events.len() == 0 {
        0
    } else {
        created_count(events.drop_last()) + if events.last().body is MessageCreate {
            1nat
        } else {
            0nat
        }
    }
}

/// Whether some event created a message of that identifier, author, time
/// and reply target.
pub open spec fn created_by(events: Seq<ConversationEvent>, m: GroupMessageView) -> bool {
    exists|k: int|
        0 <= k < events.len() && created_at(#[trigger] events[k], m)
}

/// Whether the event creates the message: its identifier, author and time,
/// and the message its content replies to.
pub open spec fn created_at(e: ConversationEvent, m: GroupMessageView) -> bool {
    &&& e.body matches EventBody::MessageCreate { content } && content.reply_to == m.reply_to
    &&& e.event_id == m.message_id
    &&& e.author_identity == m.author_identity
    &&& e.logical_time_ms == m.logical_time_ms
}

/// A history shows one message for each event that created one, however
/// many edits and deletions follow; each keeps the identifier, author and
/// time of the event that created it, and answers the message that
/// event's content replies to.
pub proof fn law_history_keeps_every_message(events: Seq<ConversationEvent>)
    ensures
        replayed_history(events).len() == created_count(events),
        forall|i: int|
            0 <= i < replayed_history(events).len() ==> #[trigger] created_by(events, replayed_history(events)[i]),
    decreases events.len(),
{
    if events.len() > 0 {
        let prefix = events.drop_last();
        law_history_keeps_every_message(prefix);
        let ms = replayed_history(prefix);
        let e = events.last();
        match e.body {
            EventBody::MessageEdit { target, content } => {
                lemma_last_with_id_bounds(ms, target);
            },
            EventBody::MessageDelete { target } => {
                lemma_last_with_id_bounds(ms, target);
            },
            _ => {},
        }
        let after = replayed_history(events);
        assert forall|i: int| 0 <= i < after.len() implies #[trigger] created_by(events, after[i]) by {
            if i < ms.len() {
                assert(created_by(prefix, ms[i]));
                let k = choose|k: int| 0 <= k < prefix.len() && created_at(#[trigger] prefix[k], ms[i]);
                assert(events[k] == prefix[k]);
                assert(after[i].message_id == ms[i].message_id && after[i].author_identity == ms[i].author_identity
                    && after[i].reply_to == ms[i].reply_to && after[i].logical_time_ms == ms[i].logical_time_ms);
                assert(created_at(events[k], after[i]));
            } else {
                assert(events[events.len() - 1] == e);
                assert(created_at(events[events.len() - 1], after[i]));
            }
        }
    }
}

} // verus!
