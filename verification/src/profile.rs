//! The local profile's own edits and the conversation list's settings: a
//! new display name and avatar, and how a conversation's pin, archive and
//! mute preferences and its unread count and summary change.
use vstd::prelude::*;
use vstd::string::*;
use vstd::utf8::encode_utf8;
use crate::devices::{trim_text_bounds, trimmed};
use crate::storage::ConversationSettings;

verus! {

/// The largest avatar, in bytes: 512 KiB.
pub const MAX_AVATAR_BYTES: usize = 524288;

/// The most characters a display name may have, once trimmed.
pub const MAX_PROFILE_NAME_CHARS: usize = 64;

/// The longest conversation key, in bytes.
pub const MAX_CONVERSATION_KEY_BYTES: usize = 128;

/// What a profile edit does to the avatar.
#[derive(Debug, Clone, PartialEq, Eq)]
pub enum AvatarUpdate {
    /// The avatar stays as it is.
    Preserve,
    /// The avatar becomes this one; an empty one clears it.
    SetTo(String),
    /// The avatar is cleared.
    Clear,
}

/// The avatar update a request carries: a value sets it, an explicit
/// null clears it.
pub fn avatar_update_from(value: Option<String>) -> (r: AvatarUpdate)
    ensures
        r == match value {
            Some(v) => AvatarUpdate::SetTo(v),
            None => AvatarUpdate::Clear,
        },
{
    match value {
        Some(v) => AvatarUpdate::SetTo(v),
        None => AvatarUpdate::Clear,
    }
}

/// Why a profile edit was refused.
#[derive(Debug, Clone, Copy, PartialEq, Eq)]
pub enum ProfileError {
    /// The name, trimmed, must have 1 to `MAX_PROFILE_NAME_CHARS` characters.
    InvalidName,
    /// The avatar exceeds `MAX_AVATAR_BYTES`.
    AvatarTooLarge,
}

/// The number of bytes of a text's UTF-8 encoding.
pub open spec fn byte_len(s: Seq<char>) -> nat {
    encode_utf8(s).len()
}

/// Why a profile edit is refused, if it is.
pub open spec fn profile_edit_error(name: Seq<char>, avatar: AvatarUpdate) -> Option<ProfileError> {
    if trimmed(name).len() == 0 || trimmed(name).len() > MAX_PROFILE_NAME_CHARS {
        Some(ProfileError::InvalidName)
    } else if avatar matches AvatarUpdate::SetTo(v) && byte_len(v@) > MAX_AVATAR_BYTES {
        Some(ProfileError::AvatarTooLarge)
    } else {
        None
    }
}

/// The avatar after an update.
pub open spec fn updated_avatar(avatar: AvatarUpdate, current: Option<String>) -> Option<String> {
    match avatar {
        AvatarUpdate::SetTo(v) => if v@.len() == 0 {
            None
        } else {
            Some(v)
        },
        AvatarUpdate::Clear => None,
        AvatarUpdate::Preserve => current,
    }
}

/// Edits the profile's display name, kept trimmed, and avatar.
pub fn edit_profile(name: &str, avatar: AvatarUpdate, current: Option<String>) -> (r: Result<
    (String, Option<String>),
    ProfileError,
>)
    ensures
        match profile_edit_error(name@, avatar) {
            Some(e) => r == Err::<(String, Option<String>), ProfileError>(e),
            None => r matches Ok((n, a)) && n@ == trimmed(name@) && a == updated_avatar(avatar, current),
        },
{
    let (lo, hi) = trim_text_bounds(name);
    if lo == hi || hi - lo > MAX_PROFILE_NAME_CHARS {
        return Err(ProfileError::InvalidName);
    }
    if let AvatarUpdate::SetTo(v) = &avatar {
        if v.as_str().as_bytes().len() > MAX_AVATAR_BYTES {
            return Err(ProfileError::AvatarTooLarge);
        }
    }
    let trimmed_name = String::from_str(name.substring_char(lo, hi));
    let next = match avatar {
        AvatarUpdate::SetTo(v) => if v.as_str().unicode_len() == 0 {
            None
        } else {
            Some(v)
        },
        AvatarUpdate::Clear => None,
        AvatarUpdate::Preserve => current,
    };
    Ok((trimmed_name, next))
}

/// Whether a conversation key is usable: not blank, and at most
/// `MAX_CONVERSATION_KEY_BYTES` bytes long.
pub open spec fn key_ok(key: Seq<char>) -> bool {
    trimmed(key).len() > 0 && byte_len(key) <= MAX_CONVERSATION_KEY_BYTES
}

/// Whether a conversation key is usable.
pub fn conversation_key_ok(key: &str) -> (r: bool)
    ensures
        r == key_ok(key@),
{
    let (lo, hi) = trim_text_bounds(key);
    lo < hi && key.as_bytes().len() <= MAX_CONVERSATION_KEY_BYTES
}

/// The position of the settings of a conversation, if it has any.
pub fn find_settings(all: &[ConversationSettings], key: &str) -> (r: Option<usize>)
    ensures
        r matches Some(i) ==> i < all@.len() && all@[i as int].conversation_key@ == key@ && forall|j: int|
            0 <= j < i ==> (#[trigger] all@[j]).conversation_key@ != key@,
        r is None ==> forall|j: int| 0 <= j < all@.len() ==> (#[trigger] all@[j]).conversation_key@ != key@,
{
    let mut i: usize = 0;
    while i < all.len()
        invariant
            i <= all@.len(),
            forall|j: int| 0 <= j < i ==> (#[trigger] all@[j]).conversation_key@ != key@,
        decreases all@.len() - i,
    {
        if crate::text::same_text(all[i].conversation_key.as_str(), key) {
            return Some(i);
        }
        i = i + 1;
    }
    None
}

/// The settings after the user sets a conversation's preferences: a muted
/// conversation stays muted for good; the unread count, summary, last
/// activity and notification preview carry over, a first entry starting
/// with none unread, no summary, no activity and previews on.
pub fn preference_update(
    key: String,
    pinned: bool,
    archived: bool,
    muted: bool,
    previous: Option<&ConversationSettings>,
) -> (r: ConversationSettings)
    ensures
        r.conversation_key == key,
        r.pinned == pinned,
        r.archived == archived,
        r.muted_until_unix == if muted {
            Some(i64::MAX)
        } else {
            None::<i64>
        },
        r.unread_count == match previous {
            Some(p) => p.unread_count,
            None => 0,
        },
        r.last_summary@ == match previous {
            Some(p) => p.last_summary@,
            None => Seq::<char>::empty(),
        },
        r.last_activity_unix == match previous {
            Some(p) => p.last_activity_unix,
            None => 0,
        },
        r.notification_preview == match previous {
            Some(p) => p.notification_preview,
            None => true,
        },
{
    ConversationSettings {
        conversation_key: key,
        pinned,
        archived,
        muted_until_unix: if muted {
            Some(i64::MAX)
        } else {
            None
        },
        unread_count: match previous {
            Some(p) => p.unread_count,
            None => 0,
        },
        last_summary: match previous {
            Some(p) => p.last_summary.clone(),
            None => String::new(),
        },
        last_activity_unix: match previous {
            Some(p) => p.last_activity_unix,
            None => 0,
        },
        notification_preview: match previous {
            Some(p) => p.notification_preview,
            None => true,
        },
    }
}

/// The unread count after an activity: cleared, or raised by one for an
/// unread message, without passing `u32::MAX`.
pub open spec fn unread_after(previous: Option<ConversationSettings>, unread: bool, clear_unread: bool) -> u32 {
    let add: int = if unread {
        1
    } else {
        0
    };
    if clear_unread {
        0
    } else {
        match previous {
            Some(p) => if p.unread_count + add > u32::MAX {
                u32::MAX
            } else {
                (p.unread_count + add) as u32
            },
            None => add as u32,
        }
    }
}

/// The settings after activity in a conversation at `now_unix`: the
/// preferences carry over, the unread count moves as `unread_after` says,
/// a non-empty summary replaces the last one, and the activity time becomes
/// `now_unix` unless the activity only cleared the unread count of a known
/// conversation.
pub fn activity_update(
    key: String,
    summary: String,
    unread: bool,
    clear_unread: bool,
    now_unix: i64,
    previous: Option<&ConversationSettings>,
) -> (r: ConversationSettings)
    ensures
        r.conversation_key == key,
        r.pinned == (previous matches Some(p) && p.pinned),
        r.archived == (previous matches Some(p) && p.archived),
        r.muted_until_unix == match previous {
            Some(p) => p.muted_until_unix,
            None => None::<i64>,
        },
        r.unread_count == unread_after(
            match previous {
                Some(p) => Some(*p),
                None => None::<ConversationSettings>,
            },
            unread,
            clear_unread,
        ),
        r.last_summary@ == if summary@.len() == 0 {
            match previous {
                Some(p) => p.last_summary@,
                None => Seq::<char>::empty(),
            }
        } else {
            summary@
        },
        r.last_activity_unix == if clear_unread && previous is Some {
            previous.unwrap().last_activity_unix
        } else {
            now_unix
        },
        r.notification_preview == match previous {
            Some(p) => p.notification_preview,
            None => true,
        },
{
    let add: u32 = if unread {
        1
    } else {
        0
    };
    let unread_count = if clear_unread {
        0
    } else {
        match previous {
            Some(p) => p.unread_count.saturating_add(add),
            None => add,
        }
    };
    let last_summary = if summary.as_str().unicode_len() == 0 {
        match previous {
            Some(p) => p.last_summary.clone(),
            None => String::new(),
        }
    } else {
        summary
    };
    let last_activity_unix = match previous {
        Some(p) => if clear_unread {
            p.last_activity_unix
        } else {
            now_unix
        },
        None => now_unix,
    };
    ConversationSettings {
        conversation_key: key,
        pinned: match previous {
            Some(p) => p.pinned,
            None => false,
        },
        archived: match previous {
            Some(p) => p.archived,
            None => false,
        },
        muted_until_unix: match previous {
            Some(p) => p.muted_until_unix,
            None => None,
        },
        unread_count,
        last_summary,
        last_activity_unix,
        notification_preview: match previous {
            Some(p) => p.notification_preview,
            None => true,
        },
    }
}

} // verus!
