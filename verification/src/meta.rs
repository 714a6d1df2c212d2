//! Discord bookkeeping that the bot stores beside its posts, threads and
//! actors.
//!
//! Each struct has `Option` fields: a key that is absent reads as `None`, and
//! only the fields that are `Some` are written back.
use vstd::prelude::*;

verus! {

/// Status of a post relative to the Discord HTTP API.
#[derive(Debug, Clone, Copy, PartialEq, Eq, Structural)]
pub enum DiscordStatus {
    Sending,
    Complete,
}

/// Metadata kept on a post.
#[derive(Debug, Clone)]
pub struct DiscordPostMeta {
    /// Whether this post has been sent, or is being sent, to Discord.
    pub discord_status: Option<DiscordStatus>,
    /// Discord message ids that carry this post (one post may be split across
    /// several Discord messages).
    pub discord_messages: Option<Vec<u64>>,
}

/// The metadata of a post as plain values.
pub struct DiscordPostMetaView {
    pub discord_status: Option<DiscordStatus>,
    pub discord_messages: Option<Seq<u64>>,
}

impl View for DiscordPostMeta {
    type V = DiscordPostMetaView;

    open spec fn view(&self) -> DiscordPostMetaView {
        DiscordPostMetaView {
            discord_status: self.discord_status,
            discord_messages: match self.discord_messages {
                Some(ids) => Some(ids@),
                None => None,
            },
        }
    }
}

/// Whether a post with this metadata is already delivered or on its way.
pub open spec fn spec_is_handled(meta: DiscordPostMetaView) -> bool {
    meta.discord_status == Some(DiscordStatus::Complete) || meta.discord_status == Some(
        DiscordStatus::Sending,
    )
}

/// What the metadata reads back after `update` is written over `meta`: each
/// field that `update` sets replaces the old one, the others stay as they
/// were.
pub open spec fn spec_merge(meta: DiscordPostMetaView, update: DiscordPostMetaView) -> DiscordPostMetaView {
    DiscordPostMetaView {
        discord_status: if update.discord_status is Some {
            update.discord_status
        } else {
            meta.discord_status
        },
        discord_messages: if update.discord_messages is Some {
            update.discord_messages
        } else {
            meta.discord_messages
        },
    }
}

fn copy_ids(ids: &Vec<u64>) -> (copy: Vec<u64>)
    ensures
        copy@ == ids@,
{
    let mut copy: Vec<u64> = Vec::new();
    let n = ids.len();
    let mut i: usize = 0;
    while i < n
        invariant
            n == ids@.len(),
            i <= n,
            copy@ == ids@.take(i as int),
        decreases n - i,
    {
        copy.push(ids[i]);
        assert(ids@.take(i as int + 1) =~= ids@.take(i as int).push(ids@[i as int]));
        i = i + 1;
    }
    assert(ids@.take(n as int) =~= ids@);
    copy
}

/// Metadata kept on a thread.
#[derive(Debug, Clone, Copy, PartialEq, Eq, Structural)]
pub struct DiscordThreadMeta {
    /// The Discord channel or thread id backing this thread.
    pub discord_channel: Option<u64>,
}

/// Metadata kept on an actor.
#[derive(Debug, Clone, Copy, PartialEq, Eq, Structural)]
pub struct DiscordActorMeta {
    /// The Discord user id that owns this actor.
    pub discord_user: Option<u64>,
}

impl Default for DiscordPostMeta {
    fn default() -> (meta: Self)
        ensures
            meta.discord_status is None,
            meta.discord_messages is None,
    {
        DiscordPostMeta { discord_status: None, discord_messages: None }
    }
}

impl Default for DiscordThreadMeta {
    fn default() -> (meta: Self)
        ensures
            meta.discord_channel is None,
    {
        DiscordThreadMeta { discord_channel: None }
    }
}

impl Default for DiscordActorMeta {
    fn default() -> (meta: Self)
        ensures
            meta.discord_user is None,
    {
        DiscordActorMeta { discord_user: None }
    }
}

impl DiscordPostMeta {
    /// Whether the post is already delivered or on its way to Discord.
    pub fn is_handled(&self) -> (handled: bool)
        ensures
            handled == spec_is_handled(self@),
    {
        match self.discord_status {
            Some(DiscordStatus::Complete) | Some(DiscordStatus::Sending) => true,
            None => false,
        }
    }

    /// This metadata with the fields that `update` sets written over it.
    pub fn merged(&self, update: &DiscordPostMeta) -> (meta: Self)
        ensures
            meta@ == spec_merge(self@, update@),
    {
        let discord_status = match update.discord_status {
            Some(status) => Some(status),
            None => self.discord_status,
        };
        let discord_messages = match &update.discord_messages {
            Some(ids) => Some(copy_ids(ids)),
            None => match &self.discord_messages {
                Some(ids) => Some(copy_ids(ids)),
                None => None,
            },
        };
        DiscordPostMeta { discord_status, discord_messages }
    }

    /// The metadata of a post that came in from Discord: it is already
    /// delivered, so it is never sent back.
    pub fn incoming() -> (meta: Self)
        ensures
            meta.discord_status == Some(DiscordStatus::Complete),
            meta.discord_messages is None,
    {
        DiscordPostMeta { discord_status: Some(DiscordStatus::Complete), discord_messages: None }
    }

    /// The metadata of a post whose delivery has started.
    pub fn sending() -> (meta: Self)
        ensures
            meta.discord_status == Some(DiscordStatus::Sending),
            meta.discord_messages is None,
    {
        DiscordPostMeta { discord_status: Some(DiscordStatus::Sending), discord_messages: None }
    }

    /// The metadata of a post delivered as the given Discord messages.
    pub fn delivered(message_ids: Vec<u64>) -> (meta: Self)
        ensures
            meta.discord_status == Some(DiscordStatus::Complete),
            meta.discord_messages matches Some(ids) && ids@ == message_ids@,
    {
        DiscordPostMeta {
            discord_status: Some(DiscordStatus::Complete),
            discord_messages: Some(message_ids),
        }
    }
}

impl DiscordThreadMeta {
    /// The metadata of a thread backed by the given Discord channel.
    pub fn for_channel(channel_id: u64) -> (meta: Self)
        ensures
            meta.discord_channel == Some(channel_id),
    {
        DiscordThreadMeta { discord_channel: Some(channel_id) }
    }

    /// Whether the thread is backed by the given Discord channel.
    pub fn is_channel(&self, channel_id: u64) -> (is: bool)
        ensures
            is == (self.discord_channel == Some(channel_id)),
    {
        match self.discord_channel {
            Some(id) => id == channel_id,
            None => false,
        }
    }
}

impl DiscordActorMeta {
    /// The metadata of an actor that stands for the given Discord user.
    pub fn for_user(user_id: u64) -> (meta: Self)
        ensures
            meta.discord_user == Some(user_id),
    {
        DiscordActorMeta { discord_user: Some(user_id) }
    }

    /// Whether the actor stands for the given Discord user.
    pub fn is_user(&self, user_id: u64) -> (is: bool)
        ensures
            is == (self.discord_user == Some(user_id)),
    {
        match self.discord_user {
            Some(id) => id == user_id,
            None => false,
        }
    }
}

} // verus!
