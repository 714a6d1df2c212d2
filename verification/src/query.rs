//! The rules by which a bot answers messages, over the bots it runs.
use crate::channel::{
    spec_can_add, spec_is_text, spec_try_add, BotState, BotStateView, Channel, ChannelAdded,
    ChannelInfo, ChannelInfoView, ChannelMap, DiscordError,
};
use vstd::prelude::*;

verus! {

broadcast use vstd::std_specs::hash::group_hash_axioms;

/// What the bot reads of a Discord message.
#[derive(Debug, Clone)]
pub struct Message {
    pub id: u64,
    pub channel_id: u64,
    pub author_id: u64,
    pub author_name: String,
    /// Whether the author is a bot account.
    pub author_is_bot: bool,
    pub content: String,
    /// The ids of the users the message mentions.
    pub mentions: Vec<u64>,
}

/// A message as plain values.
pub struct MessageView {
    pub id: u64,
    pub channel_id: u64,
    pub author_id: u64,
    pub author_name: Seq<char>,
    pub author_is_bot: bool,
    pub content: Seq<char>,
    pub mentions: Seq<u64>,
}

impl View for Message {
    type V = MessageView;

    open spec fn view(&self) -> MessageView {
        MessageView {
            id: self.id,
            channel_id: self.channel_id,
            author_id: self.author_id,
            author_name: self.author_name@,
            author_is_bot: self.author_is_bot,
            content: self.content@,
            mentions: self.mentions@,
        }
    }
}

impl Message {
    /// Whether the message mentions the given user.
    pub fn mentions_user(&self, user_id: u64) -> (mentioned: bool)
        ensures
            mentioned == self@.mentions.contains(user_id),
    {
        let n = self.mentions.len();
        let mut i: usize = 0;
        while i < n
            invariant
                n == self.mentions@.len(),
                i <= n,
                forall|j: int| 0 <= j < i ==> self.mentions@[j] != user_id,
            decreases n - i,
        {
            if self.mentions[i] == user_id {
                return true;
            }
            i = i + 1;
        }
        false
    }
}

/// Whether the bot answers `message`, posted in the channel `info`: never
/// to its own messages; otherwise when the message mentions it, or the
/// channel bears its name, or the channel is its own.
pub open spec fn spec_should_respond(
    bot: BotStateView,
    info: ChannelInfoView,
    message: MessageView,
) -> bool {
    &&& message.author_id != bot.user_id
    &&& {
        ||| message.mentions.contains(bot.user_id)
        ||| info.name_matches
        ||| info.is_owner
    }
}

/// The bot never answers a message it wrote itself.
pub proof fn lemma_never_answers_itself(
    bot: BotStateView,
    info: ChannelInfoView,
    message: MessageView,
)
    requires
        message.author_id == bot.user_id,
    ensures
        !spec_should_respond(bot, info, message),
{
}

/// The bot answers every message of someone else that mentions it, and every
/// message of someone else in its own channel or in the channel with its
/// name.
pub proof fn lemma_answers_mentions_and_own_channels(
    bot: BotStateView,
    info: ChannelInfoView,
    message: MessageView,
)
    requires
        message.author_id != bot.user_id,
        message.mentions.contains(bot.user_id) || info.name_matches || info.is_owner,
    ensures
        spec_should_respond(bot, info, message),
{
}

/// Being mentioned means the bot's own user id is among the mentions:
/// mentions of other users never make the bot answer. Outside its own
/// channels, the bot answers a message of someone else exactly when one of
/// the message's mentions is the bot's user id.
pub proof fn lemma_only_own_mentions_count(
    bot: BotStateView,
    info: ChannelInfoView,
    message: MessageView,
)
    requires
        !info.name_matches,
        !info.is_owner,
    ensures
        spec_should_respond(bot, info, message) <==> (message.author_id != bot.user_id
            && exists|i: int| 0 <= i < message.mentions.len() && message.mentions[i] == bot.user_id),
        (forall|i: int| 0 <= i < message.mentions.len() ==> message.mentions[i] != bot.user_id)
            ==> !spec_should_respond(bot, info, message),
{
    if message.author_id != bot.user_id && exists|i: int|
        0 <= i < message.mentions.len() && message.mentions[i] == bot.user_id {
        let i = choose|i: int| 0 <= i < message.mentions.len() && message.mentions[i] == bot.user_id;
        assert(message.mentions.contains(message.mentions[i]));
    }
}

/// Whether the bot answers `message` in channel `info`.
pub fn respond_rule(bot_state: &BotState, info: &ChannelInfo, message: &Message) -> (respond: bool)
    ensures
        respond == spec_should_respond(bot_state@, info@, message@),
        respond ==> message@.author_id != bot_state@.user_id,
        respond && !info@.name_matches && !info@.is_owner ==> exists|i: int|
            0 <= i < message@.mentions.len() && message@.mentions[i] == bot_state@.user_id,
        message@.author_id != bot_state@.user_id && (info@.name_matches || info@.is_owner
            || exists|i: int|
            0 <= i < message@.mentions.len() && message@.mentions[i] == bot_state@.user_id)
            ==> respond,
{
    if message.author_id == bot_state.user_id() {
        false
    } else {
        message.mentions_user(bot_state.user_id()) || info.name_matches() || info.is_owner()
    }
}

/// One bot entity with what it knows.
#[derive(Debug, Clone)]
pub struct BotEntry {
    pub state: BotState,
    pub channels: ChannelMap,
}

/// A bot entity as plain values.
pub struct BotEntryView {
    pub state: BotStateView,
    pub channels: Map<u64, ChannelInfoView>,
}

impl View for BotEntry {
    type V = BotEntryView;

    open spec fn view(&self) -> BotEntryView {
        BotEntryView { state: self.state@, channels: self.channels@ }
    }
}

/// The bots of the application, by entity id.
#[derive(Debug)]
pub struct DiscordQuery {
    bots: std::collections::HashMap<u64, BotEntry>,
}

impl View for DiscordQuery {
    type V = Map<u64, BotEntryView>;

    closed spec fn view(&self) -> Map<u64, BotEntryView> {
        self.bots@.map_values(|entry: BotEntry| entry@)
    }
}

/// The channel of `message` for bot `bot`, or the error of the lookup.
pub open spec fn spec_message_channel(
    bots: Map<u64, BotEntryView>,
    bot: u64,
    message: MessageView,
) -> Result<ChannelInfoView, DiscordError> {
    if !bots.contains_key(bot) {
        Err(DiscordError::MissingBot(bot))
    } else if !bots[bot].channels.contains_key(message.channel_id) {
        Err(DiscordError::MissingChannel(message.channel_id))
    } else {
        Ok(bots[bot].channels[message.channel_id])
    }
}

impl DiscordQuery {
    pub fn new() -> (query: Self)
        ensures
            query@ == Map::<u64, BotEntryView>::empty(),
    {
        let query = DiscordQuery { bots: std::collections::HashMap::new() };
        assert(query@ =~= Map::<u64, BotEntryView>::empty());
        query
    }

    /// Registers bot `entity`, replacing what was registered under it.
    pub fn insert_bot(&mut self, entity: u64, entry: BotEntry)
        ensures
            final(self)@ == old(self)@.insert(entity, entry@),
    {
        self.bots.insert(entity, entry);
        assert(self@ =~= old(self)@.insert(entity, entry@));
    }

    /// Takes bot `entity` out of the query.
    pub fn remove_bot(&mut self, entity: u64) -> (entry: Option<BotEntry>)
        ensures
            final(self)@ == old(self)@.remove(entity),
            old(self)@.contains_key(entity) ==> (entry matches Some(e) && e@ == old(self)@[entity]),
            !old(self)@.contains_key(entity) ==> entry is None,
    {
        let entry = self.bots.remove(&entity);
        assert(self@ =~= old(self)@.remove(entity));
        entry
    }

    /// The channel of `message` as bot `entity` knows it.
    pub fn channel(&self, entity: u64, message: &Message) -> (found: Result<
        &ChannelInfo,
        DiscordError,
    >)
        ensures
            match spec_message_channel(self@, entity, message@) {
                Ok(info) => found matches Ok(i) && i@ == info,
                Err(e) => found == Err::<&ChannelInfo, DiscordError>(e),
            },
    {
        match self.bots.get(&entity) {
            Some(entry) => entry.channels.get(message.channel_id),
            None => Err(DiscordError::MissingBot(entity)),
        }
    }

    /// Whether bot `entity` answers `message`. It answers when the message
    /// is not its own and any of these holds: the message mentions the bot,
    /// the channel has the bot's name, the channel is the bot's own.
    pub fn should_respond(&self, entity: u64, message: &Message) -> (respond: Result<
        bool,
        DiscordError,
    >)
        ensures
            match spec_message_channel(self@, entity, message@) {
                Ok(info) => respond == Ok::<bool, DiscordError>(
                    spec_should_respond(self@[entity].state, info, message@),
                ),
                Err(e) => respond == Err::<bool, DiscordError>(e),
            },
            respond == Ok::<bool, DiscordError>(true) ==> {
                let bot = self@[entity].state;
                let info = self@[entity].channels[message@.channel_id];
                &&& message@.author_id != bot.user_id
                &&& info.name_matches || info.is_owner || exists|i: int|
                    0 <= i < message@.mentions.len() && message@.mentions[i] == bot.user_id
            },
    {
        match self.bots.get(&entity) {
            Some(entry) => {
                let info = entry.channels.get(message.channel_id)?;
                Ok(respond_rule(&entry.state, info, message))
            },
            None => Err(DiscordError::MissingBot(entity)),
        }
    }

    /// Whether bot `entity` opens a thread for `message`: it does in a text
    /// channel of a guild and in a direct message channel.
    pub fn should_create_thread(&self, entity: u64, message: &Message) -> (create: Result<
        bool,
        DiscordError,
    >)
        ensures
            match spec_message_channel(self@, entity, message@) {
                Ok(info) => create == Ok::<bool, DiscordError>(spec_is_text(info.channel.kind)),
                Err(e) => create == Err::<bool, DiscordError>(e),
            },
            create == Ok::<bool, DiscordError>(true) ==> (self@[entity].channels[message@.channel_id].channel.kind is GuildText
                || self@[entity].channels[message@.channel_id].channel.kind is Private),
            spec_message_channel(self@, entity, message@) is Ok && (self@[entity].channels[message@.channel_id].channel.kind is GuildText
                || self@[entity].channels[message@.channel_id].channel.kind is Private) ==> create
                == Ok::<bool, DiscordError>(true),
    {
        let info = self.channel(entity, message)?;
        Ok(info.is_text())
    }

    /// Offers `channel` to the channel map of bot `entity`, and returns the
    /// `ChannelAdded` event when it was added.
    pub fn try_add(&mut self, entity: u64, channel: Channel) -> (added: Result<
        Option<ChannelAdded>,
        DiscordError,
    >)
        requires
            old(self)@.contains_key(entity) ==> spec_can_add(
                old(self)@[entity].channels,
                channel@,
            ),
        ensures
            !old(self)@.contains_key(entity) ==> added == Err::<Option<ChannelAdded>, DiscordError>(
                DiscordError::MissingBot(entity),
            ) && final(self)@ == old(self)@,
            old(self)@.contains_key(entity) ==> {
                let entry = old(self)@[entity];
                let (channels, event) = spec_try_add(
                    entry.channels,
                    entry.state,
                    channel@,
                    entity,
                );
                &&& added == Ok::<Option<ChannelAdded>, DiscordError>(event)
                &&& final(self)@ == old(self)@.insert(
                    entity,
                    BotEntryView { state: entry.state, channels },
                )
            },
    {
        match self.bots.remove(&entity) {
            Some(entry) => {
                let mut entry = entry;
                let event = entry.channels.try_add(entity, &entry.state, channel);
                self.bots.insert(entity, entry);
                proof {
                    let old_entry = old(self)@[entity];
                    let (channels, _) = spec_try_add(
                        old_entry.channels,
                        old_entry.state,
                        channel@,
                        entity,
                    );
                    assert(self@ =~= old(self)@.insert(
                        entity,
                        BotEntryView { state: old_entry.state, channels },
                    ));
                }
                Ok(event)
            },
            None => {
                assert(old(self).bots@ =~= self.bots@);
                assert(self@ =~= old(self)@);
                Err(DiscordError::MissingBot(entity))
            },
        }
    }
}

} // verus!
