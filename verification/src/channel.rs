//! The channels a bot knows of.
//!
//! When connecting to a guild the bot looks for a channel with its own name,
//! ie `my-bot`. That channel is treated as the bot's own: there it may post
//! more verbosely, respond to all messages and so on.
use vstd::prelude::*;
use vstd::std_specs::iter::IteratorSpec;
use vstd::string::StringExecFns;

verus! {

broadcast use vstd::std_specs::hash::group_hash_axioms;

/// The kind of a Discord channel.
#[derive(Debug, Clone, Copy, PartialEq, Eq, Structural)]
pub enum ChannelKind {
    GuildText,
    Private,
    GuildVoice,
    Group,
    GuildCategory,
    GuildAnnouncement,
    AnnouncementThread,
    PublicThread,
    PrivateThread,
    GuildStageVoice,
    GuildDirectory,
    GuildForum,
    GuildMedia,
    Unknown(u8),
}

/// What the bot reads of a Discord channel.
#[derive(Debug)]
pub struct Channel {
    pub id: u64,
    pub guild_id: Option<u64>,
    pub owner_id: Option<u64>,
    pub name: Option<String>,
    pub kind: ChannelKind,
}

/// A channel as plain values.
pub struct ChannelView {
    pub id: u64,
    pub guild_id: Option<u64>,
    pub owner_id: Option<u64>,
    pub name: Option<Seq<char>>,
    pub kind: ChannelKind,
}

impl View for Channel {
    type V = ChannelView;

    open spec fn view(&self) -> ChannelView {
        ChannelView {
            id: self.id,
            guild_id: self.guild_id,
            owner_id: self.owner_id,
            name: match self.name {
                Some(n) => Some(n@),
                None => None,
            },
            kind: self.kind,
        }
    }
}

impl Clone for Channel {
    fn clone(&self) -> (copy: Self)
        ensures
            copy@ == self@,
    {
        Channel {
            id: self.id,
            guild_id: self.guild_id,
            owner_id: self.owner_id,
            name: match &self.name {
                Some(name) => Some(name.clone()),
                None => None,
            },
            kind: self.kind,
        }
    }
}

/// The bot's own identity on Discord.
#[derive(Debug, Clone)]
pub struct BotState {
    user_id: u64,
    name: String,
}

/// The bot's identity as plain values.
pub struct BotStateView {
    pub user_id: u64,
    pub name: Seq<char>,
}

impl View for BotState {
    type V = BotStateView;

    closed spec fn view(&self) -> BotStateView {
        BotStateView { user_id: self.user_id, name: self.name@ }
    }
}

impl BotState {
    pub fn new(user_id: u64, name: String) -> (bot: Self)
        ensures
            bot@.user_id == user_id,
            bot@.name == name@,
    {
        BotState { user_id, name }
    }

    /// The bot's Discord user id.
    pub fn user_id(&self) -> (id: u64)
        ensures
            id == self@.user_id,
    {
        self.user_id
    }

    /// The bot's user name.
    pub fn name(&self) -> (name: &str)
        ensures
            name@ == self@.name,
    {
        self.name.as_str()
    }
}

/// `c` in lower case, for ASCII letters; any other character is kept.
pub open spec fn ascii_lower(c: char) -> char {
    if 'A' <= c <= 'Z' {
        ((c as u32) + 32) as char
    } else {
        c
    }
}

/// `s` with its ASCII letters in lower case (`to_ascii_lowercase`).
pub open spec fn ascii_lowercase(s: Seq<char>) -> Seq<char> {
    s.map_values(|c: char| ascii_lower(c))
}

fn ascii_lower_code(c: char) -> (code: u32)
    ensures
        code == ascii_lower(c) as u32,
{
    if 'A' <= c && c <= 'Z' {
        c as u32 + 32
    } else {
        c as u32
    }
}

/// Whether `a` and `b` are equal once their ASCII letters are put in lower
/// case.
pub fn eq_ignore_ascii_case(a: &str, b: &str) -> (eq: bool)
    ensures
        eq == (ascii_lowercase(a@) == ascii_lowercase(b@)),
        eq <==> (a@.len() == b@.len() && forall|i: int|
            0 <= i < a@.len() ==> ascii_lower(#[trigger] a@[i]) == ascii_lower(b@[i])),
{
    let a_chars = crate::text::chars_of(a);
    let b_chars = crate::text::chars_of(b);
    if a_chars.len() != b_chars.len() {
        assert(ascii_lowercase(a@).len() != ascii_lowercase(b@).len());
        return false;
    }
    let n = a_chars.len();
    let mut i: usize = 0;
    while i < n
        invariant
            n == a_chars@.len(),
            n == b_chars@.len(),
            a_chars@ == a@,
            b_chars@ == b@,
            i <= n,
            forall|j: int| 0 <= j < i ==> ascii_lower(a@[j]) == ascii_lower(b@[j]),
        decreases n - i,
    {
        let ca = ascii_lower_code(a_chars[i]);
        let cb = ascii_lower_code(b_chars[i]);
        if ca != cb {
            assert(ascii_lowercase(a@)[i as int] != ascii_lowercase(b@)[i as int]);
            return false;
        }
        proof {
            vstd::utf8::char_u32_cast(ascii_lower(a@[i as int]), ca);
            vstd::utf8::char_u32_cast(ascii_lower(b@[i as int]), cb);
        }
        i = i + 1;
    }
    assert(ascii_lowercase(a@) =~= ascii_lowercase(b@));
    true
}

/// Whether a channel with this name is the bot's own channel: the names
/// agree, ignoring the case of ASCII letters.
pub open spec fn spec_name_matches(bot: BotStateView, channel: ChannelView) -> bool {
    match channel.name {
        Some(name) => ascii_lowercase(name) == ascii_lowercase(bot.name),
        None => false,
    }
}

/// What the bot knows of one channel.
#[derive(Debug, Clone)]
pub struct ChannelInfo {
    /// Whether the bot owns the channel.
    is_owner: bool,
    /// Whether the channel name matches the bot name, which gives the bot
    /// more liberal rights in its own channel.
    name_matches: bool,
    channel: Channel,
}

/// What the bot knows of one channel, as plain values.
pub struct ChannelInfoView {
    pub is_owner: bool,
    pub name_matches: bool,
    pub channel: ChannelView,
}

impl View for ChannelInfo {
    type V = ChannelInfoView;

    closed spec fn view(&self) -> ChannelInfoView {
        ChannelInfoView {
            is_owner: self.is_owner,
            name_matches: self.name_matches,
            channel: self.channel@,
        }
    }
}

/// What `ChannelInfo::new` records of a channel for a bot.
pub open spec fn spec_channel_info(bot: BotStateView, channel: ChannelView) -> ChannelInfoView {
    ChannelInfoView {
        is_owner: channel.owner_id == Some(bot.user_id),
        name_matches: spec_name_matches(bot, channel),
        channel,
    }
}

/// Whether a channel of this kind is a thread.
pub open spec fn spec_is_thread(kind: ChannelKind) -> bool {
    kind == ChannelKind::PublicThread || kind == ChannelKind::PrivateThread
}

/// Whether a channel of this kind is a text channel of a guild or a direct
/// message channel.
pub open spec fn spec_is_text(kind: ChannelKind) -> bool {
    kind == ChannelKind::GuildText || kind == ChannelKind::Private
}

/// Two texts are equal once lower-cased exactly when they have the same
/// length and agree, character by character, once lower-cased.
pub proof fn lemma_ascii_lowercase_eq(a: Seq<char>, b: Seq<char>)
    ensures
        ascii_lowercase(a) == ascii_lowercase(b) <==> (a.len() == b.len() && forall|i: int|
            0 <= i < a.len() ==> ascii_lower(#[trigger] a[i]) == ascii_lower(b[i])),
{
    if a.len() == b.len() && forall|i: int|
        0 <= i < a.len() ==> ascii_lower(#[trigger] a[i]) == ascii_lower(b[i]) {
        assert(ascii_lowercase(a) =~= ascii_lowercase(b));
    }
    if ascii_lowercase(a) == ascii_lowercase(b) {
        assert(ascii_lowercase(a).len() == a.len());
        assert(ascii_lowercase(b).len() == b.len());
        assert forall|i: int| 0 <= i < a.len() implies ascii_lower(#[trigger] a[i]) == ascii_lower(
            b[i],
        ) by {
            assert(ascii_lowercase(a)[i] == ascii_lowercase(b)[i]);
        }
    }
}

/// Lower-casing changes only the ASCII capitals, each to its small letter.
pub proof fn lemma_ascii_lower(c: char)
    ensures
        'A' <= c <= 'Z' ==> ascii_lower(c) as u32 == c as u32 + 32,
        !('A' <= c <= 'Z') ==> ascii_lower(c) == c,
        'a' <= ascii_lower(c) <= 'z' <==> ('a' <= c <= 'z' || 'A' <= c <= 'Z'),
{
}

/// A channel is the bot's own by name exactly when it has a name of the
/// bot name's length that agrees with it letter by letter, ignoring the case
/// of ASCII letters; in particular a name of another length, such as a
/// proper prefix of the bot name, never matches, and a channel without a
/// name never matches.
pub proof fn lemma_name_matches(bot: BotStateView, channel: ChannelView)
    ensures
        spec_name_matches(bot, channel) <==> (channel.name matches Some(name) && name.len()
            == bot.name.len() && forall|i: int|
            0 <= i < name.len() ==> ascii_lower(#[trigger] name[i]) == ascii_lower(bot.name[i])),
        channel.name matches Some(name) && name.len() != bot.name.len() ==> !spec_name_matches(
            bot,
            channel,
        ),
        channel.name is None ==> !spec_name_matches(bot, channel),
        channel.name == Some(bot.name) ==> spec_name_matches(bot, channel),
{
    if let Some(name) = channel.name {
        lemma_ascii_lowercase_eq(name, bot.name);
    }
}

/// What a channel info records: the channel itself, ownership exactly when
/// the channel's owner is the bot, and the name match of `lemma_name_matches`.
pub proof fn lemma_channel_info(bot: BotStateView, channel: ChannelView)
    ensures
        spec_channel_info(bot, channel).channel == channel,
        spec_channel_info(bot, channel).is_owner <==> channel.owner_id == Some(bot.user_id),
        spec_channel_info(bot, channel).name_matches <==> (channel.name matches Some(name)
            && name.len() == bot.name.len() && forall|i: int|
            0 <= i < name.len() ==> ascii_lower(#[trigger] name[i]) == ascii_lower(bot.name[i])),
{
    lemma_name_matches(bot, channel);
}

/// Only guild text channels and direct message channels are text channels;
/// only public and private threads are threads.
pub proof fn lemma_channel_kinds(kind: ChannelKind)
    ensures
        spec_is_text(kind) <==> (kind is GuildText || kind is Private),
        spec_is_thread(kind) <==> (kind is PublicThread || kind is PrivateThread),
        !(spec_is_text(kind) && spec_is_thread(kind)),
        kind is GuildAnnouncement || kind is GuildVoice || kind is GuildForum || kind is Group
            || kind is GuildCategory || kind is AnnouncementThread || kind is GuildStageVoice
            || kind is GuildDirectory || kind is GuildMedia || kind is Unknown ==> !spec_is_text(
            kind,
        ) && !spec_is_thread(kind),
{
}

impl ChannelInfo {
    pub fn new(bot: &BotState, channel: Channel) -> (info: Self)
        ensures
            info@ == spec_channel_info(bot@, channel@),
            info@.channel == channel@,
            info@.is_owner <==> channel@.owner_id == Some(bot@.user_id),
            info@.name_matches <==> (channel@.name matches Some(name) && name.len()
                == bot@.name.len() && forall|i: int|
                0 <= i < name.len() ==> ascii_lower(#[trigger] name[i]) == ascii_lower(
                    bot@.name[i],
                )),
    {
        let is_owner = match channel.owner_id {
            Some(id) => id == bot.user_id(),
            None => false,
        };
        let name_matches = match &channel.name {
            Some(name) => eq_ignore_ascii_case(name.as_str(), bot.name()),
            None => false,
        };
        ChannelInfo { is_owner, name_matches, channel }
    }

    /// Whether the bot owns the channel.
    pub fn is_owner(&self) -> (is_owner: bool)
        ensures
            is_owner == self@.is_owner,
    {
        self.is_owner
    }

    /// Whether the channel name matches the bot name.
    pub fn name_matches(&self) -> (name_matches: bool)
        ensures
            name_matches == self@.name_matches,
    {
        self.name_matches
    }

    pub fn channel(&self) -> (channel: &Channel)
        ensures
            channel@ == self@.channel,
    {
        &self.channel
    }

    pub fn id(&self) -> (id: u64)
        ensures
            id == self@.channel.id,
    {
        self.channel.id
    }

    pub fn is_thread(&self) -> (is_thread: bool)
        ensures
            is_thread == spec_is_thread(self@.channel.kind),
            is_thread <==> (self@.channel.kind is PublicThread || self@.channel.kind is PrivateThread),
    {
        match self.channel.kind {
            ChannelKind::PublicThread | ChannelKind::PrivateThread => true,
            _ => false,
        }
    }

    pub fn is_text(&self) -> (is_text: bool)
        ensures
            is_text == spec_is_text(self@.channel.kind),
            is_text <==> (self@.channel.kind is GuildText || self@.channel.kind is Private),
    {
        match self.channel.kind {
            ChannelKind::GuildText | ChannelKind::Private => true,
            _ => false,
        }
    }
}

/// The text that `{:?}` writes for an optional channel name.
pub uninterp spec fn debug_text(name: Option<Seq<char>>) -> Seq<char>;

/// `format!("{:?}", name)`: the `Debug` form of an optional string.
#[verifier::external_body]
fn debug_name(name: &Option<String>) -> (text: String)
    ensures
        text@ == debug_text(
            match name {
                Some(n) => Some(n@),
                None => None,
            },
        ),
{
    format!("{:?}", name)
}

/// How a channel is shown in messages: `ChannelInfo { id: <id>, name: <name> }`
/// with the name in its `Debug` form.
pub open spec fn spec_channel_info_text(info: ChannelInfoView) -> Seq<char> {
    seq!['C', 'h', 'a', 'n', 'n', 'e', 'l', 'I', 'n', 'f', 'o', ' ', '{', ' ', 'i', 'd', ':', ' ']
        + crate::text::decimal(info.channel.id as nat) + seq![',', ' ', 'n', 'a', 'm', 'e', ':', ' ']
        + debug_text(info.channel.name) + seq![' ', '}']
}

impl ChannelInfo {
    /// How the channel is shown in messages.
    pub fn to_display_string(&self) -> (text: String)
        ensures
            text@ == spec_channel_info_text(self@),
    {
        proof {
            reveal_strlit("ChannelInfo { id: ");
            reveal_strlit(", name: ");
            reveal_strlit(" }");
        }
        let mut text = String::from_str("ChannelInfo { id: ");
        crate::text::push_decimal(&mut text, self.channel.id);
        text.append(", name: ");
        let name = debug_name(&self.channel.name);
        text.append(name.as_str());
        text.append(" }");
        text
    }
}

/// The errors of channel and bot lookups.
#[derive(Debug, Clone, Copy, PartialEq, Eq, Structural)]
pub enum DiscordError {
    /// The channel map holds no channel with this id; the gateway listener
    /// should have added it first.
    MissingChannel(u64),
    /// No bot entity with this id.
    MissingBot(u64),
}

/// Raised when a channel is added to a bot's channel map.
#[derive(Debug, Clone, Copy, PartialEq, Eq, Structural)]
pub struct ChannelAdded {
    /// The bot entity.
    pub entity: u64,
    pub guild: u64,
    pub channel: u64,
}

/// The event for adding `channel`, which belongs to a guild, to the map of
/// bot `entity`.
pub open spec fn spec_channel_added(entity: u64, channel: ChannelView) -> ChannelAdded
    recommends
        channel.guild_id is Some,
{
    ChannelAdded { entity, guild: channel.guild_id.unwrap(), channel: channel.id }
}

impl ChannelAdded {
    /// The event for adding `channel` to the map of bot `entity`. The event
    /// names the channel's guild, so the channel must have one.
    pub fn for_channel(entity: u64, channel: &Channel) -> (event: Self)
        requires
            channel@.guild_id is Some,
        ensures
            event == spec_channel_added(entity, channel@),
    {
        ChannelAdded { entity, guild: channel.guild_id.unwrap(), channel: channel.id }
    }
}

/// Whether `channel` can be offered to `map`: a channel that would be added
/// raises an event naming its guild, so a new channel must belong to a guild.
pub open spec fn spec_can_add(map: Map<u64, ChannelInfoView>, channel: ChannelView) -> bool {
    map.contains_key(channel.id) || channel.guild_id is Some
}

/// The map after offering `channel` to it, and the event raised: a channel
/// whose id the map already holds is not added and raises nothing.
pub open spec fn spec_try_add(
    map: Map<u64, ChannelInfoView>,
    bot: BotStateView,
    channel: ChannelView,
    entity: u64,
) -> (Map<u64, ChannelInfoView>, Option<ChannelAdded>) {
    if map.contains_key(channel.id) {
        (map, None)
    } else {
        (
            map.insert(channel.id, spec_channel_info(bot, channel)),
            Some(spec_channel_added(entity, channel)),
        )
    }
}

/// After a channel is offered to a map, the map holds a channel with its id;
/// an entry already there is kept as it was and raises no event; a new one
/// raises exactly one event for bot `entity`, naming the channel's guild.
pub proof fn lemma_try_add_then_contains(
    map: Map<u64, ChannelInfoView>,
    bot: BotStateView,
    channel: ChannelView,
    entity: u64,
)
    ensures
        spec_try_add(map, bot, channel, entity).0.contains_key(channel.id),
        map.contains_key(channel.id) ==> spec_try_add(map, bot, channel, entity) == (map, None::<
            ChannelAdded,
        >),
        !map.contains_key(channel.id) ==> spec_try_add(map, bot, channel, entity).0[channel.id]
            == spec_channel_info(bot, channel),
        !map.contains_key(channel.id) && channel.guild_id is Some ==> spec_try_add(
            map,
            bot,
            channel,
            entity,
        ).1 == Some(
            ChannelAdded { entity, guild: channel.guild_id.unwrap(), channel: channel.id },
        ),
{
}

/// Offering a channel with the same id a second time adds nothing, changes
/// nothing and raises no event.
pub proof fn lemma_try_add_idempotent(
    map: Map<u64, ChannelInfoView>,
    bot: BotStateView,
    first: ChannelView,
    second: ChannelView,
    entity: u64,
)
    requires
        first.id == second.id,
    ensures
        ({
            let after = spec_try_add(map, bot, first, entity).0;
            spec_try_add(after, bot, second, entity) == (after, None::<ChannelAdded>)
        }),
{
}

/// The channels a bot knows of, by channel id.
#[derive(Debug)]
pub struct ChannelMap {
    channels: std::collections::HashMap<u64, ChannelInfo>,
}

impl View for ChannelMap {
    type V = Map<u64, ChannelInfoView>;

    closed spec fn view(&self) -> Map<u64, ChannelInfoView> {
        self.channels@.map_values(|info: ChannelInfo| info@)
    }
}

impl ChannelMap {
    /// Every channel is filed under its own id.
    #[verifier::type_invariant]
    closed spec fn filed_by_id(&self) -> bool {
        forall|id: u64| #[trigger]
            self.channels@.contains_key(id) ==> self.channels@[id]@.channel.id == id
    }
}

impl Default for ChannelMap {
    fn default() -> (map: Self)
        ensures
            map@ == Map::<u64, ChannelInfoView>::empty(),
    {
        let map = ChannelMap { channels: std::collections::HashMap::new() };
        assert(map@ =~= Map::<u64, ChannelInfoView>::empty());
        map
    }
}

impl Clone for ChannelMap {
    fn clone(&self) -> (copy: Self)
        ensures
            copy@ == self@,
    {
        proof {
            use_type_invariant(self);
        }
        ChannelMap { channels: self.channels.clone() }
    }
}

impl ChannelMap {
    /// Whether the map holds the channel with this id.
    pub fn contains(&self, id: u64) -> (found: bool)
        ensures
            found == self@.contains_key(id),
    {
        self.channels.contains_key(&id)
    }

    /// Adds the channel unless the map already holds one with its id, and
    /// returns the `ChannelAdded` event of bot `entity` when it was added.
    pub fn try_add(&mut self, entity: u64, bot_state: &BotState, channel: Channel) -> (added: Option<
        ChannelAdded,
    >)
        requires
            spec_can_add(old(self)@, channel@),
        ensures
            (final(self)@, added) == spec_try_add(old(self)@, bot_state@, channel@, entity),
    {
        proof {
            use_type_invariant(&*self);
        }
        if self.channels.contains_key(&channel.id) {
            return None;
        }
        let id = channel.id;
        let event = ChannelAdded::for_channel(entity, &channel);
        let info = ChannelInfo::new(bot_state, channel);
        let mut channels = std::collections::HashMap::new();
        std::mem::swap(&mut channels, &mut self.channels);
        channels.insert(id, info);
        self.channels = channels;
        assert(self@ =~= old(self)@.insert(id, spec_channel_info(bot_state@, channel@)));
        Some(event)
    }

    /// The channel with this id.
    pub fn get(&self, id: u64) -> (found: Result<&ChannelInfo, DiscordError>)
        ensures
            self@.contains_key(id) ==> (found matches Ok(info) && info@ == self@[id]
                && info@.channel.id == id),
            !self@.contains_key(id) ==> found == Err::<&ChannelInfo, DiscordError>(
                DiscordError::MissingChannel(id),
            ),
    {
        proof {
            use_type_invariant(self);
        }
        match self.channels.get(&id) {
            Some(info) => Ok(info),
            None => Err(DiscordError::MissingChannel(id)),
        }
    }

    /// A channel of the given guild whose name matches the bot name, if
    /// there is one. Which of several such channels comes back is not fixed:
    /// it is the first that the map's walk meets.
    pub fn first_name_matches(&self, guild: u64) -> (found: Option<&ChannelInfo>)
        ensures
            found matches Some(info) ==> {
                &&& self@.contains_key(info@.channel.id)
                &&& self@[info@.channel.id] == info@
                &&& info@.channel.guild_id == Some(guild)
                &&& info@.name_matches
            },
            found is None ==> forall|id: u64| #[trigger]
                self@.contains_key(id) ==> !(self@[id].channel.guild_id == Some(guild)
                    && self@[id].name_matches),
    {
        proof {
            use_type_invariant(self);
        }
        let ghost all = vstd::std_specs::hash::spec_values_iter(&self.channels).remaining().unref();
        for info in it: self.channels.values()
            invariant
                it.seq().unref() == all,
                all.to_set() == self.channels@.values(),
                forall|id: u64| #[trigger]
                    self.channels@.contains_key(id) ==> self.channels@[id]@.channel.id == id,
                forall|j: int|
                    0 <= j < it.index() ==> !((#[trigger] it.seq()[j]).channel.guild_id == Some(
                        guild,
                    ) && it.seq()[j].name_matches),
        {
            let matches_guild = match info.channel.guild_id {
                Some(g) => g == guild,
                None => false,
            };
            if matches_guild && info.name_matches {
                proof {
                    let vals = it.seq().unref();
                    assert(vals[it.index()] == *info);
                    assert(all.to_set().contains(*info));
                    let k = choose|k: u64|
                        #[trigger] self.channels@.contains_key(k) && self.channels@[k] == *info;
                    assert(self@.contains_key(k) && self@[k] == info@);
                }
                return Some(info);
            }
        }
        proof {
            assert forall|id: u64| #[trigger] self@.contains_key(id) implies !(
            self@[id].channel.guild_id == Some(guild) && self@[id].name_matches) by {
                let v = self.channels@[id];
                assert(self.channels@.values().contains(v));
                assert(all.to_set().contains(v));
                let j = choose|j: int| 0 <= j < all.len() && all[j] == v;
            }
        }
        None
    }
}

/// A guild as the gateway announces it on connection.
#[derive(Debug, Clone)]
pub enum GuildCreate {
    Available { id: u64, channels: Vec<Channel> },
    Unavailable { id: u64 },
}

/// The views of a list of channels.
pub open spec fn channel_views(channels: Seq<Channel>) -> Seq<ChannelView> {
    channels.map_values(|c: Channel| c@)
}

/// Whether `channels` can be offered to `map` in order: each channel that
/// would be added (its id is neither in the map nor earlier in the list)
/// belongs to a guild.
pub open spec fn spec_can_add_all(map: Map<u64, ChannelInfoView>, channels: Seq<ChannelView>) -> bool {
    forall|i: int|
        0 <= i < channels.len() && (#[trigger] channels[i]).guild_id is None ==> {
            ||| map.contains_key(channels[i].id)
            ||| exists|j: int| 0 <= j < i && channels[j].id == channels[i].id
        }
}

/// The map and the events after offering `channels` to `map` in order: a
/// channel whose id the map already holds is skipped.
pub open spec fn spec_add_channels(
    map: Map<u64, ChannelInfoView>,
    bot: BotStateView,
    channels: Seq<ChannelView>,
    entity: u64,
) -> (Map<u64, ChannelInfoView>, Seq<ChannelAdded>)
    decreases channels.len(),
{
    if channels.len() == 0 {
        (map, seq![])
    } else {
        let (before, events) = spec_add_channels(map, bot, channels.drop_last(), entity);
        let (after, added) = spec_try_add(before, bot, channels.last(), entity);
        match added {
            Some(event) => (after, events.push(event)),
            None => (after, events),
        }
    }
}

/// Adds the channels of an available guild to the bot's channel map and
/// returns the events for the channels that were new; an unavailable guild
/// changes nothing.
pub fn add_guild_create_channels(
    map: &mut ChannelMap,
    bot_state: &BotState,
    guild: &GuildCreate,
    entity: u64,
) -> (added: Vec<ChannelAdded>)
    requires
        guild matches GuildCreate::Available { channels, .. } ==> spec_can_add_all(
            old(map)@,
            channel_views(channels@),
        ),
    ensures
        guild matches GuildCreate::Unavailable { .. } ==> final(map)@ == old(map)@ && added@.len()
            == 0,
        guild matches GuildCreate::Available { channels, .. } ==> (final(map)@, added@)
            == spec_add_channels(old(map)@, bot_state@, channel_views(channels@), entity),
        guild matches GuildCreate::Available { channels, .. } ==> forall|i: int|
            #[trigger] spec_first_new(old(map)@, channel_views(channels@), i)
                ==> final(map)@[channels@[i]@.id] == spec_channel_info(bot_state@, channels@[i]@),
        guild matches GuildCreate::Available { channels, .. } ==> forall|i: int|
            0 <= i < channels@.len() ==> final(map)@.contains_key(#[trigger] channels@[i]@.id),
        forall|id: u64| #[trigger]
            old(map)@.contains_key(id) ==> final(map)@.contains_key(id) && final(map)@[id]
                == old(map)@[id],
{
    let mut added: Vec<ChannelAdded> = Vec::new();
    match guild {
        GuildCreate::Unavailable { .. } => {},
        GuildCreate::Available { channels, .. } => {
            let n = channels.len();
            let ghost views = channel_views(channels@);
            let mut i: usize = 0;
            while i < n
                invariant
                    n == channels@.len(),
                    views == channel_views(channels@),
                    spec_can_add_all(old(map)@, views),
                    i <= n,
                    (map@, added@) == spec_add_channels(
                        old(map)@,
                        bot_state@,
                        views.take(i as int),
                        entity,
                    ),
                decreases n - i,
            {
                let channel = channels[i].clone();
                proof {
                    assert(views.take(i as int + 1).drop_last() =~= views.take(i as int));
                    assert(views.take(i as int + 1).last() == channel@);
                    assert(views[i as int] == channel@);
                    lemma_add_channels_covers(old(map)@, bot_state@, views.take(i as int), entity);
                    if channel@.guild_id is None {
                        if !old(map)@.contains_key(channel@.id) {
                            let j = choose|j: int| 0 <= j < i && views[j].id == views[i as int].id;
                            assert(views.take(i as int)[j] == views[j]);
                        }
                    }
                }
                if let Some(event) = map.try_add(entity, bot_state, channel) {
                    added.push(event);
                }
                i = i + 1;
            }
            assert(views.take(n as int) =~= views);
            proof {
                lemma_add_channels_stores(old(map)@, bot_state@, views, entity);
                lemma_add_channels_covers(old(map)@, bot_state@, views, entity);
                assert forall|i: int| 0 <= i < channels@.len() implies map@.contains_key(
                    #[trigger] channels@[i]@.id,
                ) by {
                    assert(views[i] == channels@[i]@);
                }
                assert forall|i: int| #[trigger] spec_first_new(old(map)@, views, i)
                    implies map@[channels@[i]@.id] == spec_channel_info(bot_state@, channels@[i]@) by {
                    assert(views[i] == channels@[i]@);
                }
            }
        },
    }
    added
}

/// Whether `channels[i]` is the first channel of the list with its id and
/// that id is new to `map`: such a channel is the one that gets added.
pub open spec fn spec_first_new(map: Map<u64, ChannelInfoView>, channels: Seq<ChannelView>, i: int) -> bool {
    &&& 0 <= i < channels.len()
    &&& !map.contains_key(channels[i].id)
    &&& forall|j: int| 0 <= j < i ==> channels[j].id != channels[i].id
}

/// Every channel that a guild adds is stored just as `ChannelInfo::new`
/// makes it for the given bot: the channel itself, owned exactly when its
/// owner is the bot, and matching exactly when its name is the bot's name up
/// to the case of ASCII letters. The map holds no other new ids, and it
/// raises one event per added channel.
pub proof fn lemma_add_channels_stores(
    map: Map<u64, ChannelInfoView>,
    bot: BotStateView,
    channels: Seq<ChannelView>,
    entity: u64,
)
    ensures
        forall|i: int|
            #[trigger] spec_first_new(map, channels, i) ==> {
                let stored = spec_add_channels(map, bot, channels, entity).0[channels[i].id];
                &&& stored == spec_channel_info(bot, channels[i])
                &&& stored.channel == channels[i]
                &&& stored.is_owner <==> channels[i].owner_id == Some(bot.user_id)
                &&& stored.name_matches <==> (channels[i].name matches Some(name) && name.len()
                    == bot.name.len() && forall|k: int|
                    0 <= k < name.len() ==> ascii_lower(#[trigger] name[k]) == ascii_lower(
                        bot.name[k],
                    ))
            },
        forall|id: u64| #[trigger]
            spec_add_channels(map, bot, channels, entity).0.contains_key(id) ==> map.contains_key(id)
                || exists|j: int| 0 <= j < channels.len() && channels[j].id == id,
    decreases channels.len(),
{
    if channels.len() > 0 {
        let rest = channels.drop_last();
        let last = channels.last();
        let n = channels.len() - 1;
        lemma_add_channels_stores(map, bot, rest, entity);
        let before = spec_add_channels(map, bot, rest, entity).0;
        assert forall|i: int| #[trigger] spec_first_new(map, channels, i) implies {
            let stored = spec_add_channels(map, bot, channels, entity).0[channels[i].id];
            &&& stored == spec_channel_info(bot, channels[i])
            &&& stored.channel == channels[i]
            &&& stored.is_owner <==> channels[i].owner_id == Some(bot.user_id)
            &&& stored.name_matches <==> (channels[i].name matches Some(name) && name.len()
                == bot.name.len() && forall|k: int|
                0 <= k < name.len() ==> ascii_lower(#[trigger] name[k]) == ascii_lower(
                    bot.name[k],
                ))
        } by {
            lemma_channel_info(bot, channels[i]);
            if i < n {
                assert(rest[i] == channels[i]);
                assert forall|j: int| 0 <= j < i implies rest[j].id != rest[i].id by {
                    assert(rest[j] == channels[j]);
                }
                assert(spec_first_new(map, rest, i));
                let id = channels[i].id;
                lemma_add_channels_covers(map, bot, rest, entity);
                assert(before.contains_key(rest[i].id));
                assert(before.contains_key(id));
                assert(before[id] == spec_channel_info(bot, channels[i]));
                assert(spec_add_channels(map, bot, channels, entity).0 == spec_try_add(before, bot, last, entity).0);
                if last.id == id {
                    assert(spec_try_add(before, bot, last, entity).0 == before);
                } else {
                    assert(spec_try_add(before, bot, last, entity).0[id] == before[id]);
                }
            } else {
                assert(i == n);
                assert(channels[i] == last);
                if before.contains_key(last.id) {
                    if !map.contains_key(last.id) {
                        let j = choose|j: int| 0 <= j < rest.len() && rest[j].id == last.id;
                        assert(rest[j] == channels[j]);
                        assert(false);
                    }
                }
                assert(spec_add_channels(map, bot, channels, entity).0 == spec_try_add(before, bot, last, entity).0);
            }
        }
        assert forall|id: u64| #[trigger]
            spec_add_channels(map, bot, channels, entity).0.contains_key(id) implies map.contains_key(
            id,
        ) || exists|j: int| 0 <= j < channels.len() && channels[j].id == id by {
            if id != last.id {
                assert(before.contains_key(id));
                if !map.contains_key(id) {
                    let j = choose|j: int| 0 <= j < rest.len() && rest[j].id == id;
                    assert(rest[j] == channels[j]);
                }
            } else {
                assert(channels[n].id == id);
            }
        }
    }
}

/// After a guild's channels are offered to a map, the map holds every one of
/// them, and each entry it held before is unchanged.
pub proof fn lemma_add_channels_covers(
    map: Map<u64, ChannelInfoView>,
    bot: BotStateView,
    channels: Seq<ChannelView>,
    entity: u64,
)
    ensures
        forall|i: int|
            0 <= i < channels.len() ==> spec_add_channels(map, bot, channels, entity).0.contains_key(
                #[trigger] channels[i].id,
            ),
        forall|id: u64| #[trigger]
            map.contains_key(id) ==> spec_add_channels(map, bot, channels, entity).0.contains_key(
                id,
            ) && spec_add_channels(map, bot, channels, entity).0[id] == map[id],
    decreases channels.len(),
{
    if channels.len() > 0 {
        let rest = channels.drop_last();
        lemma_add_channels_covers(map, bot, rest, entity);
        assert forall|i: int| 0 <= i < channels.len() implies spec_add_channels(
            map,
            bot,
            channels,
            entity,
        ).0.contains_key(#[trigger] channels[i].id) by {
            if i < channels.len() - 1 {
                assert(rest[i] == channels[i]);
            }
        }
    }
}

} // verus!
