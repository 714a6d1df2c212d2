use beet_discord::channel::{
    add_guild_create_channels, BotState, Channel, ChannelAdded, ChannelInfo, ChannelKind,
    ChannelMap, DiscordError, GuildCreate,
};
use twilight_model::channel::ChannelType;
use twilight_model::gateway::payload::incoming::GuildCreate as TwilightGuildCreate;
use twilight_model::guild::UnavailableGuild;

fn make_unavailable_guild(id: u64) -> TwilightGuildCreate {
    TwilightGuildCreate::Unavailable(UnavailableGuild {
        id: twilight_model::id::Id::new(id),
        unavailable: true,
    })
}

fn guild_json(id: &str, name: &str, channels: &str) -> String {
    format!(
        r#"{{
            "id": "{id}",
            "name": "{name}",
            "icon": null,
            "owner_id": "1",
            "channels": {channels},
            "members": [],
            "roles": [],
            "emojis": [],
            "features": [],
            "afk_timeout": 300,
            "preferred_locale": "en-US",
            "premium_progress_bar_enabled": false,
            "verification_level": 0,
            "default_message_notifications": 0,
            "explicit_content_filter": 0,
            "mfa_level": 0,
            "premium_tier": 0,
            "nsfw_level": 0,
            "system_channel_flags": 0
        }}"#
    )
}

const GENERAL_CHANNEL: &str = r#"[
    {
        "id": "42",
        "type": 0,
        "guild_id": "1",
        "position": 0,
        "permission_overwrites": [],
        "name": "general",
        "nsfw": false,
        "rate_limit_per_user": 0,
        "topic": null,
        "last_message_id": null,
        "parent_id": null,
        "last_pin_timestamp": null
    }
]"#;

fn parse_guild(json: &str) -> twilight_model::guild::Guild {
    let value: serde_json::Value = serde_json::from_str(json).unwrap();
    serde_json::from_value(value).unwrap()
}

fn make_available_guild_no_text_channels(name: &str) -> TwilightGuildCreate {
    TwilightGuildCreate::Available(parse_guild(&guild_json("123", name, "[]")))
}

fn kind_of(kind: ChannelType) -> ChannelKind {
    match kind {
        ChannelType::GuildText => ChannelKind::GuildText,
        ChannelType::Private => ChannelKind::Private,
        ChannelType::GuildVoice => ChannelKind::GuildVoice,
        ChannelType::Group => ChannelKind::Group,
        ChannelType::GuildCategory => ChannelKind::GuildCategory,
        ChannelType::GuildAnnouncement => ChannelKind::GuildAnnouncement,
        ChannelType::AnnouncementThread => ChannelKind::AnnouncementThread,
        ChannelType::PublicThread => ChannelKind::PublicThread,
        ChannelType::PrivateThread => ChannelKind::PrivateThread,
        ChannelType::GuildStageVoice => ChannelKind::GuildStageVoice,
        ChannelType::GuildDirectory => ChannelKind::GuildDirectory,
        ChannelType::GuildForum => ChannelKind::GuildForum,
        ChannelType::GuildMedia => ChannelKind::GuildMedia,
        other => ChannelKind::Unknown(u8::from(other)),
    }
}

fn channel_of(channel: &twilight_model::channel::Channel) -> Channel {
    Channel {
        id: channel.id.get(),
        guild_id: channel.guild_id.map(|g| g.get()),
        owner_id: channel.owner_id.map(|o| o.get()),
        name: channel.name.clone(),
        kind: kind_of(channel.kind),
    }
}

fn guild_create_of(guild_create: &TwilightGuildCreate) -> GuildCreate {
    match guild_create {
        TwilightGuildCreate::Available(g) => GuildCreate::Available {
            id: g.id.get(),
            channels: g.channels.iter().map(channel_of).collect(),
        },
        TwilightGuildCreate::Unavailable(g) => GuildCreate::Unavailable { id: g.id.get() },
    }
}

fn channel(id: u64, guild: Option<u64>, owner: Option<u64>, name: Option<&str>, kind: ChannelKind) -> Channel {
    Channel { id, guild_id: guild, owner_id: owner, name: name.map(|n| n.to_string()), kind }
}

fn bot() -> BotState {
    BotState::new(7, "My-Bot".to_string())
}

#[test]
fn unavailable_guild_is_handled_gracefully() {
    // Should not panic; simply returns early.
    let gc = make_unavailable_guild(999);
    assert!(matches!(gc, TwilightGuildCreate::Unavailable(_)));
    let mut map = ChannelMap::default();
    let added = add_guild_create_channels(&mut map, &bot(), &guild_create_of(&gc), 5);
    assert!(added.is_empty());
    assert!(!map.contains(999));
}

#[test]
fn available_guild_with_no_channels_leaves_greet_channel_unset() {
    let gc = make_available_guild_no_text_channels("Empty");
    let guild = match &gc {
        TwilightGuildCreate::Available(g) => g,
        _ => panic!("expected available guild"),
    };
    let text_ch = guild.channels.iter().find(|c| c.kind == ChannelType::GuildText);
    assert!(text_ch.is_none(), "expected no text channel in this fixture");
    let mut map = ChannelMap::default();
    let added = add_guild_create_channels(&mut map, &bot(), &guild_create_of(&gc), 5);
    assert!(added.is_empty());
    assert!(map.first_name_matches(123).is_none());
}

#[test]
fn available_guild_first_text_channel_would_be_selected() {
    let guild = parse_guild(&guild_json("1", "My Server", GENERAL_CHANNEL));

    let text_ch = guild.channels.iter().find(|c| c.kind == ChannelType::GuildText);
    assert!(text_ch.is_some(), "should find the general text channel");
    assert_eq!(text_ch.unwrap().id.get(), 42);

    let mut map = ChannelMap::default();
    let gc = guild_create_of(&TwilightGuildCreate::Available(guild));
    let added = add_guild_create_channels(&mut map, &bot(), &gc, 5);
    assert_eq!(added, vec![ChannelAdded { entity: 5, guild: 1, channel: 42 }]);
    let info = map.get(42).unwrap();
    assert!(info.is_text());
    assert!(!info.name_matches());
}

#[test]
fn channel_info_matches_bot_name_ignoring_ascii_case() {
    let info = ChannelInfo::new(&bot(), channel(1, Some(2), None, Some("my-bot"), ChannelKind::GuildText));
    assert!(info.name_matches());
    assert!(!info.is_owner());
    let info = ChannelInfo::new(&bot(), channel(1, Some(2), None, Some("my-bot-2"), ChannelKind::GuildText));
    assert!(!info.name_matches());
    let info = ChannelInfo::new(&bot(), channel(1, Some(2), None, None, ChannelKind::GuildText));
    assert!(!info.name_matches());
}

#[test]
fn channel_info_owner_is_the_bot() {
    let info = ChannelInfo::new(&bot(), channel(3, None, Some(7), Some("x"), ChannelKind::PublicThread));
    assert!(info.is_owner());
    assert_eq!(info.id(), 3);
    let info = ChannelInfo::new(&bot(), channel(3, None, Some(8), Some("x"), ChannelKind::PublicThread));
    assert!(!info.is_owner());
    let info = ChannelInfo::new(&bot(), channel(3, None, None, Some("x"), ChannelKind::PublicThread));
    assert!(!info.is_owner());
}

#[test]
fn channel_info_kinds() {
    let kinds = [
        (ChannelKind::GuildText, true, false),
        (ChannelKind::Private, true, false),
        (ChannelKind::PublicThread, false, true),
        (ChannelKind::PrivateThread, false, true),
        (ChannelKind::AnnouncementThread, false, false),
        (ChannelKind::GuildVoice, false, false),
        (ChannelKind::GuildForum, false, false),
        (ChannelKind::Unknown(99), false, false),
    ];
    for (kind, text, thread) in kinds {
        let info = ChannelInfo::new(&bot(), channel(1, None, None, None, kind));
        assert_eq!(info.is_text(), text);
        assert_eq!(info.is_thread(), thread);
    }
}

#[test]
fn try_add_adds_once() {
    let mut map = ChannelMap::default();
    assert!(!map.contains(10));
    assert_eq!(map.get(10).err(), Some(DiscordError::MissingChannel(10)));
    assert_eq!(
        map.try_add(3, &bot(), channel(10, Some(1), None, Some("general"), ChannelKind::GuildText)),
        Some(ChannelAdded { entity: 3, guild: 1, channel: 10 })
    );
    assert!(map.contains(10));
    // A second channel with the same id is not added and raises nothing; the first stays.
    assert_eq!(map.try_add(3, &bot(), channel(10, Some(1), None, Some("my-bot"), ChannelKind::GuildText)), None);
    // A known channel may be offered again without a guild.
    assert_eq!(map.try_add(3, &bot(), channel(10, None, None, None, ChannelKind::Private)), None);
    let info = map.get(10).unwrap();
    assert_eq!(info.channel().name.as_deref(), Some("general"));
    assert!(!info.name_matches());
}

#[test]
fn first_name_matches_finds_the_bot_channel_of_the_guild() {
    let mut map = ChannelMap::default();
    map.try_add(1, &bot(), channel(1, Some(100), None, Some("general"), ChannelKind::GuildText));
    map.try_add(1, &bot(), channel(2, Some(100), None, Some("MY-BOT"), ChannelKind::GuildText));
    map.try_add(1, &bot(), channel(3, Some(200), None, Some("my-bot"), ChannelKind::GuildText));
    assert_eq!(map.first_name_matches(100).map(|i| i.id()), Some(2));
    assert_eq!(map.first_name_matches(200).map(|i| i.id()), Some(3));
    assert!(map.first_name_matches(300).is_none());
}

#[test]
fn guild_channels_are_added_with_events_for_new_ones() {
    let mut map = ChannelMap::default();
    map.try_add(1, &bot(), channel(2, Some(9), None, Some("old"), ChannelKind::GuildText));
    let gc = GuildCreate::Available {
        id: 9,
        channels: vec![
            channel(1, Some(9), None, Some("a"), ChannelKind::GuildText),
            channel(2, Some(9), None, Some("b"), ChannelKind::GuildText),
            channel(3, Some(9), None, Some("c"), ChannelKind::GuildVoice),
            channel(2, None, None, Some("known"), ChannelKind::GuildText),
            channel(1, Some(9), None, Some("dup"), ChannelKind::GuildText),
        ],
    };
    let added = add_guild_create_channels(&mut map, &bot(), &gc, 77);
    assert_eq!(
        added,
        vec![
            ChannelAdded { entity: 77, guild: 9, channel: 1 },
            ChannelAdded { entity: 77, guild: 9, channel: 3 },
        ]
    );
    assert_eq!(map.get(1).unwrap().channel().name.as_deref(), Some("a"));
    assert_eq!(map.get(2).unwrap().channel().name.as_deref(), Some("old"));
    assert!(map.contains(3));
}

#[test]
fn channel_added_names_the_guild() {
    let ev = ChannelAdded::for_channel(4, &channel(5, Some(6), None, None, ChannelKind::GuildText));
    assert_eq!(ev, ChannelAdded { entity: 4, guild: 6, channel: 5 });
}

#[test]
fn bot_state_getters() {
    let b = bot();
    assert_eq!(b.user_id(), 7);
    assert_eq!(b.name(), "My-Bot");
}

#[test]
fn channel_info_display_text() {
    let info = ChannelInfo::new(&bot(), channel(42, None, None, Some("general"), ChannelKind::GuildText));
    assert_eq!(info.to_display_string(), "ChannelInfo { id: 42, name: Some(\"general\") }");
    let info = ChannelInfo::new(&bot(), channel(7, None, None, None, ChannelKind::GuildText));
    assert_eq!(info.to_display_string(), "ChannelInfo { id: 7, name: None }");
}
