use beet_discord::bot::DiscordBot;
use beet_discord::channel::{Channel, ChannelKind};
use beet_discord::gateway::{
    channel_step, gateway_intents, plan_gateway_event, ChannelStep, GatewayAction, GatewayEvent,
};
use beet_discord::channel::{BotState, ChannelMap};
use beet_discord::meta::{DiscordActorMeta, DiscordThreadMeta};
use twilight_model::gateway::Intents;

#[test]
fn gateway_intents_includes_required_bits() {
    let intents = gateway_intents();
    assert!(intents.contains(Intents::GUILDS), "missing GUILDS");
    assert!(intents.contains(Intents::GUILD_MEMBERS), "missing GUILD_MEMBERS");
    assert!(intents.contains(Intents::GUILD_PRESENCES), "missing GUILD_PRESENCES");
    assert!(intents.contains(Intents::GUILD_MESSAGES), "missing GUILD_MESSAGES");
    assert!(intents.contains(Intents::MESSAGE_CONTENT), "missing MESSAGE_CONTENT");
}

#[test]
fn gateway_intents_are_exactly_these() {
    assert_eq!(gateway_intents().bits(), 0x8303);
    assert!(!gateway_intents().contains(Intents::DIRECT_MESSAGES));
}

#[test]
fn gateway_events_are_routed() {
    assert!(matches!(plan_gateway_event(GatewayEvent::Ready), GatewayAction::TriggerReady));
    assert!(matches!(plan_gateway_event(GatewayEvent::GuildCreate), GatewayAction::TriggerGuildCreate));
    assert!(matches!(plan_gateway_event(GatewayEvent::PresenceUpdate), GatewayAction::TriggerPresenceUpdate));
    assert!(matches!(
        plan_gateway_event(GatewayEvent::MessageCreate { channel_id: 8 }),
        GatewayAction::TriggerMessage { channel_id: 8 }
    ));
    let channel = Channel { id: 4, guild_id: None, owner_id: None, name: None, kind: ChannelKind::Private };
    match plan_gateway_event(GatewayEvent::InteractionCreate { channel: Some(channel) }) {
        GatewayAction::TriggerInteraction { channel: Some(c) } => assert_eq!(c.id, 4),
        _ => panic!("expected an interaction with its channel"),
    }
    assert!(matches!(
        plan_gateway_event(GatewayEvent::InteractionCreate { channel: None }),
        GatewayAction::TriggerInteraction { channel: None }
    ));
    assert!(matches!(plan_gateway_event(GatewayEvent::OtherDispatch), GatewayAction::WarnUnhandled));
    for event in [
        GatewayEvent::Resumed,
        GatewayEvent::HeartbeatAck,
        GatewayEvent::Reconnect,
        GatewayEvent::InvalidateSession,
        GatewayEvent::Heartbeat,
        GatewayEvent::Hello,
    ] {
        assert!(matches!(plan_gateway_event(event), GatewayAction::Ignore));
    }
}

#[test]
fn discord_bot_keeps_its_token() {
    let bot = DiscordBot::new("SECRET-REDACTED".to_string());
    assert_eq!(bot.token(), "SECRET-REDACTED");
}

#[test]
fn meta_constructors() {
    assert_eq!(DiscordThreadMeta::for_channel(3).discord_channel, Some(3));
    assert!(DiscordThreadMeta::for_channel(3).is_channel(3));
    assert!(!DiscordThreadMeta::default().is_channel(3));
    assert_eq!(DiscordActorMeta::for_user(4).discord_user, Some(4));
    assert!(DiscordActorMeta::for_user(4).is_user(4));
    assert!(!DiscordActorMeta::for_user(4).is_user(5));
}

#[test]
fn channel_steps_fetch_or_add_only_unknown_channels() {
    let bot = BotState::new(1, "b".to_string());
    let mut map = ChannelMap::default();
    map.try_add(2, &bot, Channel { id: 4, guild_id: Some(9), owner_id: None, name: None, kind: ChannelKind::GuildText });
    assert!(matches!(channel_step(&map, &GatewayAction::TriggerMessage { channel_id: 4 }), ChannelStep::Known));
    assert!(matches!(
        channel_step(&map, &GatewayAction::TriggerMessage { channel_id: 5 }),
        ChannelStep::Fetch { channel_id: 5 }
    ));
    let known = Channel { id: 4, guild_id: Some(9), owner_id: None, name: None, kind: ChannelKind::GuildText };
    assert!(matches!(
        channel_step(&map, &GatewayAction::TriggerInteraction { channel: Some(known) }),
        ChannelStep::Known
    ));
    let new = Channel { id: 6, guild_id: Some(9), owner_id: None, name: None, kind: ChannelKind::GuildText };
    match channel_step(&map, &GatewayAction::TriggerInteraction { channel: Some(new) }) {
        ChannelStep::Add { channel } => assert_eq!(channel.id, 6),
        _ => panic!("expected the new channel to be added"),
    }
    assert!(matches!(
        channel_step(&map, &GatewayAction::TriggerInteraction { channel: None }),
        ChannelStep::Known
    ));
    assert!(matches!(channel_step(&map, &GatewayAction::TriggerReady), ChannelStep::Known));
}
