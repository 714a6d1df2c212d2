//! The gateway connection: the intents the bot asks for and what the event
//! loop does with each event.
use crate::channel::{Channel, ChannelMap};
use twilight_model::gateway::Intents;
use vstd::prelude::*;

verus! {

#[verifier::external_type_specification]
#[verifier::external_body]
pub struct ExIntents(Intents);

/// The bit set of a set of gateway intents, as `Intents::bits` returns it.
pub uninterp spec fn intents_bits(intents: Intents) -> u64;

/// `Intents::GUILDS`, declared in twilight-model as the bit `1`.
#[verifier::external_body]
fn intent_guilds() -> (intents: Intents)
    ensures
        intents_bits(intents) == 1,
{
    Intents::GUILDS
}

/// `Intents::GUILD_MEMBERS`, declared in twilight-model as `1 << 1`.
#[verifier::external_body]
fn intent_guild_members() -> (intents: Intents)
    ensures
        intents_bits(intents) == 2,
{
    Intents::GUILD_MEMBERS
}

/// `Intents::GUILD_PRESENCES`, declared in twilight-model as `1 << 8`.
#[verifier::external_body]
fn intent_guild_presences() -> (intents: Intents)
    ensures
        intents_bits(intents) == 0x100,
{
    Intents::GUILD_PRESENCES
}

/// `Intents::GUILD_MESSAGES`, declared in twilight-model as `1 << 9`.
#[verifier::external_body]
fn intent_guild_messages() -> (intents: Intents)
    ensures
        intents_bits(intents) == 0x200,
{
    Intents::GUILD_MESSAGES
}

/// `Intents::MESSAGE_CONTENT`, declared in twilight-model as `1 << 15`.
#[verifier::external_body]
fn intent_message_content() -> (intents: Intents)
    ensures
        intents_bits(intents) == 0x8000,
{
    Intents::MESSAGE_CONTENT
}

/// The union `a | b` of two intent sets; bitflags' `BitOr` is `union`, whose
/// bits are the bitwise or of the operands' bits.
#[verifier::external_body]
fn intents_union(a: Intents, b: Intents) -> (union: Intents)
    ensures
        intents_bits(union) == intents_bits(a) | intents_bits(b),
{
    a | b
}

/// The gateway intents the bot connects with: guilds, guild members, guild
/// presences, guild messages and message content. `GUILDS` covers most
/// events.
pub fn gateway_intents() -> (intents: Intents)
    ensures
        intents_bits(intents) == 0x8303,
{
    let intents = intents_union(
        intents_union(
            intents_union(intents_union(intent_guilds(), intent_guild_members()), intent_guild_presences()),
            intent_guild_messages(),
        ),
        intent_message_content(),
    );
    assert((((1u64 | 2u64) | 0x100u64) | 0x200u64) | 0x8000u64 == 0x8303u64) by (bit_vector);
    intents
}

/// A gateway event, as far as the event loop tells events apart.
#[derive(Debug, Clone)]
pub enum GatewayEvent {
    Ready,
    GuildCreate,
    PresenceUpdate,
    /// A message was posted in this channel.
    MessageCreate { channel_id: u64 },
    /// An interaction, from this channel when it has one.
    InteractionCreate { channel: Option<Channel> },
    Resumed,
    /// Any other dispatch event.
    OtherDispatch,
    HeartbeatAck,
    Reconnect,
    InvalidateSession,
    Heartbeat,
    Hello,
}

/// What the event loop does with an event.
#[derive(Debug, Clone)]
pub enum GatewayAction {
    TriggerReady,
    TriggerGuildCreate,
    TriggerPresenceUpdate,
    /// Make sure the channel map knows the channel, fetching the channel when
    /// it does not, then trigger the message.
    TriggerMessage { channel_id: u64 },
    /// Add the interaction's channel to the channel map when it has one and
    /// it is new, then trigger the interaction.
    TriggerInteraction { channel: Option<Channel> },
    /// Log a dispatch event that has no handler.
    WarnUnhandled,
    /// Nothing to do: the gateway driver handles the event, or it needs no
    /// handling.
    Ignore,
}

/// What the event loop does with `event`.
pub fn plan_gateway_event(event: GatewayEvent) -> (action: GatewayAction)
    ensures
        event is Ready <==> action is TriggerReady,
        event is GuildCreate <==> action is TriggerGuildCreate,
        event is PresenceUpdate <==> action is TriggerPresenceUpdate,
        event is MessageCreate <==> action is TriggerMessage,
        event matches GatewayEvent::MessageCreate { channel_id } ==> action
            == (GatewayAction::TriggerMessage { channel_id }),
        event is InteractionCreate <==> action is TriggerInteraction,
        event matches GatewayEvent::InteractionCreate { channel } ==> action
            == (GatewayAction::TriggerInteraction { channel }),
        event is OtherDispatch <==> action is WarnUnhandled,
        (event is Resumed || event is HeartbeatAck || event is Reconnect
            || event is InvalidateSession || event is Heartbeat || event is Hello) <==> action is Ignore,
{
    match event {
        GatewayEvent::Ready => GatewayAction::TriggerReady,
        GatewayEvent::GuildCreate => GatewayAction::TriggerGuildCreate,
        GatewayEvent::PresenceUpdate => GatewayAction::TriggerPresenceUpdate,
        GatewayEvent::MessageCreate { channel_id } => GatewayAction::TriggerMessage { channel_id },
        GatewayEvent::InteractionCreate { channel } => GatewayAction::TriggerInteraction { channel },
        GatewayEvent::OtherDispatch => GatewayAction::WarnUnhandled,
        GatewayEvent::Resumed
        | GatewayEvent::HeartbeatAck
        | GatewayEvent::Reconnect
        | GatewayEvent::InvalidateSession
        | GatewayEvent::Heartbeat
        | GatewayEvent::Hello => GatewayAction::Ignore,
    }
}

/// What the event loop does about the channel of an event before it
/// triggers the event.
#[derive(Debug, Clone)]
pub enum ChannelStep {
    /// The event has no channel, or the channel map knows it already.
    Known,
    /// Fetch the channel with this id from Discord, then add it.
    Fetch { channel_id: u64 },
    /// Add this channel, which came with the event.
    Add { channel: Channel },
}

/// What the event loop does about the channel of `action` for a bot with
/// channel map `channels`: a message's channel is fetched, and an
/// interaction's channel is added, only when the map lacks it.
pub fn channel_step(channels: &ChannelMap, action: &GatewayAction) -> (step: ChannelStep)
    ensures
        match action {
            GatewayAction::TriggerMessage { channel_id } => if channels@.contains_key(*channel_id) {
                step is Known
            } else {
                step == (ChannelStep::Fetch { channel_id: *channel_id })
            },
            GatewayAction::TriggerInteraction { channel: Some(c) } => if channels@.contains_key(
                c.id,
            ) {
                step is Known
            } else {
                step matches ChannelStep::Add { channel } && channel@ == c@
            },
            _ => step is Known,
        },
{
    match action {
        GatewayAction::TriggerMessage { channel_id } => {
            if channels.contains(*channel_id) {
                ChannelStep::Known
            } else {
                ChannelStep::Fetch { channel_id: *channel_id }
            }
        },
        GatewayAction::TriggerInteraction { channel: Some(c) } => {
            if channels.contains(c.id) {
                ChannelStep::Known
            } else {
                ChannelStep::Add { channel: c.clone() }
            }
        },
        _ => ChannelStep::Known,
    }
}

} // verus!
