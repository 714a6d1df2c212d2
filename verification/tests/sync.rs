use beet_discord::channel::{BotState, Channel, ChannelKind, ChannelMap, DiscordError};
use beet_discord::meta::{DiscordActorMeta, DiscordPostMeta, DiscordStatus, DiscordThreadMeta};
use beet_discord::query::Message;
use beet_discord::sync::{
    message_texts_of, accepts_message, begin_delivery, finish_delivery, author_kind, collect_reply, find_actor_for_user, find_thread_for_channel,
    oneshot_messages, plan_delivery, post_needs_delivery, thread_store_path, thread_title,
    ActorRecord, AuthorKind, NewThread, ReplyPart, ThreadRecord, MAX_MESSAGE_LEN,
    THREAD_AUTO_ARCHIVE_MINUTES,
};

fn message(author_id: u64, is_bot: bool) -> Message {
    Message {
        id: 77,
        channel_id: 10,
        author_id,
        author_name: "someone".to_string(),
        author_is_bot: is_bot,
        content: "hello".to_string(),
        mentions: vec![],
    }
}

#[test]
fn own_messages_are_skipped() {
    let bot = BotState::new(5, "b".to_string());
    assert!(!accepts_message(&bot, &message(5, true)));
    assert!(accepts_message(&bot, &message(6, false)));
}

#[test]
fn new_thread_from_message() {
    let t = NewThread::from_message(&message(1, false));
    assert_eq!(t.channel_id, 10);
    assert_eq!(t.message_id, 77);
    assert_eq!(t.name, "New Thread");
    assert_eq!(t.auto_archive_minutes, 60);
    assert_eq!(THREAD_AUTO_ARCHIVE_MINUTES, 60);
}

#[test]
fn finds_first_thread_of_channel() {
    let threads = vec![
        ThreadRecord { entity: 1, meta: DiscordThreadMeta { discord_channel: None } },
        ThreadRecord { entity: 2, meta: DiscordThreadMeta { discord_channel: Some(10) } },
        ThreadRecord { entity: 3, meta: DiscordThreadMeta { discord_channel: Some(11) } },
        ThreadRecord { entity: 4, meta: DiscordThreadMeta { discord_channel: Some(10) } },
    ];
    assert_eq!(find_thread_for_channel(&threads, 10), Some(2));
    assert_eq!(find_thread_for_channel(&threads, 11), Some(3));
    assert_eq!(find_thread_for_channel(&threads, 12), None);
    assert_eq!(find_thread_for_channel(&vec![], 10), None);
}

#[test]
fn finds_first_actor_of_user() {
    let actors = vec![
        ActorRecord { entity: 1, meta: DiscordActorMeta { discord_user: Some(9) } },
        ActorRecord { entity: 2, meta: DiscordActorMeta { discord_user: None } },
        ActorRecord { entity: 3, meta: DiscordActorMeta { discord_user: Some(8) } },
        ActorRecord { entity: 4, meta: DiscordActorMeta { discord_user: Some(8) } },
    ];
    assert_eq!(find_actor_for_user(&actors, 8), Some(3));
    assert_eq!(find_actor_for_user(&actors, 9), Some(1));
    assert_eq!(find_actor_for_user(&actors, 7), None);
}

#[test]
fn thread_store_path_is_per_channel() {
    assert_eq!(thread_store_path(42), "channels/42.json");
    assert_eq!(thread_store_path(0), "channels/0.json");
    assert_eq!(thread_store_path(1234567890123456789), "channels/1234567890123456789.json");
}

#[test]
fn thread_title_is_channel_name_or_default() {
    let bot = BotState::new(5, "b".to_string());
    let mut map = ChannelMap::default();
    map.try_add(1, &bot, Channel { id: 1, guild_id: Some(8), owner_id: None, name: Some("general".to_string()), kind: ChannelKind::GuildText });
    map.try_add(1, &bot, Channel { id: 2, guild_id: Some(8), owner_id: None, name: None, kind: ChannelKind::Private });
    assert_eq!(thread_title(&map, 1), Ok("general".to_string()));
    assert_eq!(thread_title(&map, 2), Ok("New Thread".to_string()));
    assert_eq!(thread_title(&map, 3), Err(DiscordError::MissingChannel(3)));
}

#[test]
fn author_kind_by_bot_flag() {
    assert_eq!(author_kind(&message(1, true)), AuthorKind::Agent);
    assert_eq!(author_kind(&message(1, false)), AuthorKind::User);
}

#[test]
fn posts_needing_delivery() {
    let fresh = DiscordPostMeta::default();
    assert!(post_needs_delivery(false, &fresh, Some("text")));
    assert!(!post_needs_delivery(true, &fresh, Some("text")));
    assert!(!post_needs_delivery(false, &fresh, Some("")));
    assert!(!post_needs_delivery(false, &fresh, None));
    assert!(!post_needs_delivery(false, &DiscordPostMeta::sending(), Some("text")));
    assert!(!post_needs_delivery(false, &DiscordPostMeta::incoming(), Some("text")));
    assert!(!post_needs_delivery(false, &DiscordPostMeta::delivered(vec![1]), Some("text")));
}

#[test]
fn delivery_only_for_bot_posts_with_channel() {
    let bot_actor = DiscordActorMeta::for_user(5);
    let other_actor = DiscordActorMeta::for_user(6);
    let thread = DiscordThreadMeta::for_channel(10);
    let plan = plan_delivery("one\ntwo", &bot_actor, 5, &thread).unwrap();
    assert_eq!(plan.channel_id, 10);
    assert_eq!(plan.chunks, vec!["one\ntwo\n".to_string()]);
    assert!(plan_delivery("one", &other_actor, 5, &thread).is_none());
    assert!(plan_delivery("one", &DiscordActorMeta::default(), 5, &thread).is_none());
    assert!(plan_delivery("one", &bot_actor, 5, &DiscordThreadMeta::default()).is_none());
}

#[test]
fn long_delivery_is_split_at_message_limit() {
    let line = "x".repeat(1500);
    let body = format!("{line}\n{line}");
    let plan = plan_delivery(&body, &DiscordActorMeta::for_user(5), 5, &DiscordThreadMeta::for_channel(1)).unwrap();
    assert_eq!(plan.chunks.len(), 2);
    assert!(plan.chunks.iter().all(|c| c.len() <= MAX_MESSAGE_LEN));
    assert_eq!(MAX_MESSAGE_LEN, 2000);
}

#[test]
fn oneshot_messages_reply_with_every_chunk() {
    let line = "y".repeat(1500);
    let body = format!("{line}\n{line}\nend");
    let messages = oneshot_messages(&body, 3, Some(99));
    assert_eq!(messages.len(), 2);
    assert!(messages.iter().all(|m| m.channel_id == 3 && m.reply_to == Some(99)));
    assert_eq!(messages[0].content, format!("{line}\n"));
    assert_eq!(messages[1].content, format!("{line}\nend\n"));
    let messages = oneshot_messages("short", 3, None);
    assert_eq!(messages.len(), 1);
    assert_eq!(messages[0].reply_to, None);
    assert_eq!(messages[0].content, "short\n");
}

#[test]
fn reply_joins_displayed_posts() {
    let parts = vec![
        ReplyPart { is_display: true, body: "first".to_string() },
        ReplyPart { is_display: false, body: "thinking".to_string() },
        ReplyPart { is_display: true, body: "second".to_string() },
    ];
    assert_eq!(collect_reply(&parts), "first\nsecond");
    assert_eq!(collect_reply(&vec![]), "");
}

#[test]
fn post_meta_status_values() {
    assert_eq!(DiscordPostMeta::incoming().discord_status, Some(DiscordStatus::Complete));
    assert_eq!(DiscordPostMeta::sending().discord_status, Some(DiscordStatus::Sending));
    let d = DiscordPostMeta::delivered(vec![4, 5]);
    assert_eq!(d.discord_status, Some(DiscordStatus::Complete));
    assert_eq!(d.discord_messages, Some(vec![4, 5]));
    assert!(d.is_handled());
    assert!(!DiscordPostMeta::default().is_handled());
}

#[test]
fn delivery_moves_status_forward_and_keeps_other_fields() {
    let fresh = DiscordPostMeta::default();
    let started = begin_delivery(&fresh);
    assert_eq!(started.discord_status, Some(DiscordStatus::Sending));
    assert_eq!(started.discord_messages, None);
    assert!(!post_needs_delivery(false, &started, Some("text")));
    let finished = finish_delivery(&started, vec![11, 12, 13]);
    assert_eq!(finished.discord_status, Some(DiscordStatus::Complete));
    assert_eq!(finished.discord_messages, Some(vec![11, 12, 13]));
    assert!(!post_needs_delivery(false, &finished, Some("text")));
    // Marking as sending keeps ids already recorded.
    let with_ids = DiscordPostMeta { discord_status: None, discord_messages: Some(vec![5]) };
    let started = begin_delivery(&with_ids);
    assert_eq!(started.discord_status, Some(DiscordStatus::Sending));
    assert_eq!(started.discord_messages, Some(vec![5]));
}

#[test]
fn merged_writes_only_set_fields() {
    let base = DiscordPostMeta { discord_status: Some(DiscordStatus::Sending), discord_messages: Some(vec![1]) };
    let m = base.merged(&DiscordPostMeta::default());
    assert_eq!(m.discord_status, Some(DiscordStatus::Sending));
    assert_eq!(m.discord_messages, Some(vec![1]));
    let m = base.merged(&DiscordPostMeta::delivered(vec![2, 3]));
    assert_eq!(m.discord_status, Some(DiscordStatus::Complete));
    assert_eq!(m.discord_messages, Some(vec![2, 3]));
}

#[test]
fn made_thread_is_found_again() {
    let mut threads = vec![ThreadRecord { entity: 1, meta: DiscordThreadMeta { discord_channel: Some(3) } }];
    assert_eq!(find_thread_for_channel(&threads, 10), None);
    threads.push(ThreadRecord { entity: 9, meta: DiscordThreadMeta::for_channel(10) });
    assert_eq!(find_thread_for_channel(&threads, 10), Some(9));
    threads.push(ThreadRecord { entity: 12, meta: DiscordThreadMeta::for_channel(10) });
    assert_eq!(find_thread_for_channel(&threads, 10), Some(9));
    threads.insert(0, ThreadRecord { entity: 4, meta: DiscordThreadMeta::default() });
    assert_eq!(find_thread_for_channel(&threads, 10), Some(9));
}

#[test]
fn long_first_line_sends_no_blank_message() {
    let line = "z".repeat(2500);
    let body = format!("{line}\nshort");
    let plan = plan_delivery(&body, &DiscordActorMeta::for_user(5), 5, &DiscordThreadMeta::for_channel(1)).unwrap();
    assert_eq!(plan.chunks, vec![format!("{line}\n"), "short\n".to_string()]);
    let messages = oneshot_messages(&line, 3, None);
    assert_eq!(messages.len(), 1);
    assert_eq!(messages[0].content, format!("{line}\n"));
    assert_eq!(message_texts_of(&"q".repeat(2000)), vec![format!("{}\n", "q".repeat(2000))]);
    assert_eq!(message_texts_of(""), Vec::<String>::new());
}
