//! The decisions that keep the bot's threads in step with Discord: which
//! messages are taken in, where they go, and which posts are sent out.
use crate::channel::{BotState, ChannelInfoView, ChannelMap, DiscordError};
use crate::meta::{
    spec_is_handled, spec_merge, DiscordActorMeta, DiscordPostMeta, DiscordPostMetaView,
    DiscordStatus, DiscordThreadMeta,
};
use crate::query::Message;
use crate::text::{chunk_message, chunks_of, decimal, push_decimal, utf8_len};
use vstd::prelude::*;
use vstd::string::StringExecFns;

verus! {

/// The most bytes Discord takes in one message.
pub const MAX_MESSAGE_LEN: usize = 2000;

/// How long, in minutes, a thread opened by the bot stays active without
/// messages.
pub const THREAD_AUTO_ARCHIVE_MINUTES: u16 = 60;

/// The bot takes in every message but its own.
pub fn accepts_message(bot_state: &BotState, message: &Message) -> (accepted: bool)
    ensures
        accepted == (message@.author_id != bot_state@.user_id),
{
    message.author_id != bot_state.user_id()
}

/// The name the bot gives a thread it opens, and a thread whose channel has
/// no name.
pub open spec fn default_thread_name() -> Seq<char> {
    seq!['N', 'e', 'w', ' ', 'T', 'h', 'r', 'e', 'a', 'd']
}

fn new_thread_name() -> (name: String)
    ensures
        name@ == default_thread_name(),
{
    proof {
        reveal_strlit("New Thread");
    }
    let name = String::from_str("New Thread");
    assert(name@ =~= default_thread_name());
    name
}

/// A request to open a thread from a message.
#[derive(Debug, Clone)]
pub struct NewThread {
    pub channel_id: u64,
    pub message_id: u64,
    pub name: String,
    pub auto_archive_minutes: u16,
}

impl NewThread {
    /// The thread the bot opens for `message`.
    pub fn from_message(message: &Message) -> (thread: Self)
        ensures
            thread.channel_id == message@.channel_id,
            thread.message_id == message@.id,
            thread.name@ == default_thread_name(),
            thread.auto_archive_minutes == THREAD_AUTO_ARCHIVE_MINUTES,
    {
        NewThread {
            channel_id: message.channel_id,
            message_id: message.id,
            name: new_thread_name(),
            auto_archive_minutes: THREAD_AUTO_ARCHIVE_MINUTES,
        }
    }
}

/// A thread in memory with its Discord metadata.
#[derive(Debug, Clone, Copy)]
pub struct ThreadRecord {
    pub entity: u64,
    pub meta: DiscordThreadMeta,
}

/// The entity of the first thread, in the order given, backed by
/// `channel_id`.
pub open spec fn spec_first_thread(threads: Seq<ThreadRecord>, channel_id: u64) -> Option<u64>
    decreases threads.len(),
{
    if threads.len() == 0 {
        None
    } else if threads[0].meta.discord_channel == Some(channel_id) {
        Some(threads[0].entity)
    } else {
        spec_first_thread(threads.drop_first(), channel_id)
    }
}

/// The first thread lookup is the first record naming the channel: none
/// before index `i` does, and record `i` does.
pub proof fn lemma_first_thread_at(threads: Seq<ThreadRecord>, channel_id: u64, i: int)
    requires
        0 <= i <= threads.len(),
        forall|j: int| 0 <= j < i ==> threads[j].meta.discord_channel != Some(channel_id),
    ensures
        spec_first_thread(threads, channel_id) == spec_first_thread(threads.skip(i), channel_id),
    decreases i,
{
    if i > 0 {
        let rest = threads.drop_first();
        assert forall|j: int| 0 <= j < i - 1 implies rest[j].meta.discord_channel != Some(
            channel_id,
        ) by {
            assert(rest[j] == threads[j + 1]);
        }
        lemma_first_thread_at(rest, channel_id, i - 1);
        assert(rest.skip(i - 1) =~= threads.skip(i));
        assert(threads[0].meta.discord_channel != Some(channel_id));
    } else {
        assert(threads.skip(0) =~= threads);
    }
}

/// The first thread, in the order given, backed by `channel_id`.
pub fn find_thread_for_channel(threads: &Vec<ThreadRecord>, channel_id: u64) -> (found: Option<
    u64,
>)
    ensures
        found == spec_first_thread(threads@, channel_id),
{
    let n = threads.len();
    let mut i: usize = 0;
    while i < n
        invariant
            n == threads@.len(),
            i <= n,
            forall|j: int| 0 <= j < i ==> threads@[j].meta.discord_channel != Some(channel_id),
        decreases n - i,
    {
        if threads[i].meta.is_channel(channel_id) {
            proof {
                lemma_first_thread_at(threads@, channel_id, i as int);
                assert(threads@.skip(i as int)[0] == threads@[i as int]);
            }
            return Some(threads[i].entity);
        }
        i = i + 1;
    }
    proof {
        lemma_first_thread_at(threads@, channel_id, n as int);
        assert(threads@.skip(n as int).len() == 0);
    }
    None
}

/// When exactly one thread in memory is backed by the channel, the lookup
/// finds that thread, wherever it stands in the list.
pub proof fn lemma_single_thread_is_found(threads: Seq<ThreadRecord>, channel_id: u64, i: int)
    requires
        0 <= i < threads.len(),
        threads[i].meta.discord_channel == Some(channel_id),
        forall|j: int|
            0 <= j < threads.len() && j != i ==> threads[j].meta.discord_channel != Some(
                channel_id,
            ),
    ensures
        spec_first_thread(threads, channel_id) == Some(threads[i].entity),
{
    lemma_first_thread_at(threads, channel_id, i);
    assert(threads.skip(i)[0] == threads[i]);
}

/// Thread reuse: when a lookup for a channel finds no thread and a thread
/// backed by that channel is made, the next lookup finds that thread; a
/// thread once found stays found when more threads come.
pub proof fn lemma_made_thread_is_reused(
    threads: Seq<ThreadRecord>,
    channel_id: u64,
    made: u64,
    more: ThreadRecord,
)
    ensures
        spec_first_thread(threads, channel_id) is None ==> spec_first_thread(
            threads.push(ThreadRecord { entity: made, meta: DiscordThreadMeta { discord_channel: Some(channel_id) } }),
            channel_id,
        ) == Some(made),
        spec_first_thread(threads, channel_id) matches Some(found) ==> spec_first_thread(
            threads.push(more),
            channel_id,
        ) == Some(found),
    decreases threads.len(),
{
    if threads.len() > 0 {
        lemma_made_thread_is_reused(threads.drop_first(), channel_id, made, more);
        let made_record = ThreadRecord { entity: made, meta: DiscordThreadMeta { discord_channel: Some(channel_id) } };
        assert(threads.push(made_record).drop_first() =~= threads.drop_first().push(made_record));
        assert(threads.push(more).drop_first() =~= threads.drop_first().push(more));
        assert(threads.push(made_record)[0] == threads[0]);
        assert(threads.push(more)[0] == threads[0]);
    } else {
        let made_record = ThreadRecord { entity: made, meta: DiscordThreadMeta { discord_channel: Some(channel_id) } };
        assert(threads.push(made_record)[0] == made_record);
    }
}

/// Where the bot stores the thread of a channel: `channels/<id>.json`.
pub open spec fn spec_thread_store_path(channel_id: u64) -> Seq<char> {
    seq!['c', 'h', 'a', 'n', 'n', 'e', 'l', 's', '/'] + decimal(channel_id as nat) + seq![
        '.',
        'j',
        's',
        'o',
        'n',
    ]
}

/// Where the bot stores the thread of a channel.
pub fn thread_store_path(channel_id: u64) -> (path: String)
    ensures
        path@ == spec_thread_store_path(channel_id),
{
    proof {
        reveal_strlit("channels/");
        reveal_strlit(".json");
    }
    let mut path = String::from_str("channels/");
    push_decimal(&mut path, channel_id);
    path.append(".json");
    path
}

/// The title of the thread for a channel: the channel's name, or the
/// default name when it has none.
pub open spec fn spec_thread_title(info: ChannelInfoView) -> Seq<char> {
    match info.channel.name {
        Some(name) => name,
        None => default_thread_name(),
    }
}

/// The title of the thread for channel `channel_id`.
pub fn thread_title(channels: &ChannelMap, channel_id: u64) -> (title: Result<String, DiscordError>)
    ensures
        channels@.contains_key(channel_id) ==> (title matches Ok(t) && t@ == spec_thread_title(
            channels@[channel_id],
        )),
        !channels@.contains_key(channel_id) ==> title == Err::<String, DiscordError>(
            DiscordError::MissingChannel(channel_id),
        ),
{
    let info = channels.get(channel_id)?;
    match &info.channel().name {
        Some(name) => Ok(name.clone()),
        None => Ok(new_thread_name()),
    }
}

/// An actor of a thread with its Discord metadata.
#[derive(Debug, Clone, Copy)]
pub struct ActorRecord {
    pub entity: u64,
    pub meta: DiscordActorMeta,
}

/// The first actor, in the order given, that stands for Discord user
/// `user_id`.
pub fn find_actor_for_user(actors: &Vec<ActorRecord>, user_id: u64) -> (found: Option<u64>)
    ensures
        found is None ==> forall|i: int|
            0 <= i < actors@.len() ==> (#[trigger] actors@[i]).meta.discord_user != Some(user_id),
        found matches Some(entity) ==> exists|i: int|
            0 <= i < actors@.len() && (#[trigger] actors@[i]).entity == entity
                && actors@[i].meta.discord_user == Some(user_id) && forall|j: int|
                0 <= j < i ==> actors@[j].meta.discord_user != Some(user_id),
{
    let n = actors.len();
    let mut i: usize = 0;
    while i < n
        invariant
            n == actors@.len(),
            i <= n,
            forall|j: int| 0 <= j < i ==> actors@[j].meta.discord_user != Some(user_id),
        decreases n - i,
    {
        if actors[i].meta.is_user(user_id) {
            return Some(actors[i].entity);
        }
        i = i + 1;
    }
    None
}

/// The role of the actor that stands for a message's author.
#[derive(Debug, Clone, Copy, PartialEq, Eq, Structural)]
pub enum AuthorKind {
    User,
    Agent,
}

/// Bot accounts become agents, everyone else users.
pub fn author_kind(message: &Message) -> (kind: AuthorKind)
    ensures
        kind == (if message@.author_is_bot {
            AuthorKind::Agent
        } else {
            AuthorKind::User
        }),
{
    if message.author_is_bot {
        AuthorKind::Agent
    } else {
        AuthorKind::User
    }
}

/// Whether a post still has to go out to Discord: it is finished, not yet
/// sent nor being sent, and has a non-empty text body (a blank message is
/// never sent in the moment before the model fills in the content).
pub open spec fn spec_post_needs_delivery(
    in_progress: bool,
    meta: DiscordPostMetaView,
    body: Option<Seq<char>>,
) -> bool {
    &&& !in_progress
    &&& !spec_is_handled(meta)
    &&& body matches Some(text) && text.len() > 0
}

/// A post marked as sent or as being sent is never sent again; this is why
/// posts that come in from Discord are stored as already sent.
pub proof fn lemma_handled_posts_are_not_resent(
    in_progress: bool,
    meta: DiscordPostMetaView,
    body: Option<Seq<char>>,
)
    requires
        meta.discord_status == Some(DiscordStatus::Complete) || meta.discord_status
            == Some(DiscordStatus::Sending),
    ensures
        !spec_post_needs_delivery(in_progress, meta, body),
{
}

/// Whether a post still has to go out to Discord.
pub fn post_needs_delivery(in_progress: bool, meta: &DiscordPostMeta, body: Option<&str>) -> (needed:
    bool)
    ensures
        needed == spec_post_needs_delivery(
            in_progress,
            meta@,
            match body {
                Some(text) => Some(text@),
                None => None,
            },
        ),
{
    if in_progress {
        return false;
    }
    if meta.is_handled() {
        return false;
    }
    match body {
        Some(text) => !text.is_empty(),
        None => false,
    }
}

/// `chunks` without the empty ones, in order.
pub open spec fn non_empty(chunks: Seq<Seq<char>>) -> Seq<Seq<char>>
    decreases chunks.len(),
{
    if chunks.len() == 0 {
        seq![]
    } else if chunks.last().len() == 0 {
        non_empty(chunks.drop_last())
    } else {
        non_empty(chunks.drop_last()).push(chunks.last())
    }
}

/// The texts of the Discord messages that carry `body`: its chunks of at
/// most `MAX_MESSAGE_LEN` bytes, without empty ones, so that no blank message
/// is ever sent.
pub open spec fn message_texts(body: Seq<char>) -> Seq<Seq<char>> {
    non_empty(chunks_of(body, MAX_MESSAGE_LEN as nat))
}

/// No text left by `non_empty` is empty.
pub proof fn lemma_non_empty_has_no_blank(chunks: Seq<Seq<char>>)
    ensures
        forall|i: int|
            0 <= i < non_empty(chunks).len() ==> (#[trigger] non_empty(chunks)[i]).len() > 0,
    decreases chunks.len(),
{
    if chunks.len() > 0 {
        lemma_non_empty_has_no_blank(chunks.drop_last());
        let rest = non_empty(chunks.drop_last());
        if chunks.last().len() > 0 {
            assert forall|i: int| 0 <= i < rest.push(chunks.last()).len() implies (
            #[trigger] rest.push(chunks.last())[i]).len() > 0 by {
                if i < rest.len() {
                    assert(rest.push(chunks.last())[i] == rest[i]);
                }
            }
        }
    }
}

/// Leaving out the empty chunks loses no text.
pub proof fn lemma_non_empty_keeps_text(chunks: Seq<Seq<char>>)
    ensures
        non_empty(chunks).flatten() == chunks.flatten(),
    decreases chunks.len(),
{
    broadcast use Seq::lemma_flatten_push;

    if chunks.len() > 0 {
        lemma_non_empty_keeps_text(chunks.drop_last());
        assert(chunks.drop_last().push(chunks.last()) =~= chunks);
        if chunks.last().len() == 0 {
            assert(chunks.drop_last().flatten() + chunks.last() =~= chunks.drop_last().flatten());
        }
    } else {
        assert(non_empty(chunks) =~= chunks);
    }
}

/// The messages that carry `body` hold its lines, each followed by `'\n'`,
/// in order, and none of them is blank.
pub proof fn lemma_message_texts(body: Seq<char>)
    ensures
        message_texts(body).flatten() == crate::text::terminated(crate::text::lines(body)).flatten(),
        forall|i: int|
            0 <= i < message_texts(body).len() ==> (#[trigger] message_texts(body)[i]).len() > 0,
{
    crate::text::lemma_chunks_keep_text(body, MAX_MESSAGE_LEN as nat);
    lemma_non_empty_keeps_text(chunks_of(body, MAX_MESSAGE_LEN as nat));
    lemma_non_empty_has_no_blank(chunks_of(body, MAX_MESSAGE_LEN as nat));
}

/// The texts of the Discord messages that carry `body`.
pub fn message_texts_of(body: &str) -> (texts: Vec<String>)
    requires
        utf8_len(body@) < usize::MAX,
    ensures
        texts.deep_view() == message_texts(body@),
{
    let chunks = chunk_message(body, MAX_MESSAGE_LEN);
    let mut texts: Vec<String> = Vec::new();
    let n = chunks.len();
    let mut i: usize = 0;
    while i < n
        invariant
            n == chunks@.len(),
            i <= n,
            texts.deep_view() == non_empty(chunks.deep_view().take(i as int)),
        decreases n - i,
    {
        let ghost before = texts.deep_view();
        proof {
            let all = chunks.deep_view();
            assert(all.take(i as int + 1).drop_last() =~= all.take(i as int));
            assert(all.take(i as int + 1).last() == chunks@[i as int]@);
        }
        if !chunks[i].as_str().is_empty() {
            texts.push(chunks[i].clone());
            assert(texts.deep_view() =~= before.push(chunks@[i as int]@));
        }
        i = i + 1;
    }
    assert(chunks.deep_view().take(n as int) =~= chunks.deep_view());
    texts
}

/// A post on its way out: the Discord channel and the messages to send.
#[derive(Debug, Clone)]
pub struct Delivery {
    pub channel_id: u64,
    pub chunks: Vec<String>,
}

/// Plans the sending of a post whose body is `body`, written by the actor
/// with metadata `author`, in the thread with metadata `thread`. Only posts
/// of the bot's own actor are sent, and only to a thread that has a Discord
/// channel; the body goes out in chunks of at most `MAX_MESSAGE_LEN` bytes,
/// and no blank message is sent.
pub fn plan_delivery(
    body: &str,
    author: &DiscordActorMeta,
    bot_user_id: u64,
    thread: &DiscordThreadMeta,
) -> (plan: Option<Delivery>)
    requires
        utf8_len(body@) < usize::MAX,
    ensures
        author.discord_user != Some(bot_user_id) ==> plan is None,
        thread.discord_channel is None ==> plan is None,
        author.discord_user == Some(bot_user_id) && thread.discord_channel is Some ==> (
        plan matches Some(d) && d.channel_id == thread.discord_channel.unwrap()
            && d.chunks.deep_view() == message_texts(body@)),
{
    if !author.is_user(bot_user_id) {
        return None;
    }
    match thread.discord_channel {
        Some(channel_id) => Some(
            Delivery { channel_id, chunks: message_texts_of(body) },
        ),
        None => None,
    }
}

/// The rank of a post's status: none, sending, complete.
pub open spec fn status_rank(status: Option<DiscordStatus>) -> nat {
    match status {
        None => 0,
        Some(DiscordStatus::Sending) => 1,
        Some(DiscordStatus::Complete) => 2,
    }
}

/// The metadata of a post once its delivery has started: `Sending` is
/// written over it, and its other fields stay.
pub open spec fn spec_begin_delivery(meta: DiscordPostMetaView) -> DiscordPostMetaView {
    spec_merge(meta, DiscordPostMetaView { discord_status: Some(DiscordStatus::Sending), discord_messages: None })
}

/// The metadata of a post once every chunk went out as the messages `ids`,
/// in send order: `Complete` and the ids are written over it.
pub open spec fn spec_finish_delivery(meta: DiscordPostMetaView, ids: Seq<u64>) -> DiscordPostMetaView {
    spec_merge(meta, DiscordPostMetaView { discord_status: Some(DiscordStatus::Complete), discord_messages: Some(ids) })
}

/// Marks a post as being sent, before its first message goes out.
pub fn begin_delivery(meta: &DiscordPostMeta) -> (started: DiscordPostMeta)
    ensures
        started@ == spec_begin_delivery(meta@),
{
    meta.merged(&DiscordPostMeta::sending())
}

/// Marks a post as sent once all its messages went out, with their ids in
/// send order.
pub fn finish_delivery(meta: &DiscordPostMeta, message_ids: Vec<u64>) -> (finished: DiscordPostMeta)
    ensures
        finished@ == spec_finish_delivery(meta@, message_ids@),
{
    meta.merged(&DiscordPostMeta::delivered(message_ids))
}

/// Across runs a post's status only moves forward, from none to `Sending`
/// to `Complete`: a post is taken up only while it has no status; it is
/// marked `Sending` before its first message, keeping its other fields; it
/// is marked `Complete` with the ids of its messages once they are all
/// sent; and once marked, it is never taken up again.
pub proof fn lemma_post_status_moves_forward(
    in_progress: bool,
    meta: DiscordPostMetaView,
    body: Option<Seq<char>>,
    ids: Seq<u64>,
)
    requires
        spec_post_needs_delivery(in_progress, meta, body),
    ensures
        status_rank(meta.discord_status) == 0,
        spec_begin_delivery(meta).discord_status == Some(DiscordStatus::Sending),
        spec_begin_delivery(meta).discord_messages == meta.discord_messages,
        spec_finish_delivery(spec_begin_delivery(meta), ids).discord_status == Some(
            DiscordStatus::Complete,
        ),
        spec_finish_delivery(spec_begin_delivery(meta), ids).discord_messages == Some(ids),
        status_rank(meta.discord_status) < status_rank(spec_begin_delivery(meta).discord_status)
            < status_rank(spec_finish_delivery(spec_begin_delivery(meta), ids).discord_status),
        forall|later_in_progress: bool, later_body: Option<Seq<char>>|
            !spec_post_needs_delivery(later_in_progress, #[trigger] spec_begin_delivery(meta), later_body)
                && !spec_post_needs_delivery(
                later_in_progress,
                spec_finish_delivery(spec_begin_delivery(meta), ids),
                later_body,
            ),
{
}

/// One message for the Discord HTTP API to create.
#[derive(Debug, Clone)]
pub struct OutgoingMessage {
    pub channel_id: u64,
    pub content: String,
    /// The message this one replies to.
    pub reply_to: Option<u64>,
}

/// The messages that carry `content` to channel `channel_id`, in chunks of
/// at most `MAX_MESSAGE_LEN` bytes and none blank, each replying to
/// `reply_to` when given.
pub fn oneshot_messages(content: &str, channel_id: u64, reply_to: Option<u64>) -> (messages: Vec<
    OutgoingMessage,
>)
    requires
        utf8_len(content@) < usize::MAX,
    ensures
        messages@.len() == message_texts(content@).len(),
        forall|i: int|
            0 <= i < messages@.len() ==> {
                &&& (#[trigger] messages@[i]).channel_id == channel_id
                &&& messages@[i].reply_to == reply_to
                &&& messages@[i].content@ == message_texts(content@)[i]
            },
{
    let chunks = message_texts_of(content);
    let mut messages: Vec<OutgoingMessage> = Vec::new();
    let n = chunks.len();
    let mut i: usize = 0;
    while i < n
        invariant
            n == chunks@.len(),
            chunks.deep_view() == message_texts(content@),
            i <= n,
            messages@.len() == i,
            forall|j: int|
                0 <= j < i ==> {
                    &&& (#[trigger] messages@[j]).channel_id == channel_id
                    &&& messages@[j].reply_to == reply_to
                    &&& messages@[j].content@ == chunks@[j]@
                },
        decreases n - i,
    {
        messages.push(OutgoingMessage { channel_id, content: chunks[i].clone(), reply_to });
        i = i + 1;
    }
    assert forall|j: int| 0 <= j < n implies chunks@[j]@ == message_texts(content@)[j] by {
        assert(chunks.deep_view()[j] == chunks@[j]@);
    }
    messages
}

/// One post of a model's answer.
#[derive(Debug, Clone)]
pub struct ReplyPart {
    /// Whether the post is meant to be shown.
    pub is_display: bool,
    pub body: String,
}

/// The bodies of the parts that are shown, in order.
pub open spec fn displayed_bodies(parts: Seq<ReplyPart>) -> Seq<Seq<char>>
    decreases parts.len(),
{
    if parts.len() == 0 {
        seq![]
    } else if parts.last().is_display {
        displayed_bodies(parts.drop_last()).push(parts.last().body@)
    } else {
        displayed_bodies(parts.drop_last())
    }
}

/// Only shown parts count, wherever they stand: putting the bodies of two
/// runs of parts together gives the bodies of the joined run; a part that is
/// not shown adds nothing, at the end or at the front; a shown part adds its
/// body.
pub proof fn lemma_displayed_bodies(a: Seq<ReplyPart>, b: Seq<ReplyPart>, part: ReplyPart)
    ensures
        displayed_bodies(a + b) == displayed_bodies(a) + displayed_bodies(b),
        !part.is_display ==> displayed_bodies(a.push(part)) == displayed_bodies(a),
        !part.is_display ==> displayed_bodies(seq![part] + a) == displayed_bodies(a),
        part.is_display ==> displayed_bodies(a.push(part)) == displayed_bodies(a).push(part.body@),
        part.is_display ==> displayed_bodies(seq![part] + a) == seq![part.body@] + displayed_bodies(a),
{
    lemma_displayed_bodies_concat(a, b);
    lemma_displayed_bodies_concat(seq![part], a);
    let single = seq![part];
    assert(single.drop_last() =~= Seq::<ReplyPart>::empty());
    assert(single.last() == part);
    assert(displayed_bodies(Seq::<ReplyPart>::empty()) =~= Seq::<Seq<char>>::empty());
    assert(a.push(part).drop_last() =~= a);
    assert(a.push(part).last() == part);
    if part.is_display {
        assert(displayed_bodies(single) =~= seq![part.body@]);
    } else {
        assert(displayed_bodies(single) =~= Seq::<Seq<char>>::empty());
        assert(Seq::<Seq<char>>::empty() + displayed_bodies(a) =~= displayed_bodies(a));
    }
}

proof fn lemma_displayed_bodies_concat(a: Seq<ReplyPart>, b: Seq<ReplyPart>)
    ensures
        displayed_bodies(a + b) == displayed_bodies(a) + displayed_bodies(b),
    decreases b.len(),
{
    if b.len() == 0 {
        assert(a + b =~= a);
        assert(displayed_bodies(a) + displayed_bodies(b) =~= displayed_bodies(a));
    } else {
        lemma_displayed_bodies_concat(a, b.drop_last());
        assert((a + b).drop_last() =~= a + b.drop_last());
        assert((a + b).last() == b.last());
        if b.last().is_display {
            assert(displayed_bodies(a) + displayed_bodies(b.drop_last()).push(b.last().body@)
                =~= (displayed_bodies(a) + displayed_bodies(b.drop_last())).push(b.last().body@));
        }
    }
}

/// The bodies taken into the reply are exactly those of the shown parts, in
/// order: each one is the body of a shown part, there is one per shown part,
/// and a run without shown parts gives none.
pub proof fn lemma_displayed_bodies_are_shown(parts: Seq<ReplyPart>)
    ensures
        (forall|i: int| 0 <= i < parts.len() ==> !(#[trigger] parts[i]).is_display)
            ==> displayed_bodies(parts).len() == 0,
        forall|k: int|
            #![trigger displayed_bodies(parts)[k]]
            0 <= k < displayed_bodies(parts).len() ==> exists|i: int|
                0 <= i < parts.len() && (#[trigger] parts[i]).is_display && parts[i].body@
                    == displayed_bodies(parts)[k],
        displayed_bodies(parts).len() <= parts.len(),
    decreases parts.len(),
{
    if parts.len() > 0 {
        let rest = parts.drop_last();
        lemma_displayed_bodies_are_shown(rest);
        assert forall|i: int| 0 <= i < rest.len() implies rest[i] == parts[i] by {}
        if forall|i: int| 0 <= i < parts.len() ==> !(#[trigger] parts[i]).is_display {
            assert(!parts[parts.len() - 1].is_display);
            assert forall|i: int| 0 <= i < rest.len() implies !(#[trigger] rest[i]).is_display by {
                assert(rest[i] == parts[i]);
            }
        }
        assert forall|k: int|
            #![trigger displayed_bodies(parts)[k]]
            0 <= k < displayed_bodies(parts).len() implies exists|i: int|
            0 <= i < parts.len() && (#[trigger] parts[i]).is_display && parts[i].body@
                == displayed_bodies(parts)[k] by {
            if k < displayed_bodies(rest).len() {
                let i = choose|i: int|
                    0 <= i < rest.len() && (#[trigger] rest[i]).is_display && rest[i].body@
                        == displayed_bodies(rest)[k];
                assert(rest[i] == parts[i]);
            } else {
                assert(parts[parts.len() - 1] == parts.last());
            }
        }
    }
}

/// A model's answer as one text: the bodies of the shown posts, one per line.
pub fn collect_reply(parts: &Vec<ReplyPart>) -> (reply: String)
    ensures
        reply@ == crate::text::join_lines_spec(displayed_bodies(parts@)),
{
    let mut bodies: Vec<String> = Vec::new();
    let n = parts.len();
    let mut i: usize = 0;
    while i < n
        invariant
            n == parts@.len(),
            i <= n,
            bodies.deep_view() == displayed_bodies(parts@.take(i as int)),
        decreases n - i,
    {
        let ghost before = bodies.deep_view();
        proof {
            assert(parts@.take(i as int + 1).drop_last() =~= parts@.take(i as int));
            assert(parts@.take(i as int + 1).last() == parts@[i as int]);
        }
        if parts[i].is_display {
            bodies.push(parts[i].body.clone());
            assert(bodies.deep_view() =~= before.push(parts@[i as int].body@));
        }
        i = i + 1;
    }
    assert(parts@.take(n as int) =~= parts@);
    crate::text::join_lines(&bodies)
}

} // verus!
