//! How the bot reacts to the messages that are posted in its channels.

use vstd::prelude::*;
use vstd::string::StringExecFns;

use crate::address::among;
use crate::address::copy_pieces;
use crate::address::AddressOrAlmost;
use crate::ids::ChannelId;
use crate::ids::GuildId;
use crate::ids::UserId;
use crate::responder::request::Request;
use crate::responder::response::Response;
use crate::roles::Role;
use crate::send_history::expired;
use crate::send_history::first_index;
use crate::send_history::is_listed;
use crate::send_history::is_user;
use crate::send_history::lemma_first_index;
use crate::send_history::lemma_first_index_is;
use crate::send_history::lemma_first_index_none;
use crate::send_history::lemma_unexpired;
use crate::send_history::unexpired;
use crate::send_history::Entry;
use crate::send_history::HistoryView;
use crate::send_history::SendHistory;
use crate::time::coarse_text;
use crate::time::elapsed_nanos;
use crate::time::format_remaining_time;
use crate::time::format_time_until;
use crate::time::lemma_duration_in_range;
use crate::time::Clock;
use crate::time::Duration;
use crate::time::Moment;
use crate::time::MAX_NANOS;

verus! {

/// Representation of a Discord message, containing only the fields relevant for processing a
/// faucet request.
#[derive(Debug)]
pub struct MessageInfo {
    /// Discord user ID of the sender of the message.
    pub user_id: UserId,
    /// Discord human-readable username for sender of message.
    pub user_name: String,
    /// Discord guild (server) ID for the channel in which this message was sent.
    pub guild_id: GuildId,
    /// Discord guild channel in which the message was posted.
    pub guild_channel: ChannelId,
}

/// Why a message cannot be processed.
#[derive(Clone, Copy, Debug, PartialEq, Eq, Structural)]
pub enum MessageInfoError {
    /// The message was not posted in a guild.
    UnknownGuild,
    /// The channel in which the message was posted is not known.
    UnknownChannel,
}

impl MessageInfo {
    /// Gathers the relevant fields of a message. `guild_id` is the guild in which it was posted, if
    /// any, and `guild_channel` the channel, if it is a known channel of a guild.
    pub fn new(
        user_id: UserId,
        user_name: &String,
        guild_id: Option<GuildId>,
        guild_channel: Option<ChannelId>,
    ) -> (info: Result<MessageInfo, MessageInfoError>)
        ensures
            match (guild_id, guild_channel) {
                (None, _) => info == Err::<MessageInfo, _>(MessageInfoError::UnknownGuild),
                (Some(_), None) => info == Err::<MessageInfo, _>(MessageInfoError::UnknownChannel),
                (Some(guild_id), Some(guild_channel)) => info == Ok::<_, MessageInfoError>(
                    (MessageInfo { user_id, user_name: *user_name, guild_id, guild_channel }),
                ),
            },
    {
        match guild_id {
            None => Err(MessageInfoError::UnknownGuild),
            Some(guild_id) => match guild_channel {
                None => Err(MessageInfoError::UnknownChannel),
                Some(guild_channel) => Ok(
                    MessageInfo { user_id, user_name: user_name.clone(), guild_id, guild_channel },
                ),
            },
        }
    }
}

/// A message as it comes in, with what is known of the place where it was posted.
#[derive(Debug)]
pub struct Incoming {
    /// The user who posted the message.
    pub author_id: UserId,
    /// The name of that user.
    pub author_name: String,
    /// The guild in which the message was posted, if any.
    pub guild_id: Option<GuildId>,
    /// The channel in which the message was posted, if it is a known channel of a guild.
    pub guild_channel: Option<ChannelId>,
    /// Whether the bot may send messages in that channel, if that could be found out.
    pub may_send: Option<bool>,
    /// The user that the bot itself is.
    pub self_id: UserId,
    /// What was found in the message: addresses, and texts that look like addresses.
    pub addresses: Vec<AddressOrAlmost>,
}

/// What is to be done about a message.
#[derive(Debug)]
pub struct Reaction {
    /// What to reply to the message at once.
    pub reply: Option<String>,
    /// The request to pass on to the responder.
    pub request: Option<Request>,
}

/// Whether the bot takes notice of a message at all: it was posted in a known channel of a guild,
/// the bot may send messages there, and it was not posted by the bot itself.
pub open spec fn admitted(incoming: Incoming) -> bool {
    &&& incoming.guild_id is Some
    &&& incoming.guild_channel is Some
    &&& incoming.may_send == Some(true)
    &&& incoming.author_id != incoming.self_id
}

/// Whether a request is held back by the rate limit.
pub open spec fn refused(
    history: HistoryView,
    user: UserId,
    addresses: Seq<AddressOrAlmost>,
) -> bool {
    match history.limit(user, addresses) {
        Some((_, notified)) => notified > 0,
        None => false,
    }
}

/// Whether the user is told of the rate limit, if what limits the request has the given count. The
/// first time the count is one, or zero after a failure, and each time it goes up.
pub open spec fn notice_due(notified: usize, reply_limit: usize) -> bool {
    (if notified == 0 {
        1
    } else {
        notified
    }) <= reply_limit
}

/// The text that tells a user of the rate limit, when this much of it is left.
pub open spec fn wait_words(remaining: Seq<char>) -> Seq<char> {
    "Please wait for another "@ + remaining + " before requesting more tokens. Thanks!"@
}

/// The text that tells a user of the rate limit, when so many nanoseconds of it are left.
pub open spec fn wait_text(remaining: nat, units: nat) -> Seq<char> {
    wait_words(coarse_text(remaining, units))
}

/// The history after a message of a user was processed.
pub open spec fn history_after(
    history: HistoryView,
    rate_limit: nat,
    user: UserId,
    addresses: Seq<AddressOrAlmost>,
    now: Moment,
) -> HistoryView {
    let pruned = history.pruned(now, rate_limit);
    if addresses.len() == 0 {
        pruned
    } else if refused(pruned, user, addresses) {
        pruned.counted(user, addresses)
    } else {
        pruned.counted(user, addresses).recorded(user, addresses, now)
    }
}

/// Whether entries stand in the order in which they were made, and none was made after `now`.
pub open spec fn in_order<K>(entries: Seq<Entry<K>>, now: Moment) -> bool {
    &&& forall|i: int, j: int|
        0 <= i <= j < entries.len() ==> (#[trigger] entries[i]).last_fulfilled.nanos <= (
        #[trigger] entries[j]).last_fulfilled.nanos
    &&& forall|i: int|
        0 <= i < entries.len() ==> (#[trigger] entries[i]).last_fulfilled.nanos <= now.nanos
}

/// Entries that stand in order still do so once the expired ones are pruned, and none of those that
/// are left has expired.
pub proof fn lemma_pruned_in_order<K>(entries: Seq<Entry<K>>, now: Moment, rate_limit: nat)
    requires
        in_order(entries, now),
    ensures
        in_order(unexpired(entries, now, rate_limit), now),
        forall|i: int|
            0 <= i < unexpired(entries, now, rate_limit).len() ==> !expired(
                #[trigger] unexpired(entries, now, rate_limit)[i],
                now,
                rate_limit,
            ),
{
    let removed = lemma_unexpired(entries, now, rate_limit);
    let left = unexpired(entries, now, rate_limit);
    assert forall|i: int| 0 <= i < left.len() implies left[i] == entries[removed + i] by {}
    assert forall|i: int, j: int| 0 <= i <= j < left.len() implies (
    #[trigger] left[i]).last_fulfilled.nanos <= (#[trigger] left[j]).last_fulfilled.nanos by {
        assert(left[i] == entries[removed + i]);
        assert(left[j] == entries[removed + j]);
    }
    assert forall|i: int| 0 <= i < left.len() implies (#[trigger] left[i]).last_fulfilled.nanos
        <= now.nanos by {
        assert(left[i] == entries[removed + i]);
    }
    assert forall|i: int| 0 <= i < left.len() implies !expired(
        #[trigger] left[i],
        now,
        rate_limit,
    ) by {
        assert(left[0] == entries[removed]);
        assert(left[0].last_fulfilled.nanos <= left[i].last_fulfilled.nanos);
    }
}

/// What limits a request in a pruned history that stands in order has not expired.
proof fn lemma_limit_unexpired(
    history: HistoryView,
    rate_limit: nat,
    user: UserId,
    addresses: Seq<AddressOrAlmost>,
    now: Moment,
)
    requires
        in_order(history.users, now),
        in_order(history.addresses, now),
    ensures
        match history.pruned(now, rate_limit).limit(user, addresses) {
            Some((last_fulfilled, _)) => last_fulfilled.nanos <= now.nanos && elapsed_nanos(
                last_fulfilled,
                now,
            ) < rate_limit,
            None => true,
        },
{
    let pruned = history.pruned(now, rate_limit);
    lemma_pruned_in_order(history.users, now, rate_limit);
    lemma_pruned_in_order(history.addresses, now, rate_limit);
    lemma_first_index(pruned.users, is_user(user));
    lemma_first_index(pruned.addresses, is_listed(addresses));
    match first_index(pruned.users, is_user(user)) {
        Some(i) => {
            assert(!expired(pruned.users[i], now, rate_limit));
        },
        None => {
            match first_index(pruned.addresses, is_listed(addresses)) {
                Some(i) => {
                    assert(!expired(pruned.addresses[i], now, rate_limit));
                },
                None => {},
            }
        },
    }
}

/// A history whose counts can go up still has such counts once it is pruned.
proof fn lemma_room_is_countable(
    history: HistoryView,
    rate_limit: nat,
    user: UserId,
    addresses: Seq<AddressOrAlmost>,
    now: Moment,
)
    requires
        history.has_room(user, addresses),
    ensures
        history.pruned(now, rate_limit).countable(user, addresses),
{
    let pruned = history.pruned(now, rate_limit);
    let users_removed = lemma_unexpired(history.users, now, rate_limit);
    let addresses_removed = lemma_unexpired(history.addresses, now, rate_limit);
    lemma_first_index(pruned.users, is_user(user));
    lemma_first_index(pruned.addresses, is_listed(addresses));
    match first_index(pruned.users, is_user(user)) {
        Some(i) => {
            assert(pruned.users[i] == history.users[users_removed + i]);
        },
        None => {
            match first_index(pruned.addresses, is_listed(addresses)) {
                Some(i) => {
                    assert(pruned.addresses[i] == history.addresses[addresses_removed + i]);
                },
                None => {},
            }
        },
    }
}

/// Processing a message leaves the history in order.
proof fn lemma_history_after_in_order(
    history: HistoryView,
    rate_limit: nat,
    user: UserId,
    addresses: Seq<AddressOrAlmost>,
    now: Moment,
)
    requires
        in_order(history.users, now),
        in_order(history.addresses, now),
    ensures
        in_order(history_after(history, rate_limit, user, addresses, now).users, now),
        in_order(history_after(history, rate_limit, user, addresses, now).addresses, now),
{
    let pruned = history.pruned(now, rate_limit);
    lemma_pruned_in_order(history.users, now, rate_limit);
    lemma_pruned_in_order(history.addresses, now, rate_limit);
    lemma_first_index(pruned.users, is_user(user));
    lemma_first_index(pruned.addresses, is_listed(addresses));
}

/// Recording a failure leaves the history in order.
proof fn lemma_failed_in_order(
    history: HistoryView,
    user: UserId,
    addresses: Seq<AddressOrAlmost>,
    now: Moment,
)
    requires
        in_order(history.users, now),
        in_order(history.addresses, now),
    ensures
        in_order(history.failed(user, addresses).users, now),
        in_order(history.failed(user, addresses).addresses, now),
{
    lemma_first_index(history.users, is_user(user));
    lemma_first_index(history.addresses, is_listed(addresses));
}

/// Writes the text that tells a user of the rate limit, when this much of it is left.
pub fn wait_message(remaining: &String) -> (text: String)
    ensures
        text@ == wait_words(remaining@),
{
    let mut text = String::new();
    text.append("Please wait for another ");
    text.append(remaining.as_str());
    text.append(" before requesting more tokens. Thanks!");
    assert(text@ =~= wait_words(remaining@));
    text
}

/// Writes the text that tells a user of the rate limit, in at most `units` units of time.
pub fn wait_notice(last_fulfilled: Moment, rate_limit: Duration, now: Moment, units: usize) -> (text:
    String)
    requires
        elapsed_nanos(last_fulfilled, now) <= rate_limit@,
    ensures
        text@ == wait_text(
            (rate_limit@ - elapsed_nanos(last_fulfilled, now)) as nat,
            units as nat,
        ),
{
    wait_message(&format_remaining_time(last_fulfilled, rate_limit, now, units))
}

/// The configuration and state of a [`Handler`].
pub struct HandlerView {
    /// The minimum time between dispensing tokens to a user, in nanoseconds.
    pub rate_limit: nat,
    /// How often a user is told of the rate limit.
    pub reply_limit: usize,
    /// Whether nothing is to be sent.
    pub dry_run: bool,
    /// The requests that were answered.
    pub history: HistoryView,
    /// The latest reading of the clock.
    pub latest: Moment,
}

impl HandlerView {
    /// The reply to a message, if there is one.
    pub open spec fn reply_text(self, incoming: Incoming, now: Moment) -> Option<Seq<char>> {
        let pruned = self.history.pruned(now, self.rate_limit);
        if !admitted(incoming) || incoming.addresses@.len() == 0 || self.dry_run {
            None
        } else {
            match pruned.limit(incoming.author_id, incoming.addresses@) {
                Some((last_fulfilled, notified)) => if notice_due(notified, self.reply_limit) {
                    Some(
                        wait_text(
                            (self.rate_limit - elapsed_nanos(last_fulfilled, now)) as nat,
                            2,
                        ),
                    )
                } else {
                    None
                },
                None => None,
            }
        }
    }

    /// Whether a message is passed on to the responder.
    pub open spec fn passes_on(self, incoming: Incoming, now: Moment) -> bool {
        &&& admitted(incoming)
        &&& incoming.addresses@.len() > 0
        &&& !self.dry_run
        &&& !refused(
            self.history.pruned(now, self.rate_limit),
            incoming.author_id,
            incoming.addresses@,
        )
    }

    /// The state after a message was processed.
    pub open spec fn after(self, incoming: Incoming, now: Moment) -> Self {
        HandlerView {
            history: if admitted(incoming) {
                history_after(
                    self.history,
                    self.rate_limit,
                    incoming.author_id,
                    incoming.addresses@,
                    now,
                )
            } else {
                self.history
            },
            latest: now,
            ..self
        }
    }

    /// Whether what limits a message can still be counted.
    pub open spec fn countable(self, incoming: Incoming, now: Moment) -> bool {
        admitted(incoming) && incoming.addresses@.len() > 0 ==> self.history.pruned(
            now,
            self.rate_limit,
        ).countable(incoming.author_id, incoming.addresses@)
    }
}

/// Represents configuration and state for faucet bot.
pub struct Handler {
    /// The minimum duration between dispensing tokens to a user.
    rate_limit: Duration,
    /// Limit of the number of times, per user, we will inform that user of their rate limit.
    reply_limit: usize,
    /// History of requests we answered for token dispersal, with a timestamp and the number of
    /// times the rate limit came up (so that eventually we can stop replying if users keep asking).
    send_history: SendHistory,
    /// Whether read-only mode is enabled. If false, Penumbra transactions will be sent, and Discord
    /// replies will be posted. If true, those events will not be performed.
    dry_run: bool,
    /// The clock by which rate limits are measured.
    clock: Clock,
}

impl View for Handler {
    type V = HandlerView;

    closed spec fn view(&self) -> HandlerView {
        HandlerView {
            rate_limit: self.rate_limit@,
            reply_limit: self.reply_limit,
            dry_run: self.dry_run,
            history: self.send_history@,
            latest: self.clock@,
        }
    }
}

impl Handler {
    /// The entries of the history stand in the order in which they were made, and all times are
    /// such as a clock can show.
    pub open spec fn wf(self) -> bool {
        &&& self@.rate_limit <= MAX_NANOS
        &&& self@.latest.nanos <= MAX_NANOS
        &&& in_order(self@.history.users, self@.latest)
        &&& in_order(self@.history.addresses, self@.latest)
    }

    /// The reading of tokio's clock from which the handler counts.
    pub closed spec fn started(self) -> tokio::time::Instant {
        self.clock.started()
    }

    /// Constructs a new [`Handler`].
    pub fn new(rate_limit: Duration, reply_limit: usize, dry_run: bool) -> (handler: Self)
        ensures
            handler.wf(),
            handler@ == (HandlerView {
                rate_limit: rate_limit@,
                reply_limit,
                dry_run,
                history: HistoryView::empty(),
                latest: Moment { nanos: 0 },
            }),
    {
        proof {
            use_type_invariant(&rate_limit);
            lemma_duration_in_range(rate_limit);
        }
        Handler {
            rate_limit,
            reply_limit,
            send_history: SendHistory::new(),
            dry_run,
            clock: Clock::start(),
        }
    }

    /// Check whether the bot can proceed with honoring this request, performing preflight checks on
    /// channel configuration and avoiding self-sends. `may_send` is whether the bot may send
    /// messages in the channel, if that could be found out, and `self_id` the bot itself.
    pub fn should_send(&self, may_send: Option<bool>, self_id: UserId, info: &MessageInfo) -> (should:
        bool)
        ensures
            should == (may_send == Some(true) && info.user_id != self_id),
    {
        match may_send {
            Some(true) => info.user_id != self_id,
            _ => false,
        }
    }

    /// Returns whether every count that a message may add to can still go up.
    pub fn has_room(&self, incoming: &Incoming) -> (room: bool)
        ensures
            room == self@.history.has_room(incoming.author_id, incoming.addresses@),
    {
        self.send_history.has_room(incoming.author_id, &incoming.addresses)
    }

    /// Respond to faucet request. For first-time requests, will pass the request on. If the faucet
    /// request duplicates a previous request within the timeout window, then the reply instructs
    /// the user to wait longer.
    ///
    /// This reads the clock. See [`Handler::message_at`] for what comes of each reading.
    pub fn message(&mut self, incoming: &Incoming) -> (reaction: Reaction)
        requires
            old(self).wf(),
            old(self)@.history.has_room(incoming.author_id, incoming.addresses@),
        ensures
            final(self).wf(),
            old(self)@.latest.nanos <= final(self)@.latest.nanos,
            final(self)@ == old(self)@.after(*incoming, final(self)@.latest),
            final(self).started() == old(self).started(),
            match reaction.reply {
                Some(reply) => old(self)@.reply_text(*incoming, final(self)@.latest) == Some(
                    reply@,
                ),
                None => old(self)@.reply_text(*incoming, final(self)@.latest) is None,
            },
            match reaction.request {
                Some(request) => old(self)@.passes_on(*incoming, final(self)@.latest)
                    && request.addresses@ == incoming.addresses@,
                None => !old(self)@.passes_on(*incoming, final(self)@.latest),
            },
    {
        let now = self.clock.now();
        proof {
            lemma_room_is_countable(
                self@.history,
                self@.rate_limit,
                incoming.author_id,
                incoming.addresses@,
                now,
            );
        }
        self.message_at(incoming, now)
    }

    /// Respond to faucet request, as [`Handler::message`] does, at a time that is given.
    pub fn message_at(&mut self, incoming: &Incoming, now: Moment) -> (reaction: Reaction)
        requires
            old(self).wf(),
            old(self)@.latest.nanos <= now.nanos <= MAX_NANOS,
            old(self)@.countable(*incoming, now),
        ensures
            final(self).wf(),
            final(self)@ == old(self)@.after(*incoming, now),
            final(self).started() == old(self).started(),
            match reaction.reply {
                Some(reply) => old(self)@.reply_text(*incoming, now) == Some(reply@),
                None => old(self)@.reply_text(*incoming, now) is None,
            },
            match reaction.request {
                Some(request) => old(self)@.passes_on(*incoming, now) && request.addresses@
                    == incoming.addresses@,
                None => !old(self)@.passes_on(*incoming, now),
            },
    {
        let user_id = incoming.author_id;
        let addresses = &incoming.addresses;
        proof {
            lemma_limit_unexpired(
                self@.history,
                self@.rate_limit,
                user_id,
                addresses@,
                now,
            );
            lemma_history_after_in_order(
                self@.history,
                self@.rate_limit,
                user_id,
                addresses@,
                now,
            );
        }
        self.clock.observe(now);
        let info = match MessageInfo::new(
            user_id,
            &incoming.author_name,
            incoming.guild_id,
            incoming.guild_channel,
        ) {
            Ok(info) => info,
            Err(_) => {
                return Reaction { reply: None, request: None };
            },
        };
        if !self.should_send(incoming.may_send, incoming.self_id, &info) {
            return Reaction { reply: None, request: None };
        }
        self.send_history.prune(self.rate_limit, now);
        let request = match Request::try_new(copy_pieces(addresses)) {
            Some(request) => request,
            None => {
                return Reaction { reply: None, request: None };
            },
        };
        let mut reply: Option<String> = None;
        let limit = self.send_history.is_rate_limited(user_id, addresses, self.rate_limit);
        if let Some((expires, notified)) = limit {
            let notice: usize = if notified == 0 {
                1
            } else {
                notified
            };
            if notice <= self.reply_limit && !self.dry_run {
                reply = Some(wait_message(&format_time_until(expires, now, 2)));
            }
            // A failure has set the count to zero, so that the request is not held back
            if notified > 0 {
                return Reaction { reply, request: None };
            }
        }
        self.send_history.record_request(user_id, addresses, now);
        if self.dry_run {
            Reaction { reply, request: None }
        } else {
            Reaction { reply, request: Some(request) }
        }
    }

    /// Take in what became of a request that was passed on: the response, or nothing if none came.
    /// Returns what to reply to the message. If no response came, the request counts as failed.
    /// `roles` are those of the guild in which the message was posted.
    pub fn conclude(
        &mut self,
        user_id: UserId,
        addresses: &Vec<AddressOrAlmost>,
        response: Option<&Response>,
        roles: &Vec<Role>,
    ) -> (reply: Option<String>)
        requires
            old(self).wf(),
        ensures
            final(self).wf(),
            match response {
                Some(response) => {
                    &&& *final(self) == *old(self)
                    &&& reply matches Some(reply) && reply@ == response.summary_text(roles@)
                },
                None => {
                    &&& final(self)@ == (HandlerView {
                        history: old(self)@.history.failed(user_id, addresses@),
                        ..old(self)@
                    })
                    &&& final(self).started() == old(self).started()
                    &&& reply is None
                },
            },
    {
        match response {
            Some(response) => Some(response.summary(roles)),
            None => {
                proof {
                    lemma_failed_in_order(self@.history, user_id, addresses@, self@.latest);
                }
                self.send_history.record_failure(user_id, addresses);
                None
            },
        }
    }
}

/// In read-only mode no message is replied to, and none is passed on.
pub proof fn law_dry_run_sends_nothing(state: HandlerView, incoming: Incoming, now: Moment)
    requires
        state.dry_run,
    ensures
        state.reply_text(incoming, now) is None,
        !state.passes_on(incoming, now),
{
}

/// A message that the bot takes no notice of is not replied to, is not passed on, and leaves no
/// trace in the history. The bot's own messages are of this kind.
pub proof fn law_unadmitted_messages_are_ignored(
    state: HandlerView,
    incoming: Incoming,
    now: Moment,
)
    requires
        !admitted(incoming) || incoming.author_id == incoming.self_id,
    ensures
        state.reply_text(incoming, now) is None,
        !state.passes_on(incoming, now),
        state.after(incoming, now).history == state.history,
{
}

/// A message is either held back by the rate limit or recorded as answered: it is passed on just
/// when it is recorded, except in read-only mode.
pub proof fn law_passed_on_when_recorded(state: HandlerView, incoming: Incoming, now: Moment)
    requires
        admitted(incoming),
        incoming.addresses@.len() > 0,
        !state.dry_run,
    ensures
        ({
            let pruned = state.history.pruned(now, state.rate_limit);
            let counted = pruned.counted(incoming.author_id, incoming.addresses@);
            state.after(incoming, now).history == if state.passes_on(incoming, now) {
                counted.recorded(incoming.author_id, incoming.addresses@, now)
            } else {
                counted
            }
        }),
{
}

/// A request is passed on if the bot takes notice of the message and neither the user nor any of the
/// addresses has an entry in the history, except in read-only mode. Nothing is replied at once.
pub proof fn law_new_requests_are_passed_on(state: HandlerView, incoming: Incoming, now: Moment)
    requires
        admitted(incoming),
        incoming.addresses@.len() > 0,
        !state.dry_run,
        forall|i: int|
            0 <= i < state.history.users.len() ==> (#[trigger] state.history.users[i]).key
                != incoming.author_id,
        forall|i: int|
            0 <= i < state.history.addresses.len() ==> !among(
                (#[trigger] state.history.addresses[i]).key,
                incoming.addresses@,
            ),
    ensures
        state.passes_on(incoming, now),
        state.reply_text(incoming, now) is None,
{
    let pruned = state.history.pruned(now, state.rate_limit);
    let users_removed = lemma_unexpired(state.history.users, now, state.rate_limit);
    let addresses_removed = lemma_unexpired(state.history.addresses, now, state.rate_limit);
    let user = is_user(incoming.author_id);
    let listed = is_listed(incoming.addresses@);
    assert forall|j: int| 0 <= j < pruned.users.len() implies !user(
        #[trigger] pruned.users[j].key,
    ) by {
        assert(pruned.users[j] == state.history.users[users_removed + j]);
    }
    assert forall|j: int| 0 <= j < pruned.addresses.len() implies !listed(
        #[trigger] pruned.addresses[j].key,
    ) by {
        assert(pruned.addresses[j] == state.history.addresses[addresses_removed + j]);
    }
    lemma_first_index_none(pruned.users, user);
    lemma_first_index_none(pruned.addresses, listed);
}

/// How the bot reacts to a message of a user whose request was answered less than the rate limit
/// ago. The earliest such request counts, at `i`: unless it has failed since, nothing is passed on.
/// The user is told how long it takes until that request is as old as the rate limit is long, unless
/// the count is above the reply limit.
pub proof fn law_user_is_held_back(state: HandlerView, incoming: Incoming, now: Moment, i: int)
    requires
        incoming.guild_id is Some,
        incoming.guild_channel is Some,
        incoming.may_send == Some(true),
        incoming.author_id != incoming.self_id,
        incoming.addresses@.len() > 0,
        in_order(state.history.users, now),
        0 <= i < state.history.users.len(),
        state.history.users[i].key == incoming.author_id,
        now.nanos - state.history.users[i].last_fulfilled.nanos < state.rate_limit,
        forall|j: int|
            0 <= j < i && (#[trigger] state.history.users[j]).key == incoming.author_id
                ==> now.nanos - state.history.users[j].last_fulfilled.nanos >= state.rate_limit,
    ensures
        ({
            let entry = state.history.users[i];
            let left = entry.last_fulfilled.nanos + state.rate_limit - now.nanos;
            &&& state.passes_on(incoming, now) <==> !state.dry_run && entry.notified == 0
            &&& state.reply_text(incoming, now) == if state.dry_run || state.reply_limit == 0
                || entry.notified > state.reply_limit {
                None
            } else {
                Some(wait_text(left as nat, 2))
            }
        }),
{
    let users = state.history.users;
    let pruned = state.history.pruned(now, state.rate_limit).users;
    let wanted = is_user(incoming.author_id);
    let removed = lemma_unexpired(users, now, state.rate_limit);
    lemma_pruned_in_order(users, now, state.rate_limit);
    if i < removed {
        assert(expired(users[i], now, state.rate_limit));
    }
    assert(pruned[i - removed] == users[i]);
    assert forall|j: int| 0 <= j < i - removed implies !wanted(#[trigger] pruned[j].key) by {
        assert(pruned[j] == users[removed + j]);
        assert(!expired(pruned[j], now, state.rate_limit));
    }
    lemma_first_index_is(pruned, wanted, i - removed);
}

/// How the bot reacts to a message with an address that was answered for less than the rate limit
/// ago, if the user has no such request. The earliest such request for one of the addresses counts,
/// at `i`, in the same way as a request of the user would.
pub proof fn law_address_is_held_back(state: HandlerView, incoming: Incoming, now: Moment, i: int)
    requires
        incoming.guild_id is Some,
        incoming.guild_channel is Some,
        incoming.may_send == Some(true),
        incoming.author_id != incoming.self_id,
        incoming.addresses@.len() > 0,
        in_order(state.history.users, now),
        in_order(state.history.addresses, now),
        forall|j: int|
            0 <= j < state.history.users.len() && (#[trigger] state.history.users[j]).key
                == incoming.author_id ==> now.nanos - state.history.users[j].last_fulfilled.nanos
                >= state.rate_limit,
        0 <= i < state.history.addresses.len(),
        among(state.history.addresses[i].key, incoming.addresses@),
        now.nanos - state.history.addresses[i].last_fulfilled.nanos < state.rate_limit,
        forall|j: int|
            0 <= j < i && among((#[trigger] state.history.addresses[j]).key, incoming.addresses@)
                ==> now.nanos - state.history.addresses[j].last_fulfilled.nanos
                >= state.rate_limit,
    ensures
        ({
            let entry = state.history.addresses[i];
            let left = entry.last_fulfilled.nanos + state.rate_limit - now.nanos;
            &&& state.passes_on(incoming, now) <==> !state.dry_run && entry.notified == 0
            &&& state.reply_text(incoming, now) == if state.dry_run || state.reply_limit == 0
                || entry.notified > state.reply_limit {
                None
            } else {
                Some(wait_text(left as nat, 2))
            }
        }),
{
    let entries = state.history.addresses;
    let pruned = state.history.pruned(now, state.rate_limit);
    let wanted = is_listed(incoming.addresses@);
    lemma_no_user_left(state, incoming.author_id, now);
    let removed = lemma_unexpired(entries, now, state.rate_limit);
    lemma_pruned_in_order(entries, now, state.rate_limit);
    if i < removed {
        assert(expired(entries[i], now, state.rate_limit));
    }
    assert(pruned.addresses[i - removed] == entries[i]);
    assert forall|j: int| 0 <= j < i - removed implies !wanted(
        #[trigger] pruned.addresses[j].key,
    ) by {
        assert(pruned.addresses[j] == entries[removed + j]);
        assert(!expired(pruned.addresses[j], now, state.rate_limit));
    }
    lemma_first_index_is(pruned.addresses, wanted, i - removed);
}

proof fn lemma_no_user_left(state: HandlerView, user: UserId, now: Moment)
    requires
        in_order(state.history.users, now),
        forall|j: int|
            0 <= j < state.history.users.len() && (#[trigger] state.history.users[j]).key == user
                ==> now.nanos - state.history.users[j].last_fulfilled.nanos >= state.rate_limit,
    ensures
        first_index(state.history.pruned(now, state.rate_limit).users, is_user(user)) is None,
{
    let users = state.history.users;
    let pruned = state.history.pruned(now, state.rate_limit).users;
    let removed = lemma_unexpired(users, now, state.rate_limit);
    lemma_pruned_in_order(users, now, state.rate_limit);
    assert forall|j: int| 0 <= j < pruned.len() implies !is_user(user)(
        #[trigger] pruned[j].key,
    ) by {
        assert(pruned[j] == users[removed + j]);
        assert(!expired(pruned[j], now, state.rate_limit));
    }
    lemma_first_index_none(pruned, is_user(user));
}

/// Requests that were answered at least the rate limit ago hold nothing back: if there are no others
/// of the user or for one of the addresses, a message is passed on, and nothing is replied at once.
pub proof fn law_the_rate_limit_passes(state: HandlerView, incoming: Incoming, now: Moment)
    requires
        incoming.guild_id is Some,
        incoming.guild_channel is Some,
        incoming.may_send == Some(true),
        incoming.author_id != incoming.self_id,
        incoming.addresses@.len() > 0,
        in_order(state.history.users, now),
        in_order(state.history.addresses, now),
        forall|j: int|
            0 <= j < state.history.users.len() && (#[trigger] state.history.users[j]).key
                == incoming.author_id ==> now.nanos - state.history.users[j].last_fulfilled.nanos
                >= state.rate_limit,
        forall|j: int|
            0 <= j < state.history.addresses.len() && among(
                (#[trigger] state.history.addresses[j]).key,
                incoming.addresses@,
            ) ==> now.nanos - state.history.addresses[j].last_fulfilled.nanos >= state.rate_limit,
    ensures
        state.passes_on(incoming, now) <==> !state.dry_run,
        state.reply_text(incoming, now) is None,
{
    let entries = state.history.addresses;
    let pruned = state.history.pruned(now, state.rate_limit);
    let wanted = is_listed(incoming.addresses@);
    lemma_no_user_left(state, incoming.author_id, now);
    let removed = lemma_unexpired(entries, now, state.rate_limit);
    lemma_pruned_in_order(entries, now, state.rate_limit);
    assert forall|j: int| 0 <= j < pruned.addresses.len() implies !wanted(
        #[trigger] pruned.addresses[j].key,
    ) by {
        assert(pruned.addresses[j] == entries[removed + j]);
        assert(!expired(pruned.addresses[j], now, state.rate_limit));
    }
    lemma_first_index_none(pruned.addresses, wanted);
}

/// A message that is passed on leaves an entry for its author and one for each of its addresses, all
/// from now and with a count of one, whatever else is in the history. So does one that would be
/// passed on but for read-only mode.
pub proof fn law_answered_requests_are_recorded(state: HandlerView, incoming: Incoming, now: Moment)
    requires
        (HandlerView { dry_run: false, ..state }).passes_on(incoming, now),
    ensures
        ({
            let after = state.after(incoming, now).history;
            let n = after.users.len() - 1;
            let m = after.addresses.len() - incoming.addresses@.len();
            &&& n >= 0
            &&& m >= 0
            &&& after.users[n].key == incoming.author_id
            &&& after.users[n].last_fulfilled == now
            &&& after.users[n].notified == 1
            &&& forall|i: int|
                0 <= i < incoming.addresses@.len() ==> {
                    let entry = after.addresses[m + i];
                    &&& entry.key == #[trigger] incoming.addresses@[i]
                    &&& entry.last_fulfilled == now
                    &&& entry.notified == 1
                }
        }),
{
}

/// A message changes nothing but the history and the latest reading of the clock. One without
/// addresses only prunes the history, and none adds more than an entry for the user and one for each
/// address.
pub proof fn law_messages_change_only_the_history(
    state: HandlerView,
    incoming: Incoming,
    now: Moment,
)
    ensures
        ({
            let after = state.after(incoming, now);
            &&& after.rate_limit == state.rate_limit
            &&& after.reply_limit == state.reply_limit
            &&& after.dry_run == state.dry_run
            &&& after.latest == now
            &&& admitted(incoming) && incoming.addresses@.len() == 0 ==> after.history
                == state.history.pruned(now, state.rate_limit)
            &&& after.history.users.len() <= state.history.users.len() + 1
            &&& after.history.addresses.len() <= state.history.addresses.len()
                + incoming.addresses@.len()
        }),
{
    let user = incoming.author_id;
    lemma_unexpired(state.history.users, now, state.rate_limit);
    lemma_unexpired(state.history.addresses, now, state.rate_limit);
    let pruned = state.history.pruned(now, state.rate_limit);
    lemma_first_index(pruned.users, is_user(user));
    lemma_first_index(pruned.addresses, is_listed(incoming.addresses@));
}

/// A user is asked to wait in these words, whatever the time that is left is called.
pub proof fn law_wait_words_tell_the_time(remaining: Seq<char>)
    ensures
        ({
            let text = wait_words(remaining);
            let (before, behind) = (
                "Please wait for another "@,
                " before requesting more tokens. Thanks!"@,
            );
            &&& before.is_prefix_of(text)
            &&& behind.is_suffix_of(text)
            &&& text.len() == before.len() + remaining.len() + behind.len()
            &&& text.skip(before.len() as int).take(remaining.len() as int) == remaining
        }),
{
    let text = wait_words(remaining);
    let (before, behind) = (
        "Please wait for another "@,
        " before requesting more tokens. Thanks!"@,
    );
    assert(text.subrange(0, before.len() as int) =~= before);
    assert(text.subrange(text.len() - behind.len(), text.len() as int) =~= behind);
    assert(text.skip(before.len() as int).take(remaining.len() as int) =~= remaining);
}

/// The bot takes notice of a message just when it was posted in a known channel of a guild in which
/// the bot may send messages, and not by the bot itself.
pub proof fn law_who_is_heard(incoming: Incoming)
    ensures
        admitted(incoming) <==> incoming.guild_id is Some && incoming.guild_channel is Some
            && incoming.may_send == Some(true) && incoming.author_id != incoming.self_id,
{
}

/// A message that is not posted in a known channel of a guild, or where the bot may not send messages,
/// or by the bot itself, has no effect at all. One without addresses, or in a dry run, is neither
/// answered nor passed on. What is passed on asks for just the addresses of the message.
pub proof fn law_what_messages_do(
    handler: &mut Handler,
    incoming: Incoming,
    now: Moment,
    reaction: Reaction,
)
    requires
        call_ensures(Handler::message_at, (handler, &incoming, now), reaction),
    ensures
        incoming.guild_id is None || incoming.guild_channel is None || incoming.may_send != Some(true)
            || incoming.author_id == incoming.self_id ==> {
            &&& reaction.reply is None
            &&& reaction.request is None
            &&& final(handler)@.history == old(handler)@.history
        },
        old(handler)@.dry_run || incoming.addresses@.len() == 0 ==> reaction.reply is None
            && reaction.request is None,
        reaction.request matches Some(request) ==> request.addresses@ == incoming.addresses@,
        reaction.reply is Some ==> old(handler)@.reply_limit > 0,
        final(handler)@.latest == now,
        final(handler)@.rate_limit == old(handler)@.rate_limit,
        final(handler)@.reply_limit == old(handler)@.reply_limit,
        final(handler)@.dry_run == old(handler)@.dry_run,
{
}

/// A message is handled just as if the time at which it is handled were given.
pub proof fn law_messages_are_handled_at_their_time(
    handler: &mut Handler,
    incoming: Incoming,
    reaction: Reaction,
)
    requires
        call_ensures(Handler::message, (handler, &incoming), reaction),
    ensures
        ({
            let now = final(handler)@.latest;
            &&& now.nanos >= old(handler)@.latest.nanos
            &&& final(handler)@ == old(handler)@.after(incoming, now)
            &&& reaction.reply is Some <==> old(handler)@.reply_text(incoming, now) is Some
            &&& reaction.reply is Some ==> old(handler)@.reply_text(incoming, now) == Some(
                reaction.reply->0@,
            )
            &&& reaction.request is Some <==> old(handler)@.passes_on(incoming, now)
            &&& reaction.request is Some ==> reaction.request->0.addresses@ == incoming.addresses@
        }),
{
}

/// A response is summed up for the user, and leaves what is known of the requests alone. Without one
/// nothing is said, and the requests of the user and for the addresses are not counted any more.
pub proof fn law_conclusions(
    handler: &mut Handler,
    user: UserId,
    addresses: Vec<AddressOrAlmost>,
    response: Option<&Response>,
    roles: Vec<Role>,
    reply: Option<String>,
)
    requires
        call_ensures(Handler::conclude, (handler, user, &addresses, response, &roles), reply),
    ensures
        reply is Some <==> response is Some,
        response matches Some(response) ==> {
            &&& final(handler)@ == old(handler)@
            &&& reply->0@ == response.summary_text(roles@)
        },
        response is None ==> {
            &&& final(handler)@.history == old(handler)@.history.failed(user, addresses@)
            &&& final(handler)@.latest == old(handler)@.latest
            &&& final(handler)@.rate_limit == old(handler)@.rate_limit
            &&& final(handler)@.reply_limit == old(handler)@.reply_limit
            &&& final(handler)@.dry_run == old(handler)@.dry_run
        },
{
}

/// A message is processed just when it is known in which guild and in which channel it was posted, and
/// answered just where the bot is permitted to, and never if it is the bot's own.
pub proof fn law_processed_where_known(
    user: UserId,
    name: String,
    guild: Option<GuildId>,
    channel: Option<ChannelId>,
    made: Result<MessageInfo, MessageInfoError>,
    handler: Handler,
    may_send: Option<bool>,
    bot: UserId,
    should: bool,
)
    requires
        call_ensures(MessageInfo::new, (user, &name, guild, channel), made),
        made is Ok ==> call_ensures(
            Handler::should_send,
            (&handler, may_send, bot, &made->Ok_0),
            should,
        ),
    ensures
        made is Ok <==> guild is Some && channel is Some,
        made matches Ok(info) ==> {
            &&& info.user_id == user
            &&& info.user_name == name
            &&& guild == Some(info.guild_id)
            &&& channel == Some(info.guild_channel)
            &&& should <==> user != bot && may_send == Some(true)
        },
        made == Err::<MessageInfo, _>(MessageInfoError::UnknownGuild) <==> guild is None,
{
}

} // verus!
