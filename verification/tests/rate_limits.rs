use galileo::address::{Address, AddressOrAlmost};
use galileo::handler::{wait_message, Handler, Incoming, MessageInfo, MessageInfoError, Reaction};
use galileo::ids::{ChannelId, GuildId, UserId};
use galileo::responder::response::Response;
use galileo::send_history::SendHistory;
use galileo::time::{Duration, Moment};

const HOUR: u64 = 3600;

fn at(secs: u128) -> Moment {
    Moment { nanos: secs * 1_000_000_000 }
}

fn valid(name: &str) -> AddressOrAlmost {
    AddressOrAlmost::Address(Box::new(Address {
        encoded: format!("penumbra1{}", name),
        short: format!("penumbra1{}...", &name[..1]),
    }))
}

fn almost(text: &str) -> AddressOrAlmost {
    AddressOrAlmost::Almost(text.to_string())
}

fn message(user: u64, addresses: Vec<AddressOrAlmost>) -> Incoming {
    Incoming {
        author_id: UserId(user),
        author_name: format!("user{}", user),
        guild_id: Some(GuildId(1)),
        guild_channel: Some(ChannelId(2)),
        may_send: Some(true),
        self_id: UserId(99),
        addresses,
    }
}

fn is_silent(reaction: &Reaction) -> bool {
    reaction.reply.is_none() && reaction.request.is_none()
}

fn is_passed_on(reaction: &Reaction) -> bool {
    reaction.reply.is_none() && reaction.request.is_some()
}

const WAIT: &str = "Please wait for another 30m before requesting more tokens. Thanks!";

#[test]
fn the_notice_says_how_long_to_wait() {
    assert_eq!(wait_message(&"30m".to_string()), WAIT);
}

#[test]
fn new_requests_are_passed_on() {
    let mut handler = Handler::new(Duration::from_secs(HOUR), 5, false);
    let reaction = handler.message_at(&message(1, vec![valid("a"), almost("b")]), at(0));
    assert!(reaction.reply.is_none());
    let request = reaction.request.unwrap();
    assert_eq!(*request.addresses(), vec![valid("a"), almost("b")]);
}

#[test]
fn the_clock_is_read_for_each_message() {
    let mut handler = Handler::new(Duration::from_secs(HOUR), 5, false);
    assert!(is_passed_on(&handler.message(&message(1, vec![valid("a")]))));
    let reaction = handler.message(&message(1, vec![valid("a")]));
    assert!(reaction.request.is_none());
    let reply = reaction.reply.unwrap();
    assert!(reply.starts_with("Please wait for another 59m"), "{}", reply);
}

#[test]
fn a_user_waits_out_the_rate_limit() {
    let mut handler = Handler::new(Duration::from_secs(HOUR), 5, false);
    assert!(is_passed_on(&handler.message_at(&message(1, vec![valid("a")]), at(0))));
    let reaction = handler.message_at(&message(1, vec![valid("b")]), at(1800));
    assert_eq!(reaction.reply, Some(WAIT.to_string()));
    assert!(reaction.request.is_none());
    let reaction = handler.message_at(&message(1, vec![valid("b")]), at(3599));
    assert_eq!(
        reaction.reply,
        Some("Please wait for another 1s before requesting more tokens. Thanks!".to_string())
    );
    assert!(is_passed_on(&handler.message_at(&message(1, vec![valid("b")]), at(3600))));
}

#[test]
fn an_address_waits_out_the_rate_limit() {
    let mut handler = Handler::new(Duration::from_secs(HOUR), 5, false);
    assert!(is_passed_on(&handler.message_at(&message(1, vec![valid("a"), almost("x")]), at(0))));
    let reaction = handler.message_at(&message(2, vec![valid("c"), valid("a")]), at(1800));
    assert_eq!(reaction.reply, Some(WAIT.to_string()));
    assert!(reaction.request.is_none());
    let reaction = handler.message_at(&message(3, vec![almost("x")]), at(1800));
    assert!(reaction.request.is_none());
    assert!(is_passed_on(&handler.message_at(&message(4, vec![valid("x")]), at(1800))));
    assert!(is_passed_on(&handler.message_at(&message(2, vec![valid("a")]), at(3600))));
}

#[test]
fn a_user_is_told_of_the_rate_limit_only_so_often() {
    for limit in [0, 1, 5] {
        let mut handler = Handler::new(Duration::from_secs(HOUR), limit, false);
        assert!(is_passed_on(&handler.message_at(&message(1, vec![valid("a")]), at(0))));
        let mut told = 0;
        for _ in 0..20 {
            let reaction = handler.message_at(&message(1, vec![valid("a")]), at(1800));
            assert!(reaction.request.is_none());
            if reaction.reply.is_some() {
                told += 1;
            }
        }
        assert_eq!(told, limit);
    }
}

#[test]
fn a_failure_lifts_the_rate_limit() {
    let mut handler = Handler::new(Duration::from_secs(HOUR), 5, false);
    assert!(is_passed_on(&handler.message_at(&message(1, vec![valid("a")]), at(0))));
    assert_eq!(handler.conclude(UserId(1), &vec![valid("a")], None, &vec![]), None);
    let reaction = handler.message_at(&message(1, vec![valid("a")]), at(1800));
    assert_eq!(reaction.reply, Some(WAIT.to_string()));
    assert!(reaction.request.is_some());
    assert!(handler.message_at(&message(1, vec![valid("a")]), at(1800)).request.is_none());
}

#[test]
fn a_failure_lifts_the_rate_limit_after_further_messages() {
    let mut handler = Handler::new(Duration::from_secs(HOUR), 5, false);
    assert!(is_passed_on(&handler.message_at(&message(1, vec![valid("a")]), at(0))));
    for _ in 0..3 {
        assert!(handler.message_at(&message(1, vec![valid("a")]), at(900)).request.is_none());
    }
    assert_eq!(handler.conclude(UserId(1), &vec![valid("a")], None, &vec![]), None);
    let reaction = handler.message_at(&message(1, vec![valid("b")]), at(1800));
    assert_eq!(reaction.reply, Some(WAIT.to_string()));
    assert!(reaction.request.is_some());
}

#[test]
fn a_response_is_summed_up() {
    let mut handler = Handler::new(Duration::from_secs(HOUR), 5, false);
    assert!(is_passed_on(&handler.message_at(&message(1, vec![valid("a")]), at(0))));
    let response = Response {
        succeeded: vec![],
        failed: vec![],
        unparsed: vec!["penumbra1x".to_string()],
        remaining: vec![],
    };
    assert_eq!(
        handler.conclude(UserId(1), &vec![valid("a")], Some(&response), &vec![]),
        Some(response.summary(&vec![]))
    );
    assert!(handler.message_at(&message(1, vec![valid("a")]), at(1)).request.is_none());
}

#[test]
fn dry_run_sends_nothing() {
    let mut handler = Handler::new(Duration::from_secs(HOUR), 5, true);
    assert!(is_silent(&handler.message_at(&message(1, vec![valid("a")]), at(0))));
    assert!(is_silent(&handler.message_at(&message(1, vec![valid("a")]), at(1))));
}

#[test]
fn unadmitted_messages_are_ignored() {
    let mut handler = Handler::new(Duration::from_secs(HOUR), 5, false);
    let mut own = message(99, vec![valid("a")]);
    assert!(is_silent(&handler.message_at(&own, at(0))));
    own.author_id = UserId(1);
    own.guild_id = None;
    assert!(is_silent(&handler.message_at(&own, at(0))));
    own.guild_id = Some(GuildId(1));
    own.guild_channel = None;
    assert!(is_silent(&handler.message_at(&own, at(0))));
    own.guild_channel = Some(ChannelId(2));
    own.may_send = Some(false);
    assert!(is_silent(&handler.message_at(&own, at(0))));
    own.may_send = None;
    assert!(is_silent(&handler.message_at(&own, at(0))));
    own.may_send = Some(true);
    own.addresses = vec![];
    assert!(is_silent(&handler.message_at(&own, at(0))));
    own.addresses = vec![valid("a")];
    assert!(handler.has_room(&own));
    assert!(is_passed_on(&handler.message_at(&own, at(0))));
}

#[test]
fn message_info_needs_a_known_place() {
    let name = "kate".to_string();
    let info = MessageInfo::new(UserId(1), &name, Some(GuildId(2)), Some(ChannelId(3))).unwrap();
    assert_eq!(info.user_id, UserId(1));
    assert_eq!(info.user_name, "kate");
    assert_eq!(info.guild_id, GuildId(2));
    assert_eq!(info.guild_channel, ChannelId(3));
    assert_eq!(
        MessageInfo::new(UserId(1), &name, None, Some(ChannelId(3))).unwrap_err(),
        MessageInfoError::UnknownGuild
    );
    assert_eq!(
        MessageInfo::new(UserId(1), &name, Some(GuildId(2)), None).unwrap_err(),
        MessageInfoError::UnknownChannel
    );
    let handler = Handler::new(Duration::from_secs(HOUR), 5, false);
    assert!(handler.should_send(Some(true), UserId(9), &info));
    assert!(!handler.should_send(Some(false), UserId(9), &info));
    assert!(!handler.should_send(None, UserId(9), &info));
    assert!(!handler.should_send(Some(true), UserId(1), &info));
}

#[test]
fn history_counts_up_and_failures_reset_it() {
    let hour = Duration::from_secs(HOUR);
    let mut history = SendHistory::new();
    let addresses = vec![valid("a"), valid("b")];
    assert_eq!(history.is_rate_limited(UserId(1), &addresses, hour), None);
    history.record_request(UserId(1), &addresses, at(10));
    assert_eq!(history.is_rate_limited(UserId(1), &vec![], hour), Some((at(3610), 1)));
    assert_eq!(history.is_rate_limited(UserId(1), &addresses, hour), Some((at(3610), 2)));
    assert_eq!(history.is_rate_limited(UserId(2), &vec![valid("b")], hour), Some((at(3610), 1)));
    assert_eq!(history.is_rate_limited(UserId(2), &vec![valid("b")], hour), Some((at(3610), 2)));
    assert_eq!(history.is_rate_limited(UserId(2), &vec![valid("a")], hour), Some((at(3610), 1)));
    assert_eq!(history.is_rate_limited(UserId(2), &vec![almost("penumbra1a")], hour), None);
    assert_eq!(history.discord_users[0].notified, 3);
    history.record_failure(UserId(1), &vec![valid("b")]);
    assert_eq!(history.discord_users[0].notified, 0);
    assert_eq!(history.penumbra_addresses[0].notified, 2);
    assert_eq!(history.penumbra_addresses[1].notified, 0);
    history.prune(hour, at(3609));
    assert_eq!(history.discord_users.len(), 1);
    history.prune(hour, at(3610));
    assert_eq!(history.discord_users.len(), 0);
    assert_eq!(history.penumbra_addresses.len(), 0);
}

#[test]
fn history_has_room_until_a_count_is_full() {
    let mut history = SendHistory::new();
    history.record_request(UserId(1), &vec![valid("a")], at(0));
    assert!(history.has_room(UserId(1), &vec![valid("a")]));
    history.discord_users[0].notified = usize::MAX;
    assert!(!history.has_room(UserId(1), &vec![]));
    assert!(history.has_room(UserId(2), &vec![valid("a")]));
    history.penumbra_addresses[0].notified = usize::MAX;
    assert!(!history.has_room(UserId(2), &vec![valid("a")]));
    assert!(history.has_room(UserId(2), &vec![valid("b")]));
}
