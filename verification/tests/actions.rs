use galileo::action::{Action, Origin};
use galileo::address::{Address, AddressOrAlmost};
use galileo::ids::{ChannelId, GuildId, MessageId, RoleId, UserId};
use galileo::roles::{mention_admins, Role};
use galileo::time::{Duration, Moment};
use galileo::worker::{Dispensed, Worker};

fn address(name: &str) -> Address {
    Address { encoded: format!("penumbra1{}", name), short: name.to_string() }
}

fn valid(name: &str) -> AddressOrAlmost {
    AddressOrAlmost::Address(Box::new(address(name)))
}

fn origin(guild_id: Option<GuildId>) -> Origin {
    Origin { user_id: UserId(1), guild_id, channel_id: ChannelId(2), message_id: MessageId(3) }
}

fn roles() -> Vec<Role> {
    vec![
        Role { id: RoleId(4), administrator: true },
        Role { id: RoleId(5), administrator: false },
        Role { id: RoleId(6), administrator: true },
    ]
}

#[test]
fn tokens_are_dispensed_up_to_the_maximum() {
    let worker = Worker::new(2);
    let addresses =
        vec![valid("a"), AddressOrAlmost::Almost("x".to_string()), valid("b"), valid("c")];
    let dispensed = worker.dispense(addresses);
    assert_eq!(dispensed.succeeded, vec![address("c"), address("b")]);
    assert!(dispensed.failed.is_empty());
    assert_eq!(dispensed.unparsed, vec!["x".to_string()]);
    assert_eq!(dispensed.remaining, vec![address("a")]);
}

#[test]
fn dispensing_is_summed_up() {
    let worker = Worker::new(1);
    let addresses = vec![valid("a"), AddressOrAlmost::Almost("x".to_string()), valid("b")];
    let action = Action::Dispense { message: origin(None), addresses };
    let (message, reply) = worker.run(action, &vec![], Moment { nanos: 0 });
    assert_eq!(message, origin(None));
    assert_eq!(
        reply,
        "Successfully sent tokens to the following addresses:\n`penumbra1b`\n\
        The following _look like_ Penumbra addresses, but are invalid \
        (maybe a typo or old address version?):\n`x`\n\
        I'm only allowed to send tokens to addresses 1 at a time; \
        try again later to get tokens for the following addresses:\n`penumbra1a`"
    );
}

#[test]
fn administrators_are_called_for_after_failures() {
    let worker = Worker::new(1);
    let dispensed = Dispensed {
        succeeded: vec![],
        failed: vec![(address("a"), "no funds".to_string())],
        unparsed: vec![],
        remaining: vec![],
    };
    let start = "Failed to send tokens to the following addresses:\n\n`penumbra1a` (error: no funds)\n";
    let end = ": you may want to investigate this error :)";
    assert_eq!(
        worker.reply_dispense_summary(&dispensed, &origin(Some(GuildId(9))), &roles()),
        format!("{}<@&4> <@&6>{}", start, end)
    );
    assert_eq!(
        worker.reply_dispense_summary(&dispensed, &origin(Some(GuildId(9))), &vec![]),
        format!("{}{}", start, end)
    );
    assert_eq!(
        worker.reply_dispense_summary(&dispensed, &origin(None), &roles()),
        format!("{}Admin(s){}", start, end)
    );
    assert_eq!(mention_admins(&vec![roles()[1]]), None);
}

#[test]
fn the_rate_limit_is_told_in_up_to_three_units() {
    let worker = Worker::new(1);
    let action = Action::RateLimit {
        message: origin(None),
        last_fulfilled: Moment { nanos: 0 },
        rate_limit: Duration::from_secs(86400),
        addresses: vec![valid("a")],
    };
    let (_, reply) = worker.run(action, &vec![], Moment { nanos: 1_500_000_000 });
    assert_eq!(
        reply,
        "Please wait for another 23h 59m 58s before requesting more tokens. Thanks!"
    );
}
