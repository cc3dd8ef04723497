use galileo::address::{Address, TransactionId};
use galileo::catchup::{notification, Backlog, Catchup};
use galileo::ids::{ChannelId, UserId};
use galileo::responder::response::Response;

fn success() -> Response {
    let address = Address { encoded: "penumbra1a".to_string(), short: "a".to_string() };
    let id = TransactionId { hash: [0; 32], text: "00".to_string() };
    Response { succeeded: vec![(address, id)], failed: vec![], unparsed: vec![], remaining: vec![] }
}

fn failure() -> Response {
    let unparsed = vec!["penumbra1x".to_string()];
    Response { succeeded: vec![], failed: vec![], unparsed, remaining: vec![] }
}

#[test]
fn notifications_mention_those_who_were_given_tokens() {
    let mut batch = vec![(UserId(1), success()), (UserId(2), failure()), (UserId(3), success())];
    assert_eq!(
        notification(&mut batch),
        "Catching up on backlog: <@1> <@3> should all have tokens now!"
    );
    assert!(batch.is_empty());
    assert_eq!(notification(&mut batch), "Catching up on backlog: should all have tokens now!");
}

#[test]
fn every_result_is_reported_once() {
    let mut catchup = Catchup::new(ChannelId(5), 2, false);
    assert_eq!(catchup.channel_id, ChannelId(5));
    let mut texts = vec![];
    for user in 1..=5 {
        texts.extend(catchup.record(UserId(user), success()));
    }
    texts.extend(catchup.finish());
    let expected = vec![
        "Catching up on backlog: <@1> <@2> should all have tokens now!",
        "Catching up on backlog: <@3> <@4> should all have tokens now!",
        "Catching up on backlog: <@5> should all have tokens now!",
    ];
    assert_eq!(texts, expected);
    assert_eq!(catchup.finish(), None);
}

#[test]
fn a_batch_size_of_none_reports_one_by_one() {
    let mut catchup = Catchup::new(ChannelId(5), 0, false);
    assert!(catchup.record(UserId(1), success()).is_some());
    assert!(catchup.record(UserId(2), success()).is_some());
    assert_eq!(catchup.finish(), None);
}

#[test]
fn every_user_is_caught_up_once() {
    let mut backlog = Backlog::new();
    assert!(backlog.observe(UserId(1), "latest of 1"));
    assert!(backlog.observe(UserId(2), "only of 2"));
    assert!(!backlog.observe(UserId(1), "earlier of 1"));
    assert!(backlog.observe(UserId(3), "only of 3"));
    assert_eq!(backlog.next(), Some((UserId(3), "only of 3")));
    assert_eq!(backlog.next(), Some((UserId(2), "only of 2")));
    assert_eq!(backlog.next(), Some((UserId(1), "latest of 1")));
    assert_eq!(backlog.next(), None);
}

#[test]
fn nothing_is_requested_in_read_only_mode() {
    let mut backlog = Backlog::new();
    backlog.observe(UserId(1), "a");
    assert_eq!(Catchup::new(ChannelId(5), 2, true).next_request(&mut backlog), None);
    let catchup = Catchup::new(ChannelId(5), 2, false);
    assert_eq!(catchup.next_request(&mut backlog), Some((UserId(1), "a")));
    assert_eq!(catchup.next_request(&mut backlog), None);
}
