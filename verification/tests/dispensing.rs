use galileo::address::{Address, AddressOrAlmost, AssetId, TransactionId, Value};
use galileo::ids::RoleId;
use galileo::responder::dispense::Dispense;
use galileo::responder::request::Request;
use galileo::responder::response::Response;
use galileo::roles::Role;
use galileo::responder::{Responder, REQUEST_CAPACITY, SENDER_CAPACITY};

fn address(name: &str) -> Address {
    Address { encoded: format!("penumbra1{}", name), short: format!("{}...", name) }
}

fn valid(name: &str) -> AddressOrAlmost {
    AddressOrAlmost::Address(Box::new(address(name)))
}

fn almost(text: &str) -> AddressOrAlmost {
    AddressOrAlmost::Almost(text.to_string())
}

fn id(byte: u8) -> TransactionId {
    TransactionId { hash: [byte; 32], text: format!("tx{}", byte) }
}

fn value(amount: u128) -> Value {
    Value { amount, asset_id: AssetId { bytes: [7; 32] } }
}

#[test]
fn at_most_the_maximum_number_of_addresses_is_handled() {
    let list = || vec![valid("a"), valid("b"), almost("c"), valid("d")];
    for max in 0..6 {
        let responder = Responder::new(max, vec![value(100), value(1000)]);
        let (dispense, requests) = responder.begin(Request::try_new(list()).unwrap());
        let expected = match max {
            0 => vec![],
            1 => vec![address("d")],
            2 => vec![address("d"), address("b")],
            _ => vec![address("d"), address("b"), address("a")],
        };
        let sent: Vec<Address> = requests.iter().map(|request| request.0.clone()).collect();
        assert_eq!(sent, expected);
        assert!(requests.iter().all(|request| request.1 == vec![value(100), value(1000)]));
        assert_eq!(dispense.is_answered(), expected.is_empty());
    }
    assert_eq!(REQUEST_CAPACITY, 10);
    assert_eq!(SENDER_CAPACITY, 32);
}

#[test]
fn every_address_is_reported_once() {
    let list = vec![valid("a"), almost("u"), valid("b"), almost("v"), valid("c")];
    let (mut dispense, requests) = Dispense::plan(list, 2, &vec![value(1)]);
    assert_eq!(requests.len(), 2);
    dispense.record(Ok(id(1)));
    assert!(!dispense.is_answered());
    dispense.record(Err("no funds".to_string()));
    assert!(dispense.is_answered());
    let response = dispense.finish();
    assert_eq!(response.succeeded(), [(address("c"), id(1))]);
    assert_eq!(response.failed(), [(address("b"), "no funds".to_string())]);
    assert_eq!(response.unparsed(), ["v".to_string(), "u".to_string()]);
    assert_eq!(response.remaining(), [address("a")]);
    assert!(!response.complete_success());
    assert!(!response.complete_failure());
    assert!(Responder::must_cancel(&response));
}

#[test]
fn invalid_texts_do_not_use_up_the_limit() {
    let list = vec![valid("a"), almost("x")];
    let (mut dispense, requests) = Dispense::plan(list, 1, &vec![value(1)]);
    assert_eq!(requests, vec![(address("a"), vec![value(1)])]);
    dispense.record(Ok(id(1)));
    let response = dispense.finish();
    assert_eq!(response.succeeded(), [(address("a"), id(1))]);
    assert_eq!(response.unparsed(), ["x".to_string()]);
    assert!(response.remaining().is_empty());
}

#[test]
fn only_the_limit_holds_an_address_back() {
    let list = || vec![almost("u"), valid("a"), almost("v"), valid("b"), almost("w"), valid("c")];
    for max in 0..5 {
        let (mut dispense, requests) = Dispense::plan(list(), max, &vec![]);
        for i in 0..requests.len() {
            dispense.record(if i % 2 == 0 { Ok(id(i as u8)) } else { Err("no".to_string()) });
        }
        let response = dispense.finish();
        let paid = response.succeeded().len() + response.failed().len();
        assert_eq!(paid, max.min(3));
        assert_eq!(response.remaining().len(), 3 - paid);
        assert_eq!(response.unparsed().len(), 3);
    }
}

#[test]
fn a_single_address_is_answered_for() {
    let (mut dispense, requests) = Dispense::plan(Request::new(address("a")).addresses, 1, &vec![]);
    assert_eq!(requests, vec![(address("a"), vec![])]);
    dispense.record(Ok(id(3)));
    let response = dispense.finish();
    assert_eq!(response.succeeded(), [(address("a"), id(3))]);
    assert!(response.complete_success());
    assert!(!response.complete_failure());
    assert!(!Responder::must_cancel(&response));
}

#[test]
fn nothing_found_makes_no_request() {
    assert!(Request::try_new(vec![]).is_none());
    let request = Request::try_new(vec![almost("x")]).unwrap();
    assert_eq!(*request.addresses(), vec![almost("x")]);
}

#[test]
fn complete_failures_are_those_without_any_success() {
    let empty = || Response { succeeded: vec![], failed: vec![], unparsed: vec![], remaining: vec![] };
    assert!(empty().complete_success());
    assert!(!empty().complete_failure());
    let mut response = empty();
    response.unparsed.push("x".to_string());
    assert!(response.complete_failure());
    let mut response = empty();
    response.remaining.push(address("a"));
    assert!(response.complete_failure());
    response.succeeded.push((address("b"), id(1)));
    assert!(!response.complete_failure());
    assert!(!response.complete_success());
}

#[test]
fn the_summary_lists_every_address() {
    let response = Response {
        succeeded: vec![(address("a"), id(1)), (address("b"), id(2))],
        failed: vec![(address("c"), "no funds".to_string())],
        unparsed: vec!["penumbra1x".to_string()],
        remaining: vec![address("d")],
    };
    let expected = "Successfully sent tokens to the following addresses:\n\
        `a...`\ntry `pcli v tx tx1`\nor visit https://app.testnet.penumbra.zone/#/tx/tx1\n\
        `b...`\ntry `pcli v tx tx2`\nor visit https://app.testnet.penumbra.zone/#/tx/tx2\
        Failed to send tokens to the following addresses:\n\
        `penumbra1c` (error: no funds)\n\
        admins: you may want to investigate this error :)\n\
        The following _look like_ Penumbra addresses, but are invalid \
        (maybe a typo or old address version?):\n\
        `penumbra1x`\n\
        I'm only allowed to send tokens to addresses 2 at a time; \
        try again later to get tokens for the following addresses:\n\
        `penumbra1d`";
    assert_eq!(response.summary(&vec![]), expected);
    let roles = vec![
        Role { id: RoleId(5), administrator: true },
        Role { id: RoleId(6), administrator: false },
        Role { id: RoleId(7), administrator: true },
    ];
    assert_eq!(response.summary(&roles), expected.replace("admins:", "<@&5> <@&7>:"));
    assert_eq!(response.summary(&vec![roles[1]]), expected);
}

#[test]
fn the_summary_of_nothing_is_empty() {
    let response =
        Response { succeeded: vec![], failed: vec![], unparsed: vec![], remaining: vec![] };
    assert_eq!(response.summary(&vec![]), "");
}

#[test]
fn pieces_are_compared_by_the_whole_address() {
    let other = AddressOrAlmost::Address(Box::new(Address {
        encoded: "penumbra1a".to_string(),
        short: "other".to_string(),
    }));
    assert!(valid("a").same_as(&other));
    assert!(!valid("a").same_as(&valid("b")));
    assert!(!valid("a").same_as(&almost("penumbra1a")));
    assert!(almost("x").same_as(&almost("x")));
    assert!(almost("x").is_among(&vec![valid("x"), almost("x")]));
    assert!(!almost("x").is_among(&vec![]));
}
