use galileo::address::{Address, AssetId, TransactionId, Value};
use galileo::sender::service::{concurrency, senders};
use galileo::sender::{
    BatchControl, BatchStep, BroadcastStatus, NextStep, Progress, SendError, Sender, SenderSet,
    Stage, Transfer, BATCH_SECONDS, BATCH_SIZE,
};

fn address(name: &str) -> Address {
    Address { encoded: format!("penumbra1{}", name), short: name.to_string() }
}

fn value(amount: u128) -> Value {
    Value { amount, asset_id: AssetId { bytes: [1; 32] } }
}

fn id() -> TransactionId {
    TransactionId { hash: [9; 32], text: "0909".to_string() }
}

#[test]
fn requests_are_sent_once_and_in_order() {
    let mut sender = Sender::new(3);
    let first = (address("a"), vec![value(1), value(2)]);
    let second = (address("b"), vec![value(3)]);
    assert!(matches!(sender.call(BatchControl::Item(first)), BatchStep::AwaitResult { batch: 0 }));
    assert!(matches!(sender.call(BatchControl::Item(second)), BatchStep::AwaitResult { batch: 0 }));
    match sender.call(BatchControl::Flush) {
        BatchStep::Send(order) => {
            assert_eq!(order.batch, 0);
            assert_eq!(order.account, 3);
            assert_eq!(order.return_address, 0);
            assert_eq!(order.memo, "Hello from Galileo, the Penumbra faucet bot");
            let expected = vec![
                (value(1), address("a")),
                (value(2), address("a")),
                (value(3), address("b")),
            ];
            assert_eq!(order.outputs, expected);
        }
        other => panic!("{:?}", other),
    }
    match sender.call(BatchControl::Flush) {
        BatchStep::Refuse(error) => {
            assert!(matches!(error, SendError::EmptyBatch));
            assert_eq!(error.message(), "tried to send empty list of values to address");
        }
        other => panic!("{:?}", other),
    }
    assert_eq!((BATCH_SIZE, BATCH_SECONDS), (25, 5));
}

#[test]
fn requests_are_answered_with_the_outcome_of_their_batch() {
    let mut sender = Sender::new(0);
    let mut waiting = vec![];
    let mut sent = vec![];
    for name in ["a", "b", "c"] {
        let request = (address(name), vec![value(1)]);
        match sender.call(BatchControl::Item(request)) {
            BatchStep::AwaitResult { batch } => waiting.push(batch),
            other => panic!("{:?}", other),
        }
        if name != "a" {
            assert!(sender.has_room());
            match sender.call(BatchControl::Flush) {
                BatchStep::Send(order) => sent.push((order.batch, order.outputs)),
                other => panic!("{:?}", other),
            }
        }
    }
    assert_eq!(waiting, vec![0, 0, 1]);
    assert_eq!(sent[0], (0, vec![(value(1), address("a")), (value(1), address("b"))]));
    assert_eq!(sent[1], (1, vec![(value(1), address("c"))]));
    let failed = Transfer::start(0).outcome(&NextStep::Fail(SendError::NoAuthData)).unwrap();
    assert_eq!(failed.clone().answer(0), Some(Err("no auth data".to_string())));
    assert_eq!(failed.answer(1), None);
    let confirm = NextStep::Confirm { report: String::new(), id: id() };
    let confirmed = Transfer::start(1).outcome(&confirm).unwrap();
    assert_eq!(confirmed.clone().answer(0), None);
    assert_eq!(confirmed.answer(1), Some(Ok(id())));
    assert!(Transfer::start(1).outcome(&NextStep::Witness).is_none());
}

#[test]
fn a_transaction_is_seen_through() {
    let mut transfer = Transfer::start(4);
    assert_eq!(transfer.stage, Stage::Planning);
    assert!(matches!(transfer.advance(Progress::Planned), NextStep::Authorize));
    let authorized = Progress::Authorized { has_data: true };
    assert!(matches!(transfer.advance(authorized), NextStep::Witness));
    assert!(matches!(transfer.advance(Progress::Witnessed), NextStep::Build));
    assert!(matches!(transfer.advance(Progress::Built { id: id() }), NextStep::Broadcast));
    assert!(matches!(
        transfer.advance(Progress::Status(BroadcastStatus::Other)),
        NextStep::AwaitStatus { printed: None }
    ));
    match transfer.advance(Progress::Status(BroadcastStatus::BroadcastSuccess)) {
        NextStep::AwaitStatus { printed } => {
            assert_eq!(printed, Some("transaction broadcast successfully: 0909".to_string()))
        }
        other => panic!("{:?}", other),
    }
    let confirmed = BroadcastStatus::Confirmed { detection_height: 120 };
    match transfer.advance(Progress::Status(confirmed)) {
        NextStep::Confirm { report, id: confirmed } => {
            assert_eq!(report, "transaction confirmed and detected: 0909 @ height 120");
            assert_eq!(confirmed, id());
        }
        other => panic!("{:?}", other),
    }
    assert_eq!(transfer.stage, Stage::Finished);
}

#[test]
fn a_transaction_may_fail() {
    let mut transfer = Transfer::start(4);
    transfer.advance(Progress::Planned);
    match transfer.advance(Progress::Authorized { has_data: false }) {
        NextStep::Fail(error) => assert_eq!(error.message(), "no auth data"),
        other => panic!("{:?}", other),
    }
    assert_eq!(transfer.stage, Stage::Finished);

    let mut transfer = Transfer::start(4);
    match transfer.advance(Progress::Broken("no notes".to_string())) {
        NextStep::Fail(error) => assert_eq!(error.message(), "no notes"),
        other => panic!("{:?}", other),
    }

    let mut transfer = Transfer { batch: 4, stage: Stage::Broadcasting, id: Some(id()) };
    match transfer.advance(Progress::Closed) {
        NextStep::Fail(error) => assert_eq!(
            error.message(),
            "view server closed stream without reporting transaction confirmation"
        ),
        other => panic!("{:?}", other),
    }
}

#[test]
fn every_sender_is_handed_out_once() {
    let mut set = SenderSet::new(senders(4));
    for expected in [3, 2, 1, 0] {
        let (key, sender) = set.poll_next().unwrap();
        assert_eq!(key, expected);
        assert_eq!(sender.account, expected);
        assert!(sender.batch.is_empty());
    }
    assert!(set.poll_next().is_none());
    assert!(set.poll_next().is_none());
    assert_eq!(concurrency(4), 4);
}
