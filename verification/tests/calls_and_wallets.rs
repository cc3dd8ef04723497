use galileo::address::{Address, AddressOrAlmost, TransactionId};
use galileo::responder::dispense::Dispense;
use galileo::responder::response::Response;
use galileo::rpc::{is_answer_for, Code, Delivery, FaucetServer, SendFundsError};
use galileo::wallet::balance::Balance;
use galileo::wallet::{Wallet, WalletError};

fn address(name: &str) -> Address {
    Address { encoded: name.to_string(), short: name.to_string() }
}

fn id() -> TransactionId {
    TransactionId { hash: [2; 32], text: "02".to_string() }
}

fn response(succeeded: &[&str], failed: &[&str]) -> Response {
    Response {
        succeeded: succeeded.iter().map(|name| (address(name), id())).collect(),
        failed: failed.iter().map(|name| (address(name), "no \"funds\"".to_string())).collect(),
        unparsed: vec![],
        remaining: vec![],
    }
}

#[test]
fn calls_need_a_valid_address() {
    let error = FaucetServer::request(None).unwrap_err();
    assert_eq!(error, SendFundsError::AddressMissing);
    let status = error.status();
    assert_eq!(status.code, Code::InvalidArgument);
    assert_eq!(status.message, "no address was provided");
    let error = FaucetServer::request(Some(Err("bad checksum".to_string()))).unwrap_err();
    assert_eq!(error, SendFundsError::AddressInvalid("bad checksum".to_string()));
    let status = error.status();
    assert_eq!(status.code, Code::InvalidArgument);
    assert_eq!(status.message, "address could not be parsed: 'bad checksum'");
    let (given, request) = FaucetServer::request(Some(Ok(address("a")))).unwrap();
    assert_eq!(given, address("a"));
    assert_eq!(request.addresses, vec![AddressOrAlmost::Address(Box::new(address("a")))]);
}

#[test]
fn calls_are_answered_with_what_the_sender_answered() {
    for result in [Ok(id()), Err("no \"funds\"".to_string())] {
        let (given, request) = FaucetServer::request(Some(Ok(address("a")))).unwrap();
        let (mut dispense, requests) = Dispense::plan(request.addresses, 1, &vec![]);
        assert_eq!(requests.len(), 1);
        dispense.record(result.clone());
        let response = dispense.finish();
        assert!(is_answer_for(&response, &given));
        let answer = FaucetServer::send_funds(&given, Delivery::Answered(response));
        assert_eq!(answer, result.map_err(SendFundsError::SenderError));
    }
}

#[test]
fn calls_report_what_went_wrong() {
    let error = FaucetServer::send_funds(&address("a"), Delivery::NotSent).unwrap_err();
    assert_eq!(error, SendFundsError::SendRequestFailed);
    let status = error.status();
    assert_eq!(status.code, Code::Unavailable);
    assert_eq!(status.message, "failed to send request to send worker");
    let error = FaucetServer::send_funds(&address("a"), Delivery::NoResponse).unwrap_err();
    assert_eq!(error, SendFundsError::ReceiveResponseFailed);
    let status = error.status();
    assert_eq!(status.code, Code::Unavailable);
    assert_eq!(status.message, "failed to receive response from send worker");
    let delivery = Delivery::Answered(response(&[], &["a"]));
    let status = FaucetServer::send_funds(&address("a"), delivery).unwrap_err().status();
    assert_eq!(status.code, Code::Internal);
    assert_eq!(status.message, "failed to send funds: '\"no \\\"funds\\\"\"'");
}

#[test]
fn answers_are_about_one_address() {
    assert!(is_answer_for(&response(&["a"], &[]), &address("a")));
    assert!(is_answer_for(&response(&[], &["a"]), &address("a")));
    assert!(!is_answer_for(&response(&["b"], &[]), &address("a")));
    assert!(!is_answer_for(&response(&[], &["b"]), &address("a")));
    assert!(!is_answer_for(&response(&[], &[]), &address("a")));
    assert!(!is_answer_for(&response(&["a"], &["a"]), &address("a")));
    assert!(!is_answer_for(&response(&["a", "a"], &[]), &address("a")));
    let mut other = response(&["a"], &[]);
    other.unparsed.push("x".to_string());
    assert!(!is_answer_for(&other, &address("a")));
    let mut other = response(&["a"], &[]);
    other.remaining.push(address("b"));
    assert!(!is_answer_for(&other, &address("a")));
}

#[test]
fn wallets_hold_a_spend_key() {
    let contents = "view_url = \"x\"\n[custody]\nbackend = \"SoftKms\"\nspend_key = \"penumbraspendkey1abc\"\n";
    let wallet = Wallet::load(contents).unwrap();
    assert_eq!(wallet.spend_key, "penumbraspendkey1abc");
    assert_eq!(
        wallet.invalid_key_message(),
        "Could not create SpendKey from string: penumbraspendkey1abc"
    );
}

#[test]
fn wallets_may_be_unreadable() {
    assert!(matches!(Wallet::load("[custody"), Err(WalletError::Malformed(_))));
    let number = "[custody]\nspend_key = 12\n";
    assert!(matches!(Wallet::load(number), Err(WalletError::NoSpendKey)));
    assert!(matches!(Wallet::load("[custody]\n"), Err(WalletError::NoSpendKey)));
    assert!(matches!(Wallet::load("spend_key = \"a\"\n"), Err(WalletError::NoSpendKey)));
    assert!(matches!(Wallet::load("custody = 3\n"), Err(WalletError::NoSpendKey)));
    assert!(matches!(Wallet::new(None), Err(WalletError::NoSpendKey)));
    assert_eq!(
        WalletError::no_spend_key_message(),
        "'spend_key' field not found in custody TOML file"
    );
}

#[test]
fn a_new_balance_is_empty() {
    let balance = Balance::default();
    assert!(balance.ready.is_empty());
    assert!(balance.submitted_change.is_empty());
    assert!(balance.submitted_spend.is_empty());
}
