use galileo::address::{Address, AddressOrAlmost, AssetId, Value};
use galileo::ids::{ChannelId, MessageId, UserId};
use galileo::opt::history::{
    gather, parse_channel_id, parse_message_id, AfterNotInChannel, Author, Gathered, History,
    Posted,
};
use galileo::opt::rpc::{NoDataDir, ServeRpc, Socket};
use galileo::opt::serve::{check_values, PreflightError, Serve};
use galileo::opt::{Cause, ChannelIdAndMessageId, Command, IdError, Opt, RunEnd, Service};
use galileo::text::NumberError;
use galileo::time::Duration;

fn value(amount: u128) -> Value {
    Value { amount, asset_id: AssetId { bytes: [0; 32] } }
}

fn serve(values: Vec<Value>) -> Serve {
    Serve {
        rate_limit: Duration::from_secs(86400),
        reply_limit: 5,
        max_addresses: 3,
        account_count: 4,
        data_dir: None,
        node: "https://grpc.testnet.penumbra.zone".to_string(),
        catch_up_after: vec![],
        catch_up_batch_size: 25,
        dry_run: false,
        values,
    }
}

fn serve_rpc(values: Vec<Value>) -> ServeRpc {
    ServeRpc {
        account_count: 4,
        data_dir: None,
        node: "https://grpc.testnet.penumbra.zone".to_string(),
        grpc_bind: None,
        grpc_auto_https: None,
        acme_staging: false,
        values,
    }
}

fn posted(id: u64, user: u64, names: &[&str]) -> Posted {
    let addresses = names
        .iter()
        .map(|name| {
            if name.starts_with('?') {
                AddressOrAlmost::Almost(name.to_string())
            } else {
                AddressOrAlmost::Address(Box::new(address(name)))
            }
        })
        .collect();
    Posted {
        timestamp: format!("2022-12-01T00:00:{:02}Z", id % 60),
        author: Author {
            id: UserId(user),
            name: format!("user{}", user),
            discriminator: 42,
            bot: user == 99,
        },
        id: MessageId(id),
        addresses,
    }
}

fn address(name: &str) -> Address {
    Address { encoded: name.to_string(), short: name.to_string() }
}

fn ids(gathered: &[Gathered]) -> Vec<u64> {
    gathered.iter().map(|message| message.id.0).collect()
}

#[test]
fn messages_are_read_from_urls() {
    let url = "https://discord.com/channels/824484045370818580/915710851917439060/12";
    let expected = ChannelIdAndMessageId {
        channel_id: ChannelId(915710851917439060),
        message_id: MessageId(12),
    };
    assert_eq!(ChannelIdAndMessageId::from_str(url), Ok(expected));
    assert_eq!(ChannelIdAndMessageId::from_str("915710851917439060/12"), Ok(expected));
    assert_eq!(ChannelIdAndMessageId::from_str("<#915710851917439060>/12"), Ok(expected));
    let error = ChannelIdAndMessageId::from_str("12").unwrap_err();
    assert_eq!(error, IdError::NoPair("12".to_string()));
    assert_eq!(error.message(), "invalid channel/message id: 12");
    assert_eq!(ChannelIdAndMessageId::from_str("x/12"), Err(IdError::Format));
    assert_eq!(ChannelIdAndMessageId::from_str("x/y"), Err(IdError::Format));
    let error = ChannelIdAndMessageId::from_str("12/").unwrap_err();
    assert_eq!(error, IdError::Number(NumberError::Empty));
    assert_eq!(error.message(), "cannot parse integer from empty string");
    let error = ChannelIdAndMessageId::from_str("1/x").unwrap_err();
    assert_eq!(error.message(), "invalid digit found in string");
    let error = ChannelIdAndMessageId::from_str("1/18446744073709551616").unwrap_err();
    assert_eq!(error.message(), "number too large to fit in target type");
    assert_eq!(IdError::Format.message(), "invalid id format");
}

#[test]
fn ids_are_read_from_urls() {
    let url = "https://discord.com/channels/824484045370818580/915710851917439060";
    assert_eq!(parse_channel_id(url), Ok(ChannelId(915710851917439060)));
    assert_eq!(parse_channel_id("7"), Ok(ChannelId(7)));
    assert_eq!(parse_channel_id("<#7>"), Err(IdError::Channel));
    assert_eq!(parse_channel_id("7/").unwrap_err().message(), "invalid channel id");
    assert_eq!(parse_message_id("a/b/9"), Ok(MessageId(9)));
    assert_eq!(parse_message_id("").unwrap_err().message(), "invalid message id");
}

#[test]
fn values_must_be_given_and_not_zero() {
    assert_eq!(check_values(&vec![]), Err(PreflightError::NoValues));
    assert_eq!(check_values(&vec![value(1), value(0)]), Err(PreflightError::ZeroValue));
    assert_eq!(check_values(&vec![value(1), value(u128::MAX)]), Ok(()));
    assert_eq!(serve(vec![]).preflight_checks(false), Err(PreflightError::NoValues));
    assert_eq!(serve(vec![value(0)]).preflight_checks(false), Err(PreflightError::ZeroValue));
    assert_eq!(serve(vec![value(1)]).preflight_checks(false), Err(PreflightError::NoToken));
    assert_eq!(serve(vec![value(1)]).preflight_checks(true), Ok(()));
    assert_eq!(serve_rpc(vec![value(0)]).preflight_checks(), Err(PreflightError::ZeroValue));
    assert_eq!(serve_rpc(vec![value(1)]).preflight_checks(), Ok(()));
    assert_eq!(PreflightError::NoValues.message(), "at least one value must be provided");
    assert_eq!(PreflightError::ZeroValue.message(), "all values must be non-zero");
    assert_eq!(PreflightError::NoToken.message(), "missing environment variable DISCORD_TOKEN");
}

#[test]
fn workers_are_made_as_configured() {
    let mut options = serve(vec![value(100)]);
    let first = ChannelIdAndMessageId { channel_id: ChannelId(1), message_id: MessageId(2) };
    let second = ChannelIdAndMessageId { channel_id: ChannelId(3), message_id: MessageId(4) };
    options.catch_up_after = vec![first, second];
    let workers = options.catch_up_worker();
    assert_eq!(workers.len(), 2);
    assert_eq!(workers[0].0.channel_id, ChannelId(1));
    assert_eq!(workers[0].1, MessageId(2));
    assert_eq!(workers[1].0.response_batch_size, 25);
    assert_eq!(workers[1].1, MessageId(4));
    assert!(!workers[0].0.dry_run);
    options.dry_run = true;
    assert!(options.catch_up_worker().iter().all(|worker| worker.0.dry_run));
    let responder = options.responder();
    assert_eq!(responder.max_addresses, 3);
    assert_eq!(responder.values, vec![value(100)]);
    assert_eq!(serve_rpc(vec![value(5)]).responder().max_addresses, 1);
    let opt = Opt { command: Command::Serve(options) };
    assert!(matches!(opt.command, Command::Serve(_)));
}

#[test]
fn the_server_is_bound_to_a_default() {
    let mut options = serve_rpc(vec![value(1)]);
    assert_eq!(options.bind(), Socket::V4 { octets: [127, 0, 0, 1], port: 8080 });
    assert!(options.auto_https().unwrap().is_none());
    options.grpc_auto_https = Some("faucet.example".to_string());
    assert_eq!(options.bind(), Socket::V4 { octets: [0, 0, 0, 0], port: 443 });
    let error = options.auto_https().unwrap_err();
    assert_eq!(error, NoDataDir);
    assert_eq!(error.message(), "data directory must be set to use auto-https");
    options.data_dir = Some("/data".to_string());
    let https = options.auto_https().unwrap().unwrap();
    assert_eq!(https.data_dir, "/data");
    assert_eq!(https.domain, "faucet.example");
    assert!(https.production);
    options.acme_staging = true;
    assert!(!options.auto_https().unwrap().unwrap().production);
    let given = Socket::V6 { segments: [0, 0, 0, 0, 0, 0, 0, 1], port: 9, flowinfo: 0, scope_id: 0 };
    options.grpc_bind = Some(given);
    assert_eq!(options.bind(), given);
}

#[test]
fn errors_are_announced_by_their_service() {
    assert_eq!(Service::Responder.context(), Some("error in responder service".to_string()));
    assert_eq!(Service::Discord.context(), Some("error in discord client service".to_string()));
    assert_eq!(Service::CatchUp.context(), Some("error in catchup service".to_string()));
    assert_eq!(Service::CaughtUpChannel.context(), None);
    assert_eq!(Service::Grpc.context(), Some("error in grpc service".to_string()));
    assert_eq!(Service::Responder.end(), "responder service ended");
    assert_eq!(Service::Discord.end(), "discord client service ended");
    assert_eq!(Service::CatchUp.end(), "catchup service ended");
    assert_eq!(Service::CaughtUpChannel.end(), "catchup service ended");
    assert_eq!(Service::Grpc.end(), "grpc service ended");
}

#[test]
fn the_program_ends_with_an_error() {
    let end = RunEnd::Ended { service: Service::Responder, result: Err("no node".to_string()) };
    let error = end.error();
    assert_eq!(error.context, Some("error in responder service".to_string()));
    assert!(matches!(error.cause, Cause::Failed(text) if text == "no node"));
    let end: RunEnd<String> = RunEnd::Ended { service: Service::Grpc, result: Ok(()) };
    let error = end.error();
    assert_eq!(error.context, Some("error in grpc service".to_string()));
    assert!(matches!(error.cause, Cause::Told(text) if text == "grpc service ended"));
    let end =
        RunEnd::Ended { service: Service::CaughtUpChannel, result: Err("forbidden".to_string()) };
    let error = end.error();
    assert_eq!(error.context, None);
    assert!(matches!(error.cause, Cause::Failed(text) if text == "forbidden"));
    let error = RunEnd::<String>::Cancelled.error();
    assert_eq!(error.context, None);
    assert!(matches!(error.cause, Cause::Told(text) if text == "cancellation received"));
}

#[test]
fn gathering_ends_with_the_earliest_message_to_include() {
    let mut pages = gather(ChannelId(1), None, Some(MessageId(5)));
    assert_eq!(pages.check_after(ChannelId(1)), Ok(()));
    let error = pages.check_after(ChannelId(2)).unwrap_err();
    assert_eq!(error, AfterNotInChannel);
    assert_eq!(error.message(), "after message is not in the channel");
    let first = pages.page(vec![posted(9, 1, &["a"]), posted(8, 2, &[]), posted(7, 3, &["?b"])]);
    assert_eq!(ids(&first), vec![9, 7]);
    assert_eq!(pages.before, Some(MessageId(7)));
    assert!(!pages.finished);
    let second = pages.page(vec![posted(6, 1, &["a"]), posted(5, 2, &["c"]), posted(4, 3, &["d"])]);
    assert_eq!(ids(&second), vec![6, 5]);
    assert!(pages.finished);
    assert!(pages.page(vec![posted(3, 1, &["a"])]).is_empty());
}

#[test]
fn gathering_ends_with_a_message_that_makes_no_request() {
    let mut pages = gather(ChannelId(1), None, Some(MessageId(5)));
    let found = pages.page(vec![posted(6, 1, &["a"]), posted(5, 2, &[]), posted(4, 3, &["d"])]);
    assert_eq!(ids(&found), vec![6]);
    assert!(pages.finished);
}

#[test]
fn gathering_ends_with_the_channel() {
    let mut pages = gather(ChannelId(1), Some(MessageId(10)), None);
    assert_eq!(ids(&pages.page(vec![posted(9, 1, &["a"])])), vec![9]);
    assert_eq!(pages.before, Some(MessageId(9)));
    assert!(pages.page(vec![]).is_empty());
    assert!(pages.finished);
}

#[test]
fn pages_make_no_difference() {
    let all = || (1..=9).rev().map(|id| posted(id, id, if id % 3 == 0 { &[] } else { &["a"] }));
    for size in 1..=9 {
        let mut pages = gather(ChannelId(1), None, Some(MessageId(3)));
        let mut found = vec![];
        let mut messages = all().peekable();
        while messages.peek().is_some() {
            let page = messages.by_ref().take(size).collect();
            found.extend(ids(&pages.page(page)));
        }
        assert_eq!(found, vec![8, 7, 5, 4]);
    }
}

#[test]
fn the_export_starts_with_the_last_message_to_include() {
    let mut options = History { channel: ChannelId(1), before: None, after: Some(MessageId(2)) };
    assert_eq!(options.start().before, None);
    assert_eq!(options.start().after, Some(MessageId(2)));
    options.before = Some(MessageId(7));
    assert_eq!(options.start().before, Some(MessageId(8)));
    options.before = Some(MessageId(u64::MAX));
    assert_eq!(options.start().before, None);
}

#[test]
fn the_export_has_a_row_for_each_valid_address() {
    let mut pages = gather(ChannelId(1), None, None);
    let found = pages.page(vec![posted(9, 1, &["a", "?x", "b"]), posted(8, 99, &["c"])]);
    let rows = History::rows(&found[0]);
    assert_eq!(rows.len(), 2);
    assert_eq!(rows[0].address, address("a"));
    assert_eq!(rows[1].address, address("b"));
    assert_eq!(rows[1].timestamp, "2022-12-01T00:00:09Z");
    assert_eq!(rows[1].user_name, "user1");
    assert_eq!(rows[1].user_discriminator, 42);
    assert_eq!(rows[1].user_id, UserId(1));
    assert_eq!(rows[1].message_id, MessageId(9));
    assert!(History::rows(&found[1]).is_empty());
}
