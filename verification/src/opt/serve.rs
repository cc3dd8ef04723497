//! Running the bot on Discord.

use vstd::prelude::*;

use crate::address::Value;
use crate::catchup::Catchup;
use crate::handler::Handler;
use crate::handler::HandlerView;
use crate::ids::MessageId;
use crate::ids::UserId;
use crate::opt::ChannelIdAndMessageId;
use crate::responder::response::Response;
use crate::responder::Responder;
use crate::send_history::HistoryView;
use crate::time::Duration;
use crate::time::Moment;

verus! {

/// How the bot is to be run on Discord.
#[derive(Debug)]
pub struct Serve {
    /// Per-user rate limit (e.g. "10m" or "1day").
    pub rate_limit: Duration,
    /// Maximum number of times to reply to a user informing them of the rate limit.
    pub reply_limit: usize,
    /// Maximum number of addresses per message to which to dispense tokens.
    pub max_addresses: usize,
    /// Number of accounts to send funds from. Funds will send from account indices [0, n-1].
    pub account_count: u32,
    /// Path to the directory to use to store data, if it is not the platform's.
    pub data_dir: Option<String>,
    /// The URL of the pd gRPC endpoint on the remote node.
    pub node: String,
    /// Messages of as-yet unhonored fund requests. All messages including and since these are
    /// caught up on.
    pub catch_up_after: Vec<ChannelIdAndMessageId>,
    /// Batch size for responding to catch-up backlog.
    pub catch_up_batch_size: usize,
    /// Disable transaction sending and Discord notifications. Useful for debugging.
    pub dry_run: bool,
    /// The amounts to send for each response.
    pub values: Vec<Value>,
}

/// Why the bot cannot be run.
#[derive(Clone, Copy, Debug, PartialEq, Eq, Structural)]
pub enum PreflightError {
    /// There is nothing to send.
    NoValues,
    /// One of the values to send is zero.
    ZeroValue,
    /// There is no token for Discord.
    NoToken,
}

impl PreflightError {
    /// The text of [`PreflightError::message`].
    pub open spec fn message_text(self) -> Seq<char> {
        match self {
            PreflightError::NoValues => "at least one value must be provided"@,
            PreflightError::ZeroValue => "all values must be non-zero"@,
            PreflightError::NoToken => "missing environment variable DISCORD_TOKEN"@,
        }
    }

    /// Returns a description of the error.
    pub fn message(&self) -> (text: String)
        ensures
            text@ == self.message_text(),
    {
        match self {
            PreflightError::NoValues => "at least one value must be provided".to_owned(),
            PreflightError::ZeroValue => "all values must be non-zero".to_owned(),
            PreflightError::NoToken => "missing environment variable DISCORD_TOKEN".to_owned(),
        }
    }
}

/// Asks `num_traits::Zero::is_zero` of a `u128` whether it is zero, and claims that it answers just
/// that.
pub assume_specification [<u128 as num_traits::Zero>::is_zero](number: &u128) -> (zero: bool)
    ensures
        zero == (*number == 0),
;

/// What is wrong with the values to send, if anything is.
pub open spec fn values_error(values: Seq<Value>) -> Option<PreflightError> {
    if values.len() == 0 {
        Some(PreflightError::NoValues)
    } else if exists|i: int| 0 <= i < values.len() && (#[trigger] values[i]).amount == 0 {
        Some(PreflightError::ZeroValue)
    } else {
        None
    }
}

/// Checks that there are values to send, and that none of them is zero.
pub fn check_values(values: &Vec<Value>) -> (checked: Result<(), PreflightError>)
    ensures
        checked == (match values_error(values@) {
            Some(error) => Err::<(), _>(error),
            None => Ok(()),
        }),
{
    if values.is_empty() {
        return Err(PreflightError::NoValues);
    }
    let mut i: usize = 0;
    while i < values.len()
        invariant
            i <= values@.len(),
            forall|j: int| 0 <= j < i ==> (#[trigger] values@[j]).amount != 0,
        decreases values@.len() - i,
    {
        if num_traits::Zero::is_zero(&values[i].amount) {
            assert(values@[i as int].amount == 0);
            return Err(PreflightError::ZeroValue);
        }
        i = i + 1;
    }
    Ok(())
}

/// Returns a copy of the values to send.
pub fn copy_values(values: &Vec<Value>) -> (copied: Vec<Value>)
    ensures
        copied@ == values@,
{
    let copied = values.clone();
    assert(copied@ =~= values@);
    copied
}

impl Serve {
    /// Perform sanity checks on CLI args prior to running. `has_token` is whether there is a token
    /// for Discord.
    pub fn preflight_checks(&self, has_token: bool) -> (checked: Result<(), PreflightError>)
        ensures
            checked == (match values_error(self.values@) {
                Some(error) => Err::<(), _>(error),
                None => if has_token {
                    Ok(())
                } else {
                    Err(PreflightError::NoToken)
                },
            }),
    {
        match check_values(&self.values) {
            Err(error) => Err(error),
            Ok(()) => {
                if has_token {
                    Ok(())
                } else {
                    Err(PreflightError::NoToken)
                }
            },
        }
    }

    /// Makes the worker that handles the requests.
    pub fn responder(&self) -> (responder: Responder)
        ensures
            responder.max_addresses == self.max_addresses,
            responder.values@ == self.values@,
    {
        Responder::new(self.max_addresses, copy_values(&self.values))
    }

    /// Makes the watcher for Discord messages, which will manage spends and replies.
    pub fn discord_worker(&self) -> (handler: Handler)
        ensures
            handler.wf(),
            handler@ == (HandlerView {
                rate_limit: self.rate_limit@,
                reply_limit: self.reply_limit,
                dry_run: self.dry_run,
                history: HistoryView::empty(),
                latest: Moment { nanos: 0 },
            }),
    {
        Handler::new(self.rate_limit, self.reply_limit, self.dry_run)
    }

    /// Makes a separate worker for each channel to catch up on, with the message to start from. In
    /// read-only mode the workers request nothing.
    pub fn catch_up_worker(&self) -> (workers: Vec<(Catchup, MessageId)>)
        ensures
            workers@.len() == self.catch_up_after@.len(),
            forall|i: int|
                0 <= i < workers@.len() ==> {
                    &&& (#[trigger] workers@[i]).0.channel_id == self.catch_up_after@[i].channel_id
                    &&& workers@[i].0.response_batch_size == self.catch_up_batch_size
                    &&& workers@[i].0.dry_run == self.dry_run
                    &&& workers@[i].0.batch@ == Seq::<(UserId, Response)>::empty()
                    &&& workers@[i].1 == self.catch_up_after@[i].message_id
                },
    {
        let mut workers: Vec<(Catchup, MessageId)> = Vec::new();
        let mut i: usize = 0;
        while i < self.catch_up_after.len()
            invariant
                i <= self.catch_up_after@.len(),
                workers@.len() == i,
                forall|j: int|
                    0 <= j < workers@.len() ==> {
                        &&& (#[trigger] workers@[j]).0.channel_id == self.catch_up_after@[j].channel_id
                        &&& workers@[j].0.response_batch_size == self.catch_up_batch_size
                        &&& workers@[j].0.dry_run == self.dry_run
                        &&& workers@[j].0.batch@ == Seq::<(UserId, Response)>::empty()
                        &&& workers@[j].1 == self.catch_up_after@[j].message_id
                    },
            decreases self.catch_up_after@.len() - i,
        {
            let start = self.catch_up_after[i];
            let catchup = Catchup::new(start.channel_id, self.catch_up_batch_size, self.dry_run);
            workers.push((catchup, start.message_id));
            i = i + 1;
        }
        workers
    }
}

/// Values are in order just when there are some and none of them is zero; that there are none is said
/// of no values only.
pub proof fn law_values_are_checked(values: Seq<Value>)
    ensures
        values_error(values) is None <==> values.len() > 0 && forall|i: int|
            0 <= i < values.len() ==> (#[trigger] values[i]).amount > 0,
        values_error(values) == Some(PreflightError::NoValues) <==> values.len() == 0,
        values_error(values) != Some(PreflightError::NoToken),
{
}

/// The bot runs with what was asked for: it starts only with values to send, none of them zero, and a
/// token; it sends those values to as many addresses as permitted; and it catches up on each of the
/// given channels from the given message on.
pub proof fn law_options_are_used(
    options: Serve,
    has_token: bool,
    checked: Result<(), PreflightError>,
    responder: Responder,
    handler: Handler,
    workers: Vec<(Catchup, MessageId)>,
    i: int,
)
    requires
        call_ensures(Serve::preflight_checks, (&options, has_token), checked),
        call_ensures(Serve::responder, (&options,), responder),
        call_ensures(Serve::discord_worker, (&options,), handler),
        call_ensures(Serve::catch_up_worker, (&options,), workers),
    ensures
        checked is Ok <==> has_token && options.values@.len() > 0 && forall|k: int|
            0 <= k < options.values@.len() ==> (#[trigger] options.values@[k]).amount > 0,
        responder.max_addresses == options.max_addresses,
        responder.values@ == options.values@,
        handler@.rate_limit == options.rate_limit@,
        handler@.reply_limit == options.reply_limit,
        handler@.dry_run == options.dry_run,
        handler@.history.users.len() == 0,
        handler@.history.addresses.len() == 0,
        workers@.len() == options.catch_up_after@.len(),
        0 <= i < workers@.len() ==> {
            &&& workers@[i].0.channel_id == options.catch_up_after@[i].channel_id
            &&& workers@[i].1 == options.catch_up_after@[i].message_id
            &&& workers@[i].0.response_batch_size == options.catch_up_batch_size
            &&& workers@[i].0.dry_run == options.dry_run
            &&& workers@[i].0.batch@.len() == 0
        },
{
}

} // verus!
