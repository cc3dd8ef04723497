//! Sends funds: gathers requests into batches, and sees each batch's transaction through.

use vstd::prelude::*;
use vstd::string::StringExecFns;

use crate::address::Address;
use crate::address::TransactionId;
use crate::address::Value;
use crate::responder::dispense::SenderRequest;
use crate::responder::dispense::SenderResult;
use crate::text::decimal;
use crate::text::decimal_text;
use crate::text::lemma_occurs_within;
use crate::text::occurs;

pub mod service;

verus! {

/// How many requests make a full batch.
pub const BATCH_SIZE: usize = 25;

/// The index of the payment address that the memo of a transaction names as its sender.
pub const RETURN_ADDRESS_INDEX: u32 = 0;

/// How many seconds a batch waits for more requests.
pub const BATCH_SECONDS: u64 = 5;

/// What a [`Sender`] is told.
#[derive(Debug)]
pub enum BatchControl {
    /// To add a request to the batch.
    Item(SenderRequest),
    /// To send what has gathered.
    Flush,
}

/// Why funds were not sent.
#[derive(Debug)]
pub enum SendError {
    /// There was nothing to send.
    EmptyBatch,
    /// The custody service did not authorize the transaction.
    NoAuthData,
    /// The view service stopped reporting before the transaction was confirmed.
    Unconfirmed,
    /// One of the services failed.
    Service(String),
}

impl SendError {
    /// The text of [`SendError::message`].
    pub open spec fn message_text(self) -> Seq<char> {
        match self {
            SendError::EmptyBatch => "tried to send empty list of values to address"@,
            SendError::NoAuthData => "no auth data"@,
            SendError::Unconfirmed =>
                "view server closed stream without reporting transaction confirmation"@,
            SendError::Service(error) => error@,
        }
    }

    /// Returns a description of the error.
    pub fn message(&self) -> (text: String)
        ensures
            text@ == self.message_text(),
    {
        match self {
            SendError::EmptyBatch => "tried to send empty list of values to address".to_owned(),
            SendError::NoAuthData => "no auth data".to_owned(),
            SendError::Unconfirmed =>
                "view server closed stream without reporting transaction confirmation".to_owned(),
            SendError::Service(error) => error.clone(),
        }
    }
}

/// A transaction that is to be planned.
#[derive(Debug)]
pub struct TransactionOrder {
    /// The number of the batch that is sent.
    pub batch: u64,
    /// The account that the funds come from.
    pub account: u32,
    /// What to send, and where.
    pub outputs: Vec<(Value, Address)>,
    /// The memo of the transaction.
    pub memo: String,
    /// The index of the payment address that the memo names as its sender.
    pub return_address: u32,
}

/// What is to be done about what a [`Sender`] is told.
#[derive(Debug)]
pub enum BatchStep {
    /// Wait for what becomes of the batch with this number.
    AwaitResult { batch: u64 },
    /// Send the batch.
    Send(TransactionOrder),
    /// Report an error.
    Refuse(SendError),
}

/// The outputs for one request: each value, to the request's address.
pub open spec fn request_outputs(request: SenderRequest) -> Seq<(Value, Address)> {
    request.1@.map_values(|value: Value| (value, request.0))
}

/// The outputs for some requests, one request after another.
pub open spec fn batch_outputs(requests: Seq<SenderRequest>) -> Seq<(Value, Address)>
    decreases requests.len(),
{
    if requests.len() == 0 {
        Seq::empty()
    } else {
        batch_outputs(requests.drop_last()) + request_outputs(requests.last())
    }
}

/// The memo of every transaction.
pub open spec fn memo_text() -> Seq<char> {
    "Hello from Galileo, the Penumbra faucet bot"@
}

/// The `Sender` maps `(Address, Vec<Value>)` send requests to transaction hashes of sent funds.
#[derive(Debug)]
pub struct Sender {
    /// The account that the funds come from.
    pub account: u32,
    /// Accumulate a batch of transactions to perform.
    pub batch: Vec<SenderRequest>,
    /// The number of that batch: how many were sent before.
    pub number: u64,
}

impl Sender {
    /// Creates a sender for an account, with nothing to send.
    pub fn new(account: u32) -> (sender: Self)
        ensures
            sender.account == account,
            sender.batch@ == Seq::<SenderRequest>::empty(),
            sender.number == 0,
    {
        Sender { account, batch: Vec::new(), number: 0 }
    }

    fn outputs(requests: &Vec<SenderRequest>) -> (outputs: Vec<(Value, Address)>)
        ensures
            outputs@ == batch_outputs(requests@),
    {
        let mut outputs: Vec<(Value, Address)> = Vec::new();
        let mut i: usize = 0;
        assert(requests@.take(0) =~= Seq::empty());
        while i < requests.len()
            invariant
                i <= requests@.len(),
                outputs@ == batch_outputs(requests@.take(i as int)),
            decreases requests@.len() - i,
        {
            let request = &requests[i];
            let ghost before = outputs@;
            let mut k: usize = 0;
            assert(before =~= before + request_outputs(*request).take(0));
            while k < request.1.len()
                invariant
                    k <= request.1@.len(),
                    outputs@ == before + request_outputs(*request).take(k as int),
                decreases request.1@.len() - k,
            {
                outputs.push((request.1[k], request.0.clone()));
                k = k + 1;
                assert(outputs@ =~= before + request_outputs(*request).take(k as int));
            }
            assert(request_outputs(*request).take(k as int) =~= request_outputs(*request));
            assert(requests@.take(i + 1).drop_last() =~= requests@.take(i as int));
            i = i + 1;
        }
        assert(requests@.take(i as int) =~= requests@);
        outputs
    }

    /// Returns whether one more batch can be numbered.
    pub fn has_room(&self) -> (room: bool)
        ensures
            room == (self.number < u64::MAX),
    {
        self.number < u64::MAX
    }

    /// Adds a request to the batch, or, on `Flush`, empties the batch into a transaction. Either way
    /// the number of the batch is returned, by which those who requested know its outcome.
    pub fn call(&mut self, control: BatchControl) -> (step: BatchStep)
        requires
            control is Flush && old(self).batch@.len() > 0 ==> old(self).number < u64::MAX,
        ensures
            final(self).account == old(self).account,
            match control {
                BatchControl::Item(request) => {
                    &&& final(self).batch@ == old(self).batch@.push(request)
                    &&& final(self).number == old(self).number
                    &&& step == (BatchStep::AwaitResult { batch: old(self).number })
                },
                BatchControl::Flush => {
                    &&& final(self).batch@ == Seq::<SenderRequest>::empty()
                    &&& if old(self).batch@.len() == 0 {
                        &&& final(self).number == old(self).number
                        &&& step == BatchStep::Refuse(SendError::EmptyBatch)
                    } else {
                        &&& final(self).number == old(self).number + 1
                        &&& step is Send
                        &&& step->Send_0.batch == old(self).number
                        &&& step->Send_0.account == old(self).account
                        &&& step->Send_0.outputs@ == batch_outputs(old(self).batch@)
                        &&& step->Send_0.memo@ == memo_text()
                        &&& step->Send_0.return_address == RETURN_ADDRESS_INDEX
                    }
                },
            },
    {
        match control {
            BatchControl::Item(request) => {
                self.batch.push(request);
                BatchStep::AwaitResult { batch: self.number }
            },
            BatchControl::Flush => {
                let mut requests: Vec<SenderRequest> = Vec::new();
                std::mem::swap(&mut requests, &mut self.batch);
                if requests.is_empty() {
                    return BatchStep::Refuse(SendError::EmptyBatch);
                }
                let outputs = Self::outputs(&requests);
                let batch: u64 = self.number;
                self.number = batch + 1;
                BatchStep::Send(
                    TransactionOrder {
                        batch,
                        account: self.account,
                        outputs,
                        memo: "Hello from Galileo, the Penumbra faucet bot".to_owned(),
                        return_address: RETURN_ADDRESS_INDEX,
                    },
                )
            },
        }
    }
}

/// What became of a batch. Everyone who requested in a batch is told of every outcome.
#[derive(Debug)]
pub struct BatchOutcome {
    /// The number of the batch.
    pub batch: u64,
    /// The transaction, once it is confirmed, or a description of the error.
    pub result: SenderResult,
}

impl Clone for BatchOutcome {
    fn clone(&self) -> (copy: Self)
        ensures
            copy == *self,
    {
        let result = match &self.result {
            Ok(id) => Ok(id.clone()),
            Err(error) => Err(error.clone()),
        };
        BatchOutcome { batch: self.batch, result }
    }
}

impl BatchOutcome {
    /// Returns the answer to a request in the given batch, if this is the outcome of that batch.
    pub fn answer(self, batch: u64) -> (answer: Option<SenderResult>)
        ensures
            answer == (if self.batch == batch {
                Some(self.result)
            } else {
                None
            }),
    {
        if self.batch == batch {
            Some(self.result)
        } else {
            None
        }
    }
}

/// How far a transaction has come.
#[derive(Clone, Copy, Debug, PartialEq, Eq, Structural)]
pub enum Stage {
    /// It is being planned.
    Planning,
    /// The custody service is being asked to authorize it.
    Authorizing,
    /// The view service is being asked for witness data.
    Witnessing,
    /// It is being built.
    Building,
    /// It is being broadcast.
    Broadcasting,
    /// It is confirmed, or has failed.
    Finished,
}

/// What the view service reports of a transaction that is being broadcast.
#[derive(Clone, Copy, Debug, PartialEq, Eq, Structural)]
pub enum BroadcastStatus {
    /// It was broadcast.
    BroadcastSuccess,
    /// It was confirmed, and detected at this height.
    Confirmed { detection_height: u64 },
    /// Something else.
    Other,
}

/// What happens to a transaction.
#[derive(Debug)]
pub enum Progress {
    /// It has been planned.
    Planned,
    /// The custody service has answered, with or without authorization data.
    Authorized { has_data: bool },
    /// The witness data has come.
    Witnessed,
    /// It has been built, and has this identifier.
    Built { id: TransactionId },
    /// The view service reports its status.
    Status(BroadcastStatus),
    /// The view service has stopped reporting.
    Closed,
    /// A service has failed.
    Broken(String),
}

/// What is to be done next about a transaction.
#[derive(Debug)]
pub enum NextStep {
    /// Ask the custody service to authorize it.
    Authorize,
    /// Ask the view service for witness data.
    Witness,
    /// Build it.
    Build,
    /// Broadcast it, and wait for its status.
    Broadcast,
    /// Print the text, if there is one, and wait for its next status.
    AwaitStatus { printed: Option<String> },
    /// Print the report, and tell everyone who requested in the batch that it is confirmed.
    Confirm { report: String, id: TransactionId },
    /// Report an error.
    Fail(SendError),
}

/// The stage after something happens to a transaction.
pub open spec fn stage_after(stage: Stage, progress: Progress) -> Stage {
    match progress {
        Progress::Planned => Stage::Authorizing,
        Progress::Authorized { has_data } => if has_data {
            Stage::Witnessing
        } else {
            Stage::Finished
        },
        Progress::Witnessed => Stage::Building,
        Progress::Built { .. } => Stage::Broadcasting,
        Progress::Status(BroadcastStatus::Confirmed { .. }) => Stage::Finished,
        Progress::Status(_) => Stage::Broadcasting,
        Progress::Closed => Stage::Finished,
        Progress::Broken(_) => Stage::Finished,
    }
}

/// Whether something can happen to a transaction in its stage.
pub open spec fn expected(stage: Stage, progress: Progress) -> bool {
    match progress {
        Progress::Planned => stage == Stage::Planning,
        Progress::Authorized { .. } => stage == Stage::Authorizing,
        Progress::Witnessed => stage == Stage::Witnessing,
        Progress::Built { .. } => stage == Stage::Building,
        Progress::Status(_) => stage == Stage::Broadcasting,
        Progress::Closed => stage == Stage::Broadcasting,
        Progress::Broken(_) => stage != Stage::Finished,
    }
}

/// The report that a transaction was broadcast.
pub open spec fn broadcast_report(id: Seq<char>) -> Seq<char> {
    "transaction broadcast successfully: "@ + id
}

/// The report that a transaction was confirmed.
pub open spec fn confirmed_report(id: Seq<char>, height: u64) -> Seq<char> {
    "transaction confirmed and detected: "@ + id + " @ height "@ + decimal_text(height as nat)
}

/// A batch's transaction on its way.
#[derive(Debug)]
pub struct Transfer {
    /// The number of the batch.
    pub batch: u64,
    /// How far it has come.
    pub stage: Stage,
    /// Its identifier, once it is built.
    pub id: Option<TransactionId>,
}

impl Transfer {
    /// While it is being broadcast its identifier is known.
    pub open spec fn wf(self) -> bool {
        self.stage == Stage::Broadcasting ==> self.id is Some
    }

    /// The transaction of a batch, which is yet to be planned.
    pub fn start(batch: u64) -> (transfer: Self)
        ensures
            transfer.wf(),
            transfer == (Transfer { batch, stage: Stage::Planning, id: None }),
    {
        Transfer { batch, stage: Stage::Planning, id: None }
    }

    /// Returns what became of the batch, if the next step is the last one.
    pub fn outcome(&self, next: &NextStep) -> (outcome: Option<BatchOutcome>)
        ensures
            match *next {
                NextStep::Confirm { id, .. } => outcome == Some(
                    (BatchOutcome { batch: self.batch, result: Ok(id) }),
                ),
                NextStep::Fail(error) => {
                    &&& outcome is Some
                    &&& outcome->0.batch == self.batch
                    &&& outcome->0.result is Err
                    &&& outcome->0.result->Err_0@ == error.message_text()
                },
                _ => outcome is None,
            },
    {
        match next {
            NextStep::Confirm { id, .. } => Some(
                BatchOutcome { batch: self.batch, result: Ok(id.clone()) },
            ),
            NextStep::Fail(error) => Some(
                BatchOutcome { batch: self.batch, result: Err(error.message()) },
            ),
            _ => None,
        }
    }

    /// Takes in what happened to the transaction, and returns what is to be done next.
    pub fn advance(&mut self, progress: Progress) -> (next: NextStep)
        requires
            old(self).wf(),
            expected(old(self).stage, progress),
        ensures
            final(self).wf(),
            final(self).batch == old(self).batch,
            final(self).stage == stage_after(old(self).stage, progress),
            final(self).id == (match progress {
                Progress::Built { id } => Some(id),
                _ => old(self).id,
            }),
            match progress {
                Progress::Planned => next is Authorize,
                Progress::Authorized { has_data } => if has_data {
                    next is Witness
                } else {
                    next == NextStep::Fail(SendError::NoAuthData)
                },
                Progress::Witnessed => next is Build,
                Progress::Built { .. } => next is Broadcast,
                Progress::Status(BroadcastStatus::BroadcastSuccess) => {
                    &&& next is AwaitStatus
                    &&& next->printed matches Some(report) && report@ == broadcast_report(
                        old(self).id->0.text@,
                    )
                },
                Progress::Status(BroadcastStatus::Confirmed { detection_height }) => {
                    &&& next is Confirm
                    &&& next->id == old(self).id->0
                    &&& next->report@ == confirmed_report(
                        old(self).id->0.text@,
                        detection_height,
                    )
                },
                Progress::Status(BroadcastStatus::Other) => next == (NextStep::AwaitStatus {
                    printed: None,
                }),
                Progress::Closed => next == NextStep::Fail(SendError::Unconfirmed),
                Progress::Broken(error) => next == NextStep::Fail(SendError::Service(error)),
            },
    {
        match progress {
            Progress::Planned => {
                self.stage = Stage::Authorizing;
                NextStep::Authorize
            },
            Progress::Authorized { has_data } => {
                if has_data {
                    self.stage = Stage::Witnessing;
                    NextStep::Witness
                } else {
                    self.stage = Stage::Finished;
                    NextStep::Fail(SendError::NoAuthData)
                }
            },
            Progress::Witnessed => {
                self.stage = Stage::Building;
                NextStep::Build
            },
            Progress::Built { id } => {
                self.id = Some(id);
                self.stage = Stage::Broadcasting;
                NextStep::Broadcast
            },
            Progress::Status(BroadcastStatus::BroadcastSuccess) => {
                let id = self.id.as_ref().unwrap();
                let mut report = String::new();
                report.append("transaction broadcast successfully: ");
                report.append(id.text.as_str());
                assert(report@ =~= broadcast_report(id.text@));
                NextStep::AwaitStatus { printed: Some(report) }
            },
            Progress::Status(BroadcastStatus::Confirmed { detection_height }) => {
                let id = self.id.as_ref().unwrap().clone();
                let mut report = String::new();
                report.append("transaction confirmed and detected: ");
                report.append(id.text.as_str());
                report.append(" @ height ");
                report.append(decimal(detection_height).as_str());
                assert(report@ =~= confirmed_report(id.text@, detection_height));
                self.stage = Stage::Finished;
                NextStep::Confirm { report, id }
            },
            Progress::Status(BroadcastStatus::Other) => NextStep::AwaitStatus { printed: None },
            Progress::Closed => {
                self.stage = Stage::Finished;
                NextStep::Fail(SendError::Unconfirmed)
            },
            Progress::Broken(error) => {
                self.stage = Stage::Finished;
                NextStep::Fail(SendError::Service(error))
            },
        }
    }
}

/// The index of the account that a sender sends from.
pub type Key = u32;

/// The senders that are yet to be handed to the load balancer.
pub struct SenderSet<S> {
    pub services: Vec<(Key, S)>,
}

impl<S> SenderSet<S> {
    /// Makes a set of senders, each with the index of its account.
    pub fn new(services: Vec<(Key, S)>) -> (set: Self)
        ensures
            set.services == services,
    {
        Self { services }
    }

    /// Hands out the last of the senders, if there are any left. There may be more later.
    pub fn poll_next(&mut self) -> (next: Option<(Key, S)>)
        ensures
            if old(self).services@.len() == 0 {
                &&& next is None
                &&& final(self).services@ == old(self).services@
            } else {
                &&& next == Some(old(self).services@.last())
                &&& final(self).services@ == old(self).services@.drop_last()
            },
    {
        self.services.pop()
    }
}

/// The batch after some controls.
pub open spec fn batch_after(controls: Seq<BatchControl>) -> Seq<SenderRequest>
    decreases controls.len(),
{
    if controls.len() == 0 {
        Seq::empty()
    } else {
        match controls.last() {
            BatchControl::Item(request) => batch_after(controls.drop_last()).push(request),
            BatchControl::Flush => Seq::empty(),
        }
    }
}

/// The outputs of the transactions that some controls lead to, one transaction after another.
pub open spec fn sent_by(controls: Seq<BatchControl>) -> Seq<(Value, Address)>
    decreases controls.len(),
{
    if controls.len() == 0 {
        Seq::empty()
    } else {
        let before = sent_by(controls.drop_last());
        match controls.last() {
            BatchControl::Item(_) => before,
            BatchControl::Flush => before + batch_outputs(batch_after(controls.drop_last())),
        }
    }
}

/// The requests among some controls.
pub open spec fn requests_of(controls: Seq<BatchControl>) -> Seq<SenderRequest>
    decreases controls.len(),
{
    if controls.len() == 0 {
        Seq::empty()
    } else {
        let before = requests_of(controls.drop_last());
        match controls.last() {
            BatchControl::Item(request) => before.push(request),
            BatchControl::Flush => before,
        }
    }
}

/// Every request is sent once, in the order in which the requests came: what the transactions have
/// sent, and what is left in the batch, are just what was requested.
pub proof fn law_every_request_is_sent_once(controls: Seq<BatchControl>)
    ensures
        sent_by(controls) + batch_outputs(batch_after(controls)) == batch_outputs(
            requests_of(controls),
        ),
    decreases controls.len(),
{
    if controls.len() > 0 {
        let before = controls.drop_last();
        law_every_request_is_sent_once(before);
        match controls.last() {
            BatchControl::Item(request) => {
                assert(batch_after(before).push(request).drop_last() =~= batch_after(before));
                assert(requests_of(before).push(request).drop_last() =~= requests_of(before));
            },
            BatchControl::Flush => {},
        }
        assert(sent_by(controls) + batch_outputs(batch_after(controls)) =~= batch_outputs(
            requests_of(controls),
        ));
    }
}

/// The transactions that some controls lead to: the number of the batch, and the outputs.
pub open spec fn orders(controls: Seq<BatchControl>) -> Seq<(nat, Seq<(Value, Address)>)>
    decreases controls.len(),
{
    if controls.len() == 0 {
        Seq::empty()
    } else {
        let earlier = controls.drop_last();
        let before = orders(earlier);
        if controls.last() is Flush && batch_after(earlier).len() > 0 {
            before.push((number_after(earlier), batch_outputs(batch_after(earlier))))
        } else {
            before
        }
    }
}

/// The number of the batch that gathers after some controls.
pub open spec fn number_after(controls: Seq<BatchControl>) -> nat
    decreases controls.len(),
{
    if controls.len() == 0 {
        0
    } else {
        let earlier = controls.drop_last();
        if controls.last() is Flush && batch_after(earlier).len() > 0 {
            number_after(earlier) + 1
        } else {
            number_after(earlier)
        }
    }
}

/// Whether some outputs pay all that a request asks for: its values, one after another, to its
/// address.
pub open spec fn pays(outputs: Seq<(Value, Address)>, request: SenderRequest) -> bool {
    exists|at: int| #[trigger] pays_at(outputs, request, at)
}

/// Whether the outputs from a place on pay all that a request asks for.
pub open spec fn pays_at(outputs: Seq<(Value, Address)>, request: SenderRequest, at: int) -> bool {
    &&& 0 <= at <= outputs.len() - request.1@.len()
    &&& forall|k: int|
        0 <= k < request.1@.len() ==> {
            let output = outputs[at + k];
            &&& output.0.amount == (#[trigger] request.1@[k]).amount
            &&& output.0.asset_id == request.1@[k].asset_id
            &&& output.1 == request.0
        }
}

proof fn lemma_batch_pays(requests: Seq<SenderRequest>, i: int)
    requires
        0 <= i < requests.len(),
    ensures
        pays(batch_outputs(requests), requests[i]),
    decreases requests.len(),
{
    let all = batch_outputs(requests);
    let before = batch_outputs(requests.drop_last());
    let request = requests[i];
    if i == requests.len() - 1 {
        assert(pays_at(all, request, before.len() as int));
    } else {
        lemma_batch_pays(requests.drop_last(), i);
        let at = choose|at: int| #[trigger] pays_at(before, request, at);
        assert(pays_at(all, request, at));
    }
}

/// A request is paid by the batch whose number it was told: as long as that batch is not sent, the
/// request waits in it, and the transaction that is sent for that number pays all that the request
/// asks for. No two transactions are sent for one number.
pub proof fn law_requests_are_paid_by_their_batch(controls: Seq<BatchControl>, i: int)
    requires
        0 <= i < controls.len(),
        controls[i] is Item,
    ensures
        ({
            let request = controls[i]->Item_0;
            let number = number_after(controls.take(i)) as int;
            &&& number <= orders(controls).len() == number_after(controls)
            &&& forall|k: int|
                0 <= k < orders(controls).len() ==> (#[trigger] orders(controls)[k]).0 == k
            &&& if number < orders(controls).len() {
                pays(orders(controls)[number].1, request)
            } else {
                batch_after(controls).contains(request)
            }
        }),
    decreases controls.len(),
{
    let earlier = controls.drop_last();
    let request = controls[i]->Item_0;
    let number = number_after(controls.take(i)) as int;
    lemma_orders_numbered(controls);
    lemma_orders_numbered(earlier);
    if i == controls.len() - 1 {
        assert(controls.take(i) =~= earlier);
        let batch = batch_after(controls);
        assert(batch[batch.len() - 1] == request);
    } else {
        assert(earlier.take(i) =~= controls.take(i));
        law_requests_are_paid_by_their_batch(earlier, i);
        let batch = batch_after(earlier);
        if number < orders(earlier).len() {
            assert(orders(controls)[number] == orders(earlier)[number]);
        } else {
            let at = choose|at: int| 0 <= at < batch.len() && batch[at] == request;
            match controls.last() {
                BatchControl::Item(_) => {
                    assert(batch_after(controls)[at] == request);
                },
                BatchControl::Flush => {
                    lemma_batch_pays(batch, at);
                    assert(orders(controls)[number].1 == batch_outputs(batch));
                },
            }
        }
    }
}

proof fn lemma_orders_numbered(controls: Seq<BatchControl>)
    ensures
        orders(controls).len() == number_after(controls),
        forall|k: int| 0 <= k < orders(controls).len() ==> (#[trigger] orders(controls)[k]).0 == k,
    decreases controls.len(),
{
    if controls.len() > 0 {
        lemma_orders_numbered(controls.drop_last());
    }
}

/// The stage of a transaction after all that has happened to it.
pub open spec fn stage_of(history: Seq<Progress>) -> Stage
    decreases history.len(),
{
    if history.len() == 0 {
        Stage::Planning
    } else {
        stage_after(stage_of(history.drop_last()), history.last())
    }
}

/// Whether all that has happened to a transaction was expected when it happened.
pub open spec fn all_expected(history: Seq<Progress>) -> bool
    decreases history.len(),
{
    history.len() == 0 || (all_expected(history.drop_last()) && expected(
        stage_of(history.drop_last()),
        history.last(),
    ))
}

/// A transaction is planned first, and only then authorized, then given its witness data, then
/// built, and broadcast only after all of these: what has happened to it shows how far it has come.
pub proof fn law_broadcast_only_after_authorization(history: Seq<Progress>)
    requires
        all_expected(history),
    ensures
        match stage_of(history) {
            Stage::Planning => history.len() == 0,
            Stage::Authorizing => history.len() == 1 && history[0] is Planned,
            Stage::Witnessing => history.len() == 2 && history[0] is Planned && history[1] == (
            Progress::Authorized { has_data: true }),
            Stage::Building => history.len() == 3 && history[0] is Planned && history[1] == (
            Progress::Authorized { has_data: true }) && history[2] is Witnessed,
            Stage::Broadcasting => history.len() >= 4 && history[0] is Planned && history[1] == (
            Progress::Authorized { has_data: true }) && history[2] is Witnessed
                && history[3] is Built,
            Stage::Finished => history.len() > 0,
        },
    decreases history.len(),
{
    if history.len() > 0 {
        law_broadcast_only_after_authorization(history.drop_last());
    }
}

/// The senders that the first polls of a set hand out.
pub open spec fn handed_out<S>(services: Seq<(Key, S)>, polls: nat) -> Seq<(Key, S)>
    decreases polls,
{
    if polls == 0 || services.len() == 0 {
        Seq::empty()
    } else {
        seq![services.last()] + handed_out(services.drop_last(), (polls - 1) as nat)
    }
}

/// However often a set is polled, it hands out no sender twice, and once it was polled often enough
/// it has handed out them all: the last one first.
pub proof fn law_every_sender_is_handed_out_once<S>(services: Seq<(Key, S)>, polls: nat)
    ensures
        polls >= services.len() ==> handed_out(services, polls) == services.reverse(),
        polls < services.len() ==> handed_out(services, polls) == services.reverse().take(
            polls as int,
        ),
    decreases polls,
{
    if polls > 0 && services.len() > 0 {
        law_every_sender_is_handed_out_once(services.drop_last(), (polls - 1) as nat);
        let rest = services.drop_last().reverse();
        assert(services.reverse() =~= seq![services.last()] + rest);
        if polls < services.len() {
            assert(services.reverse().take(polls as int) =~= seq![services.last()] + rest.take(
                polls - 1,
            ));
        }
    } else if services.len() == 0 {
        assert(services.reverse() =~= Seq::<(Key, S)>::empty());
    } else {
        assert(services.reverse().take(0) =~= Seq::<(Key, S)>::empty());
    }
}

/// How many values the first so many requests ask for.
pub open spec fn values_before(requests: Seq<SenderRequest>, i: int) -> int
    decreases i,
{
    if i <= 0 {
        0
    } else {
        values_before(requests, i - 1) + requests[i - 1].1@.len()
    }
}

/// The outputs of a batch are just what was requested: for each request, in the order of the
/// requests, each of its values, in order, amount and asset alike, to its address, and nothing else.
pub proof fn law_outputs_are_the_requested_values(
    requests: Seq<SenderRequest>,
    i: int,
    k: int,
)
    requires
        0 <= i < requests.len(),
        0 <= k < requests[i].1@.len(),
    ensures
        ({
            let outputs = batch_outputs(requests);
            let at = values_before(requests, i) + k;
            &&& outputs.len() == values_before(requests, requests.len() as int)
            &&& 0 <= at < outputs.len()
            &&& outputs[at].0.amount == requests[i].1@[k].amount
            &&& outputs[at].0.asset_id == requests[i].1@[k].asset_id
            &&& outputs[at].1 == requests[i].0
        }),
    decreases requests.len(),
{
    let before = requests.drop_last();
    lemma_outputs_len(requests);
    lemma_outputs_len(before);
    lemma_values_before(requests, before, i);
    lemma_values_before(requests, before, before.len() as int);
    if i < before.len() {
        law_outputs_are_the_requested_values(before, i, k);
    }
}

proof fn lemma_outputs_len(requests: Seq<SenderRequest>)
    ensures
        batch_outputs(requests).len() == values_before(requests, requests.len() as int),
    decreases requests.len(),
{
    if requests.len() > 0 {
        let before = requests.drop_last();
        lemma_outputs_len(before);
        lemma_values_before(requests, before, before.len() as int);
    }
}

proof fn lemma_values_before(requests: Seq<SenderRequest>, before: Seq<SenderRequest>, i: int)
    requires
        0 <= i <= before.len() <= requests.len(),
        before == requests.take(before.len() as int),
    ensures
        values_before(requests, i) == values_before(before, i),
        values_before(requests, i) >= 0,
    decreases i,
{
    if i > 0 {
        lemma_values_before(requests, before, i - 1);
        assert(before[i - 1] == requests[i - 1]);
    }
}

/// The reports of a transaction name it, and the height at which it was detected.
pub proof fn law_reports_name_the_transaction(id: Seq<char>, height: u64)
    ensures
        occurs(id, broadcast_report(id)),
        occurs(id, confirmed_report(id, height)),
        occurs(decimal_text(height as nat), confirmed_report(id, height)),
        broadcast_report(id).len() == "transaction broadcast successfully: "@.len() + id.len(),
        confirmed_report(id, height).len() == "transaction confirmed and detected: "@.len() + id.len()
            + " @ height "@.len() + decimal_text(height as nat).len(),
{
    let none = Seq::<char>::empty();
    let (first, second) = (
        "transaction broadcast successfully: "@,
        "transaction confirmed and detected: "@,
    );
    lemma_occurs_within(first, id, none);
    assert(first + id + none =~= broadcast_report(id));
    let rest = " @ height "@ + decimal_text(height as nat);
    lemma_occurs_within(second, id, rest);
    assert(second + id + rest =~= confirmed_report(id, height));
    lemma_occurs_within(second + id + " @ height "@, decimal_text(height as nat), none);
    assert(second + id + " @ height "@ + decimal_text(height as nat) + none =~= confirmed_report(
        id,
        height,
    ));
}

/// A transaction is over when it is confirmed, or not authorized, or when the view service stops
/// reporting, or when a service fails, and at no other time. Nothing more is expected then, while a
/// service may fail at any time before.
pub proof fn law_when_a_transaction_is_over(stage: Stage, progress: Progress)
    ensures
        stage_after(stage, progress) == Stage::Finished <==> {
            ||| progress matches Progress::Status(BroadcastStatus::Confirmed { .. })
            ||| progress matches Progress::Authorized { has_data: false }
            ||| progress is Closed
            ||| progress is Broken
        },
        stage == Stage::Finished ==> !expected(stage, progress),
        stage != Stage::Finished && progress is Broken ==> expected(stage, progress),
        progress is Status && expected(stage, progress) && !(
        progress matches Progress::Status(BroadcastStatus::Confirmed { .. })) ==> stage_after(
            stage,
            progress,
        ) == stage,
{
}

/// A sender that has been told some things does with the next thing what the batches, their numbers
/// and the orders say: a request joins the batch, and a flush sends the batch under its number, to the
/// addresses and with the values that were asked for, and starts the next one.
pub proof fn law_calls_carry_on(
    controls: Seq<BatchControl>,
    sender: &mut Sender,
    control: BatchControl,
    step: BatchStep,
)
    requires
        old(sender).batch@ == batch_after(controls),
        old(sender).number == number_after(controls),
        call_ensures(Sender::call, (sender, control), step),
    ensures
        final(sender).account == old(sender).account,
        final(sender).batch@ == batch_after(controls.push(control)),
        final(sender).number == number_after(controls.push(control)),
        step is AwaitResult <==> control is Item,
        step matches BatchStep::AwaitResult { batch } ==> batch == number_after(controls),
        step matches BatchStep::Send(order) ==> {
            &&& orders(controls.push(control)) == orders(controls).push(
                (order.batch as nat, order.outputs@),
            )
            &&& sent_by(controls.push(control)) == sent_by(controls) + order.outputs@
            &&& order.account == old(sender).account
        },
        !(step is Send) ==> orders(controls.push(control)) == orders(controls),
        step is Refuse ==> batch_after(controls).len() == 0,
{
    assert(controls.push(control).drop_last() =~= controls);
    assert(controls.push(control).last() == control);
}

/// The outcome of a transaction is the one that ended it, and answers the requests of its batch and no
/// others.
pub proof fn law_outcomes_answer_their_batch(
    transfer: Transfer,
    next: NextStep,
    outcome: Option<BatchOutcome>,
    batch: u64,
    answer: Option<SenderResult>,
)
    requires
        call_ensures(Transfer::outcome, (&transfer, &next), outcome),
        outcome is Some ==> call_ensures(BatchOutcome::answer, (outcome->0, batch), answer),
    ensures
        outcome is Some <==> next is Confirm || next is Fail,
        outcome is Some ==> (answer is Some <==> batch == transfer.batch),
        outcome is Some && answer is Some ==> (answer->0 is Ok <==> next is Confirm),
        outcome is Some && answer is Some && next is Confirm ==> answer->0->Ok_0 == next->id,
{
}

/// The transaction that is confirmed is the one that was built, and no step but the building changes
/// it, or its batch.
pub proof fn law_confirmed_as_built(transfer: &mut Transfer, progress: Progress, next: NextStep)
    requires
        old(transfer).wf(),
        expected(old(transfer).stage, progress),
        call_ensures(Transfer::advance, (transfer, progress), next),
    ensures
        final(transfer).batch == old(transfer).batch,
        progress matches Progress::Built { id } ==> final(transfer).id == Some(id),
        !(progress is Built) ==> final(transfer).id == old(transfer).id,
        next is Confirm ==> old(transfer).id == Some(next->id),
        next is Confirm || next is Fail <==> final(transfer).stage == Stage::Finished,
        next is Broadcast ==> progress is Built,
{
}

/// An error of a service is told as the service told it.
pub proof fn law_service_errors_are_told(error: String)
    ensures
        SendError::Service(error).message_text() == error@,
{
}

/// The senders that are asked for one after another are handed out from the last, and none is left in
/// the set that was handed out.
pub proof fn law_polls_hand_out<S>(set: &mut SenderSet<S>, next: Option<(Key, S)>, polls: nat)
    requires
        call_ensures(SenderSet::<S>::poll_next, (set,), next),
    ensures
        next is Some <==> old(set).services@.len() > 0,
        next matches Some(sender) ==> {
            &&& old(set).services@ == final(set).services@.push(sender)
            &&& handed_out(old(set).services@, polls + 1) == seq![sender] + handed_out(
                final(set).services@,
                polls,
            )
        },
        next is None ==> final(set).services@ == old(set).services@,
{
    if next is Some {
        let services = old(set).services@;
        assert(services =~= services.drop_last().push(services.last()));
        assert((polls + 1 - 1) as nat == polls);
    }
}

/// Whatever is sent, the memo greets, and the bot's first address is named as the sender.
pub proof fn law_transactions_name_the_faucet(
    sender: &mut Sender,
    control: BatchControl,
    step: BatchStep,
)
    requires
        call_ensures(Sender::call, (sender, control), step),
    ensures
        step matches BatchStep::Send(order) ==> {
            &&& order.memo@ == "Hello from Galileo, the Penumbra faucet bot"@
            &&& order.return_address == 0
            &&& order.outputs@.len() > 0 ==> old(sender).batch@.len() > 0
        },
{
}

} // verus!
