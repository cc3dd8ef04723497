//! The rules of the RPC endpoint: what a call sends, and what it answers.

use vstd::prelude::*;
use vstd::string::StringExecFns;

use crate::address::Address;
use crate::address::AddressOrAlmost;
use crate::address::TransactionId;
use crate::responder::dispense::failures;
use crate::responder::dispense::handled;
use crate::responder::dispense::invalid_of;
use crate::responder::dispense::law_single_address;
use crate::responder::dispense::left_over;
use crate::responder::dispense::successes;
use crate::responder::dispense::valid_of;
use crate::responder::dispense::SenderResult;
use crate::responder::request::Request;
use crate::responder::response::Response;
use crate::text::lemma_occurs_within;
use crate::text::occurs;

verus! {

/// What Rust's `Debug` writes for a string.
pub uninterp spec fn debug_text(s: Seq<char>) -> Seq<char>;

/// Writes a string with its `Debug`, through `std::fmt::format`: in quotes, and with escapes where
/// they are needed. Claims that the text depends on the string alone; which text it is, is left
/// unsaid.
#[verifier::external_body]
fn format_debug(s: &String) -> (text: String)
    ensures
        text@ == debug_text(s@),
{
    format!("{:?}", s)
}

/// The part of a gRPC status that tells errors apart.
#[derive(Clone, Copy, Debug, PartialEq, Eq, Structural)]
pub enum Code {
    /// The caller made a mistake.
    InvalidArgument,
    /// The service cannot be reached for now.
    Unavailable,
    /// The service failed.
    Internal,
}

/// The status that a failed call answers with.
#[derive(Debug, PartialEq, Eq)]
pub struct Status {
    pub code: Code,
    pub message: String,
}

/// Errors encountered when funds are to be sent.
#[derive(Debug, PartialEq, Eq)]
pub enum SendFundsError {
    /// The address was not given.
    AddressMissing,
    /// The address was not valid. This describes the error, in the form that is meant for
    /// developers.
    AddressInvalid(String),
    /// Failed to send a request to the responder worker.
    SendRequestFailed,
    /// Failed to receive a response from the responder worker.
    ReceiveResponseFailed,
    /// The sender service failed.
    SenderError(String),
}

impl SendFundsError {
    /// The code of [`SendFundsError::status`].
    pub open spec fn code(self) -> Code {
        match self {
            SendFundsError::AddressMissing => Code::InvalidArgument,
            SendFundsError::AddressInvalid(_) => Code::InvalidArgument,
            SendFundsError::SendRequestFailed => Code::Unavailable,
            SendFundsError::ReceiveResponseFailed => Code::Unavailable,
            SendFundsError::SenderError(_) => Code::Internal,
        }
    }

    /// The message of [`SendFundsError::status`].
    pub open spec fn message_text(self) -> Seq<char> {
        match self {
            SendFundsError::AddressMissing => "no address was provided"@,
            SendFundsError::AddressInvalid(error) => "address could not be parsed: '"@ + error@
                + "'"@,
            SendFundsError::SendRequestFailed => "failed to send request to send worker"@,
            SendFundsError::ReceiveResponseFailed =>
                "failed to receive response from send worker"@,
            SendFundsError::SenderError(error) => failed_to_send_text(debug_text(error@)),
        }
    }

    /// Returns the status that a call answers with after this error.
    pub fn status(&self) -> (status: Status)
        ensures
            status.code == self.code(),
            status.message@ == self.message_text(),
    {
        match self {
            SendFundsError::AddressMissing => Status {
                code: Code::InvalidArgument,
                message: "no address was provided".to_owned(),
            },
            SendFundsError::AddressInvalid(error) => {
                let mut message = String::new();
                message.append("address could not be parsed: '");
                message.append(error.as_str());
                message.append("'");
                assert(message@ =~= self.message_text());
                Status { code: Code::InvalidArgument, message }
            },
            SendFundsError::SendRequestFailed => Status {
                code: Code::Unavailable,
                message: "failed to send request to send worker".to_owned(),
            },
            SendFundsError::ReceiveResponseFailed => Status {
                code: Code::Unavailable,
                message: "failed to receive response from send worker".to_owned(),
            },
            SendFundsError::SenderError(error) => Status {
                code: Code::Internal,
                message: failed_to_send(&format_debug(error)),
            },
        }
    }
}

/// The message for an error of the sender service, from its description in quotes.
pub open spec fn failed_to_send_text(quoted: Seq<char>) -> Seq<char> {
    "failed to send funds: '"@ + quoted + "'"@
}

/// Writes the message for an error of the sender service, from its description in quotes.
pub fn failed_to_send(quoted: &String) -> (message: String)
    ensures
        message@ == failed_to_send_text(quoted@),
{
    let mut message = String::new();
    message.append("failed to send funds: '");
    message.append(quoted.as_str());
    message.append("'");
    assert(message@ =~= failed_to_send_text(quoted@));
    message
}

/// What the responder worker did about a request.
#[derive(Debug)]
pub enum Delivery {
    /// The request could not be sent to it.
    NotSent,
    /// It gave no response.
    NoResponse,
    /// It gave this response.
    Answered(Response),
}

/// Whether a response is about one address and nothing else.
pub open spec fn answers_for(response: Response, address: Address) -> bool {
    &&& response.unparsed@.len() == 0
    &&& response.remaining@.len() == 0
    &&& {
        ||| response.succeeded@.len() == 1 && response.failed@.len() == 0
            && response.succeeded@[0].0.encoded@ == address.encoded@
        ||| response.succeeded@.len() == 0 && response.failed@.len() == 1
            && response.failed@[0].0.encoded@ == address.encoded@
    }
}

/// Returns whether a response is about one address and nothing else.
pub fn is_answer_for(response: &Response, address: &Address) -> (answer: bool)
    ensures
        answer == answers_for(*response, *address),
{
    if !response.unparsed.is_empty() || !response.remaining.is_empty() {
        return false;
    }
    if response.succeeded.len() == 1 && response.failed.is_empty() {
        response.succeeded[0].0.encoded == address.encoded
    } else if response.succeeded.is_empty() && response.failed.len() == 1 {
        response.failed[0].0.encoded == address.encoded
    } else {
        false
    }
}

/// A faucet server.
#[derive(Clone, Copy, Debug)]
pub struct FaucetServer;

impl FaucetServer {
    /// Reads the address of a call, which is either missing, or invalid for a reason that is given,
    /// or valid, and returns the request to send to the responder worker.
    pub fn request(address: Option<Result<Address, String>>) -> (request: Result<
        (Address, Request),
        SendFundsError,
    >)
        ensures
            match address {
                None => request == Err::<(Address, Request), _>(SendFundsError::AddressMissing),
                Some(Err(error)) => request == Err::<(Address, Request), _>(
                    SendFundsError::AddressInvalid(error),
                ),
                Some(Ok(address)) => request matches Ok((of, made)) && of == address
                    && made.addresses@ == seq![AddressOrAlmost::Address(Box::new(address))],
            },
    {
        match address {
            None => Err(SendFundsError::AddressMissing),
            Some(Err(error)) => Err(SendFundsError::AddressInvalid(error)),
            Some(Ok(address)) => {
                let request = Request::new(address.clone());
                Ok((address, request))
            },
        }
    }

    /// Sends funds to an address, returning the transaction: this is the answer to the call, once
    /// the responder worker is done with the request.
    pub fn send_funds(address: &Address, delivery: Delivery) -> (answer: Result<
        TransactionId,
        SendFundsError,
    >)
        requires
            delivery matches Delivery::Answered(response) ==> answers_for(response, *address),
        ensures
            match delivery {
                Delivery::NotSent => answer == Err::<TransactionId, _>(
                    SendFundsError::SendRequestFailed,
                ),
                Delivery::NoResponse => answer == Err::<TransactionId, _>(
                    SendFundsError::ReceiveResponseFailed,
                ),
                Delivery::Answered(response) => if response.succeeded@.len() == 1 {
                    answer == Ok::<_, SendFundsError>(response.succeeded@[0].1)
                } else {
                    answer == Err::<TransactionId, _>(
                        SendFundsError::SenderError(response.failed@[0].1),
                    )
                },
            },
    {
        match delivery {
            Delivery::NotSent => Err(SendFundsError::SendRequestFailed),
            Delivery::NoResponse => Err(SendFundsError::ReceiveResponseFailed),
            Delivery::Answered(response) => {
                if response.succeeded.len() == 1 {
                    Ok(response.succeeded[0].1.clone())
                } else {
                    Err(SendFundsError::SenderError(response.failed[0].1.clone()))
                }
            },
        }
    }
}

/// A responder that may handle an address, and whose sender service answers, responds to the
/// request of a call just as the call expects: about the address of the call, and nothing else.
/// The call then answers with what the sender service answered.
pub proof fn law_calls_are_answered(
    address: Address,
    max_addresses: nat,
    result: SenderResult,
    response: Response,
)
    requires
        max_addresses > 0,
        ({
            let pieces = seq![AddressOrAlmost::Address(Box::new(address))];
            let sent = valid_of(handled(pieces, max_addresses));
            let rest = left_over(pieces, max_addresses);
            &&& response.succeeded@ == successes(sent, seq![result])
            &&& response.failed@ == failures(sent, seq![result])
            &&& response.unparsed@ == invalid_of(handled(pieces, max_addresses)) + invalid_of(rest)
            &&& response.remaining@ == valid_of(rest)
        }),
    ensures
        answers_for(response, address),
        match result {
            Ok(id) => response.succeeded@.len() == 1 && response.succeeded@[0].1 == id,
            Err(error) => response.succeeded@.len() == 0 && response.failed@[0].1 == error,
        },
{
    law_single_address(address, max_addresses, result);
}

/// A call that fails answers with the error that it met: what is wrong with the address, or what the
/// sender service said, in quotes. The caller is at fault just for the address, the service is for a
/// failure to send, and otherwise the call can be made again.
pub proof fn law_statuses_tell_the_error(error: SendFundsError, text: String)
    ensures
        occurs(text@, SendFundsError::AddressInvalid(text).message_text()),
        occurs(debug_text(text@), SendFundsError::SenderError(text).message_text()),
        SendFundsError::AddressInvalid(text).message_text().len()
            == "address could not be parsed: '"@.len() + text@.len() + "'"@.len(),
        SendFundsError::SenderError(text).message_text().len() == "failed to send funds: '"@.len()
            + debug_text(text@).len() + "'"@.len(),
        error.code() == Code::InvalidArgument <==> error is AddressMissing
            || error is AddressInvalid,
        error.code() == Code::Internal <==> error is SenderError,
        error.code() == Code::Unavailable <==> error is SendRequestFailed
            || error is ReceiveResponseFailed,
{
    lemma_occurs_within("address could not be parsed: '"@, text@, "'"@);
    lemma_occurs_within("failed to send funds: '"@, debug_text(text@), "'"@);
}

/// A response is an answer for an address just when it tells of one address, that one, and of nothing
/// else.
pub proof fn law_answers_are_about_one_address(response: Response, address: Address)
    ensures
        answers_for(response, address) ==> response.succeeded@.len() + response.failed@.len() == 1
            && response.unparsed@.len() + response.remaining@.len() == 0,
        answers_for(response, address) && response.succeeded@.len() == 1
            ==> response.succeeded@[0].0.encoded@ == address.encoded@,
        answers_for(response, address) && response.failed@.len() == 1
            ==> response.failed@[0].0.encoded@ == address.encoded@,
        response.succeeded@.len() + response.failed@.len() == 1 && response.unparsed@.len()
            + response.remaining@.len() == 0 && (forall|i: int|
            0 <= i < response.succeeded@.len() ==> (#[trigger] response.succeeded@[i]).0.encoded@
                == address.encoded@) && (forall|i: int|
            0 <= i < response.failed@.len() ==> (#[trigger] response.failed@[i]).0.encoded@
                == address.encoded@) ==> answers_for(response, address),
{
}

/// A call is answered with the transaction that the responder reports, or with the error that it
/// reports, or with what went wrong on the way there and back; and a call without a valid address asks
/// for nothing.
pub proof fn law_calls_get_the_reported_answer(
    given: Option<Result<Address, String>>,
    request: Result<(Address, Request), SendFundsError>,
    address: Address,
    delivery: Delivery,
    answer: Result<TransactionId, SendFundsError>,
)
    requires
        call_ensures(FaucetServer::request, (given,), request),
        delivery matches Delivery::Answered(response) ==> answers_for(response, address),
        call_ensures(FaucetServer::send_funds, (&address, delivery), answer),
    ensures
        request is Ok <==> given is Some && given->0 is Ok,
        request is Ok ==> request->Ok_0.0 == given->0->Ok_0 && request->Ok_0.1.addresses@.len() == 1
            && request->Ok_0.1.addresses@[0] == AddressOrAlmost::Address(
            Box::new(given->0->Ok_0),
        ),
        delivery is Answered <==> answer is Ok || answer->Err_0 is SenderError,
        delivery matches Delivery::Answered(response) ==> match answer {
            Ok(id) => {
                &&& response.succeeded@.len() == 1
                &&& response.succeeded@[0].0.encoded@ == address.encoded@
                &&& response.succeeded@[0].1 == id
            },
            Err(error) => {
                &&& response.failed@.len() == 1
                &&& response.failed@[0].0.encoded@ == address.encoded@
                &&& error == SendFundsError::SenderError(response.failed@[0].1)
            },
        },
{
}

} // verus!
