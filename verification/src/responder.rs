//! Turns lists of addresses into responses that say whether they were dispensed tokens.

use vstd::prelude::*;

use crate::address::Value;
use crate::responder::dispense::handled;
use crate::responder::dispense::invalid_of;
use crate::responder::dispense::law_addresses_are_taken_from_the_end;
use crate::responder::dispense::law_at_most_max_addresses;
use crate::responder::dispense::law_pieces_are_sorted_out;
use crate::responder::dispense::left_over;
use crate::responder::dispense::valid_of;
use crate::responder::dispense::Dispense;
use crate::responder::dispense::SenderRequest;
use crate::responder::dispense::SenderResult;
use crate::responder::request::Request;
use crate::responder::response::Response;

pub mod dispense;
pub mod request;
pub mod response;

verus! {

/// How many requests may wait for the responder.
pub const REQUEST_CAPACITY: usize = 10;

/// How many requests may wait for the sender service.
pub const SENDER_CAPACITY: usize = 32;

/// Key for the queue of requests, under which the Discord client keeps the sending end.
#[derive(Clone, Copy, Debug)]
pub struct RequestQueue;

/// Worker transforming lists of addresses to responses describing whether they were successfully
/// dispensed tokens.
#[derive(Debug)]
pub struct Responder {
    /// Maximum number of addresses to handle per message.
    pub max_addresses: usize,
    /// Values to send each time.
    pub values: Vec<Value>,
}

impl Responder {
    /// Create a new responder.
    pub fn new(max_addresses: usize, values: Vec<Value>) -> (responder: Self)
        ensures
            responder == (Responder { max_addresses, values }),
    {
        Responder { max_addresses, values }
    }

    /// Begins to dispense tokens for a request: returns what the sender service is to be asked.
    pub fn begin(&self, request: Request) -> (begun: (Dispense, Vec<SenderRequest>))
        ensures
            begun.0.wf(),
            begun.0@.sent == valid_of(handled(request.addresses@, self.max_addresses as nat)),
            begun.0@.unparsed == invalid_of(handled(request.addresses@, self.max_addresses as nat)),
            begun.0@.rest == left_over(request.addresses@, self.max_addresses as nat),
            begun.0@.results == Seq::<SenderResult>::empty(),
            begun.1@.len() == begun.0@.sent.len(),
            forall|i: int|
                0 <= i < begun.1@.len() ==> (#[trigger] begun.1@[i]).0 == begun.0@.sent[i]
                    && begun.1@[i].1@ == self.values@,
    {
        Dispense::plan(request.addresses, self.max_addresses, &self.values)
    }

    /// Returns whether the bot has to stop after a response: it does as soon as funds could not be
    /// sent to an address.
    pub fn must_cancel(response: &Response) -> (cancel: bool)
        ensures
            cancel == (response.failed@.len() > 0),
    {
        !response.failed.is_empty()
    }
}

/// The sender service is asked for what the responder is to send, for no more addresses than it may
/// handle, each of them one of the request; and the bot stops just when an address was not sent to.
pub proof fn law_responders_send_their_values(
    responder: Responder,
    request: Request,
    begun: (Dispense, Vec<SenderRequest>),
    response: Response,
    cancel: bool,
)
    requires
        call_ensures(Responder::begin, (&responder, request), begun),
        call_ensures(Responder::must_cancel, (&response,), cancel),
    ensures
        begun.1@.len() <= responder.max_addresses,
        begun.0@.sent.len() + begun.0@.unparsed.len() + begun.0@.rest.len()
            == request.addresses@.len(),
        begun.0@.results.len() == 0,
        forall|i: int|
            0 <= i < begun.1@.len() ==> (#[trigger] begun.1@[i]).1@ == responder.values@
                && begun.1@[i].0 == begun.0@.sent[i],
        cancel <==> response.failed@.len() > 0,
{
    let max = responder.max_addresses as nat;
    law_at_most_max_addresses(request.addresses@, max);
    law_pieces_are_sorted_out(handled(request.addresses@, max));
    law_addresses_are_taken_from_the_end(request.addresses@, max);
    assert(request.addresses@.len() == left_over(request.addresses@, max).len() + handled(
        request.addresses@,
        max,
    ).reverse().len());
}

} // verus!
