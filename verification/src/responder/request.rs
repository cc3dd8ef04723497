//! Requests to dispense tokens.

use vstd::prelude::*;

use crate::address::Address;
use crate::address::AddressOrAlmost;

verus! {

/// A request to dispense tokens to some addresses.
#[derive(Debug)]
pub struct Request {
    pub addresses: Vec<AddressOrAlmost>,
}

impl Request {
    /// Makes a request of what was found in a message, unless nothing was found.
    pub fn try_new(found: Vec<AddressOrAlmost>) -> (request: Option<Request>)
        ensures
            request == (if found@.len() == 0 {
                None
            } else {
                Some(Request { addresses: found })
            }),
    {
        if found.len() == 0 {
            None
        } else {
            Some(Request { addresses: found })
        }
    }

    /// Makes a request for a single address.
    pub fn new(address: Address) -> (request: Request)
        ensures
            request.addresses@ == seq![AddressOrAlmost::Address(Box::new(address))],
    {
        let mut addresses: Vec<AddressOrAlmost> = Vec::new();
        addresses.push(AddressOrAlmost::Address(Box::new(address)));
        assert(addresses@ =~= seq![AddressOrAlmost::Address(Box::new(address))]);
        Request { addresses }
    }

    /// Returns the addresses of the request.
    pub fn addresses(&self) -> (addresses: &Vec<AddressOrAlmost>)
        ensures
            *addresses == self.addresses,
    {
        &self.addresses
    }
}

} // verus!
