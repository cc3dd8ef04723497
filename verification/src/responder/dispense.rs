//! The core logic for dispensing faucet tokens. See [`Dispense`].

use vstd::prelude::*;
use vstd::seq_lib::lemma_multiset_commutative;
use vstd::seq_lib::to_multiset_build;

use crate::address::Address;
use crate::address::AddressOrAlmost;
use crate::address::TransactionId;
use crate::address::Value;
use crate::responder::response::Response;

verus! {

/// What the sender service is asked: to send the values to the address.
pub type SenderRequest = (Address, Vec<Value>);

/// What the sender service answers: the transaction, or a description of the error.
pub type SenderResult = Result<TransactionId, String>;

/// The valid addresses among some pieces of a message, in order.
pub open spec fn valid_of(pieces: Seq<AddressOrAlmost>) -> Seq<Address>
    decreases pieces.len(),
{
    if pieces.len() == 0 {
        Seq::empty()
    } else {
        match pieces.last() {
            AddressOrAlmost::Address(address) => valid_of(pieces.drop_last()).push(*address),
            AddressOrAlmost::Almost(_) => valid_of(pieces.drop_last()),
        }
    }
}

/// The invalid texts among some pieces of a message, in order.
pub open spec fn invalid_of(pieces: Seq<AddressOrAlmost>) -> Seq<String>
    decreases pieces.len(),
{
    if pieces.len() == 0 {
        Seq::empty()
    } else {
        match pieces.last() {
            AddressOrAlmost::Address(_) => invalid_of(pieces.drop_last()),
            AddressOrAlmost::Almost(text) => invalid_of(pieces.drop_last()).push(text),
        }
    }
}

/// The last pieces of a message, so many of them, from the last one backwards.
pub open spec fn taken(pieces: Seq<AddressOrAlmost>, count: nat) -> Seq<AddressOrAlmost> {
    Seq::new(count, |i: int| pieces[pieces.len() - 1 - i])
}

/// How many pieces of a message are handled, from the last one backwards: until the maximum number
/// of valid addresses is reached, or none is left. Texts that are no addresses do not count towards
/// the maximum.
pub open spec fn handled_count(pieces: Seq<AddressOrAlmost>, max_addresses: nat) -> nat
    decreases pieces.len(),
{
    if pieces.len() == 0 || max_addresses == 0 {
        0
    } else {
        match pieces.last() {
            AddressOrAlmost::Address(_) => 1 + handled_count(
                pieces.drop_last(),
                (max_addresses - 1) as nat,
            ),
            AddressOrAlmost::Almost(_) => 1 + handled_count(pieces.drop_last(), max_addresses),
        }
    }
}

/// The pieces that are handled, from the last one backwards.
pub open spec fn handled(pieces: Seq<AddressOrAlmost>, max_addresses: nat) -> Seq<AddressOrAlmost> {
    taken(pieces, handled_count(pieces, max_addresses))
}

/// The pieces that are left: those before the handled ones.
pub open spec fn left_over(pieces: Seq<AddressOrAlmost>, max_addresses: nat) -> Seq<
    AddressOrAlmost,
> {
    pieces.take(pieces.len() - handled_count(pieces, max_addresses))
}

/// The addresses for which the sender service succeeded, each with its transaction.
pub open spec fn successes(sent: Seq<Address>, results: Seq<SenderResult>) -> Seq<
    (Address, TransactionId),
>
    decreases results.len(),
{
    if results.len() == 0 {
        Seq::empty()
    } else {
        match results.last() {
            Ok(id) => successes(sent, results.drop_last()).push((sent[results.len() - 1], id)),
            Err(_) => successes(sent, results.drop_last()),
        }
    }
}

/// The addresses for which the sender service failed, each with the description of the error.
pub open spec fn failures(sent: Seq<Address>, results: Seq<SenderResult>) -> Seq<(Address, String)>
    decreases results.len(),
{
    if results.len() == 0 {
        Seq::empty()
    } else {
        match results.last() {
            Ok(_) => failures(sent, results.drop_last()),
            Err(error) => failures(sent, results.drop_last()).push(
                (sent[results.len() - 1], error),
            ),
        }
    }
}

/// The contents of a [`Dispense`].
pub struct DispenseView {
    /// The addresses that the sender service was asked to send to, in order.
    pub sent: Seq<Address>,
    /// The handled texts that are no addresses.
    pub unparsed: Seq<String>,
    /// The pieces that were not handled.
    pub rest: Seq<AddressOrAlmost>,
    /// The answers of the sender service so far, in order.
    pub results: Seq<SenderResult>,
}

/// A request to dispense tokens that is under way.
pub struct Dispense {
    sent: Vec<Address>,
    unparsed: Vec<String>,
    rest: Vec<AddressOrAlmost>,
    succeeded: Vec<(Address, TransactionId)>,
    failed: Vec<(Address, String)>,
    answered: usize,
    results: Ghost<Seq<SenderResult>>,
}

impl View for Dispense {
    type V = DispenseView;

    closed spec fn view(&self) -> DispenseView {
        DispenseView {
            sent: self.sent@,
            unparsed: self.unparsed@,
            rest: self.rest@,
            results: self.results@,
        }
    }
}

impl Dispense {
    /// The answers are accounted for, and there are no more of them than requests.
    pub closed spec fn wf(self) -> bool {
        &&& self.answered == self.results@.len()
        &&& self.answered <= self.sent@.len()
        &&& self.succeeded@ == successes(self.sent@, self.results@)
        &&& self.failed@ == failures(self.sent@, self.results@)
    }

    /// Takes up to the maximum number of valid addresses from the end of the list, and returns the
    /// requests for the sender service, one for each of them.
    pub fn plan(
        addresses: Vec<AddressOrAlmost>,
        max_addresses: usize,
        values: &Vec<Value>,
    ) -> (planned: (Dispense, Vec<SenderRequest>))
        ensures
            planned.0.wf(),
            planned.0@.sent == valid_of(handled(addresses@, max_addresses as nat)),
            planned.0@.unparsed == invalid_of(handled(addresses@, max_addresses as nat)),
            planned.0@.rest == left_over(addresses@, max_addresses as nat),
            planned.0@.results == Seq::<SenderResult>::empty(),
            planned.1@.len() == planned.0@.sent.len(),
            forall|i: int|
                0 <= i < planned.1@.len() ==> (#[trigger] planned.1@[i]).0 == planned.0@.sent[i]
                    && planned.1@[i].1@ == values@,
    {
        let ghost pieces = addresses@;
        let mut rest = addresses;
        let mut sent: Vec<Address> = Vec::new();
        let mut unparsed: Vec<String> = Vec::new();
        let mut requests: Vec<SenderRequest> = Vec::new();
        let ghost mut count: nat = 0;
        assert(rest@ =~= pieces.take(pieces.len() as int));
        assert(taken(pieces, 0) =~= Seq::empty());
        while sent.len() < max_addresses && rest.len() > 0
            invariant
                count <= pieces.len(),
                rest@ == pieces.take(pieces.len() - count),
                sent@ == valid_of(taken(pieces, count)),
                sent@.len() <= max_addresses,
                unparsed@ == invalid_of(taken(pieces, count)),
                handled_count(pieces, max_addresses as nat) == count + handled_count(
                    rest@,
                    (max_addresses - sent@.len()) as nat,
                ),
                requests@.len() == sent@.len(),
                forall|i: int|
                    0 <= i < requests@.len() ==> (#[trigger] requests@[i]).0 == sent@[i]
                        && requests@[i].1@ == values@,
            decreases rest@.len(),
        {
            let ghost before = rest@;
            let piece = rest.pop().unwrap();
            proof {
                let next = taken(pieces, count + 1);
                assert(next.drop_last() =~= taken(pieces, count));
                assert(next.last() == piece);
                assert(rest@ == before.drop_last());
            }
            match piece {
                AddressOrAlmost::Address(address) => {
                    let copied = values.clone();
                    assert(copied@ =~= values@);
                    requests.push(((&*address).clone(), copied));
                    sent.push(*address);
                },
                AddressOrAlmost::Almost(text) => {
                    unparsed.push(text);
                },
            }
            proof {
                count = count + 1;
            }
            assert(rest@ =~= pieces.take(pieces.len() - count));
        }
        assert(count == handled_count(pieces, max_addresses as nat));
        let dispense = Dispense {
            sent,
            unparsed,
            rest,
            succeeded: Vec::new(),
            failed: Vec::new(),
            answered: 0,
            results: Ghost(Seq::empty()),
        };
        (dispense, requests)
    }

    /// Records the next answer of the sender service. The answers come in the order of the
    /// requests.
    pub fn record(&mut self, result: SenderResult)
        requires
            old(self).wf(),
            old(self)@.results.len() < old(self)@.sent.len(),
        ensures
            final(self).wf(),
            final(self)@ == (DispenseView {
                results: old(self)@.results.push(result),
                ..old(self)@
            }),
    {
        assert(self.answered < self.sent.len());
        let address = self.sent[self.answered].clone();
        let ghost results = self.results@.push(result);
        assert(results.drop_last() =~= self.results@);
        match result {
            Ok(id) => {
                self.succeeded.push((address, id));
            },
            Err(error) => {
                self.failed.push((address, error));
            },
        }
        self.answered = self.answered + 1;
        self.results = Ghost(results);
    }

    /// Returns whether the sender service owes no more answers.
    pub fn is_answered(&self) -> (answered: bool)
        requires
            self.wf(),
        ensures
            answered == (self@.results.len() == self@.sent.len()),
    {
        self.answered == self.sent.len()
    }

    /// Returns what became of the request: of the addresses that were not handled, the valid ones
    /// are reported as remaining, and the others as unparsed.
    pub fn finish(self) -> (response: Response)
        requires
            self.wf(),
        ensures
            response.succeeded@ == successes(self@.sent, self@.results),
            response.failed@ == failures(self@.sent, self@.results),
            response.unparsed@ == self@.unparsed + invalid_of(self@.rest),
            response.remaining@ == valid_of(self@.rest),
    {
        let Dispense { sent: _, unparsed, rest, succeeded, failed, answered: _, results: _ } = self;
        let mut unparsed = unparsed;
        let mut remaining: Vec<Address> = Vec::new();
        let mut i: usize = 0;
        assert(rest@.take(0) =~= Seq::empty());
        assert(unparsed@ =~= self.unparsed@ + invalid_of(rest@.take(0)));
        while i < rest.len()
            invariant
                i <= rest@.len(),
                unparsed@ == self.unparsed@ + invalid_of(rest@.take(i as int)),
                remaining@ == valid_of(rest@.take(i as int)),
            decreases rest@.len() - i,
        {
            assert(rest@.take(i + 1).drop_last() =~= rest@.take(i as int));
            match &rest[i] {
                AddressOrAlmost::Address(address) => {
                    remaining.push((&**address).clone());
                },
                AddressOrAlmost::Almost(text) => {
                    unparsed.push(text.clone());
                },
            }
            i = i + 1;
            assert(unparsed@ =~= self.unparsed@ + invalid_of(rest@.take(i as int)));
        }
        assert(rest@.take(i as int) =~= rest@);
        Response { succeeded, failed, unparsed, remaining }
    }
}

/// The addresses of a list of addresses with something beside each.
pub open spec fn addresses_of<T>(items: Seq<(Address, T)>) -> Seq<Address> {
    items.map_values(|item: (Address, T)| item.0)
}

proof fn lemma_taken_or_left(pieces: Seq<AddressOrAlmost>, count: nat)
    requires
        count <= pieces.len(),
    ensures
        valid_of(taken(pieces, count)).to_multiset().add(
            valid_of(pieces.take(pieces.len() - count)).to_multiset(),
        ) == valid_of(pieces).to_multiset(),
        invalid_of(taken(pieces, count)).to_multiset().add(
            invalid_of(pieces.take(pieces.len() - count)).to_multiset(),
        ) == invalid_of(pieces).to_multiset(),
    decreases count,
{
    broadcast use vstd::multiset::group_multiset_axioms;

    if count == 0 {
        assert(taken(pieces, count) =~= Seq::empty());
        assert(pieces.take(pieces.len() - count) =~= pieces);
        Seq::<Address>::empty().to_multiset_ensures();
        Seq::<String>::empty().to_multiset_ensures();
        assert(Seq::<Address>::empty().to_multiset() =~= vstd::multiset::Multiset::empty());
        assert(Seq::<String>::empty().to_multiset() =~= vstd::multiset::Multiset::empty());
        assert(valid_of(taken(pieces, count)).to_multiset().add(
            valid_of(pieces.take(pieces.len() - count)).to_multiset(),
        ) =~= valid_of(pieces).to_multiset());
        assert(invalid_of(taken(pieces, count)).to_multiset().add(
            invalid_of(pieces.take(pieces.len() - count)).to_multiset(),
        ) =~= invalid_of(pieces).to_multiset());
    } else {
        let before = (count - 1) as nat;
        let piece = pieces[pieces.len() - count];
        lemma_taken_or_left(pieces, before);
        assert(taken(pieces, count).drop_last() =~= taken(pieces, before));
        assert(taken(pieces, count).last() == piece);
        assert(pieces.take(pieces.len() - before).drop_last() =~= pieces.take(pieces.len() - count));
        assert(pieces.take(pieces.len() - before).last() == piece);
        match piece {
            AddressOrAlmost::Address(address) => {
                to_multiset_build(valid_of(taken(pieces, before)), *address);
                to_multiset_build(valid_of(pieces.take(pieces.len() - count)), *address);
            },
            AddressOrAlmost::Almost(text) => {
                to_multiset_build(invalid_of(taken(pieces, before)), text);
                to_multiset_build(invalid_of(pieces.take(pieces.len() - count)), text);
            },
        }
        assert(valid_of(taken(pieces, count)).to_multiset().add(
            valid_of(pieces.take(pieces.len() - count)).to_multiset(),
        ) =~= valid_of(pieces).to_multiset());
        assert(invalid_of(taken(pieces, count)).to_multiset().add(
            invalid_of(pieces.take(pieces.len() - count)).to_multiset(),
        ) =~= invalid_of(pieces).to_multiset());
    }
}

proof fn lemma_answers_partition(sent: Seq<Address>, results: Seq<SenderResult>)
    requires
        results.len() <= sent.len(),
    ensures
        addresses_of(successes(sent, results)).to_multiset().add(
            addresses_of(failures(sent, results)).to_multiset(),
        ) == sent.take(results.len() as int).to_multiset(),
        successes(sent, results).len() + failures(sent, results).len() == results.len(),
    decreases results.len(),
{
    broadcast use vstd::multiset::group_multiset_axioms;

    if results.len() == 0 {
        Seq::<Address>::empty().to_multiset_ensures();
        assert(Seq::<Address>::empty().to_multiset() =~= vstd::multiset::Multiset::empty());
        assert(addresses_of(successes(sent, results)) =~= Seq::empty());
        assert(addresses_of(failures(sent, results)) =~= Seq::empty());
        assert(sent.take(0) =~= Seq::empty());
        assert(addresses_of(successes(sent, results)).to_multiset().add(
            addresses_of(failures(sent, results)).to_multiset(),
        ) =~= sent.take(0).to_multiset());
    } else {
        let before = results.drop_last();
        let address = sent[results.len() - 1];
        lemma_answers_partition(sent, before);
        assert(sent.take(results.len() as int) =~= sent.take(before.len() as int).push(address));
        to_multiset_build(sent.take(before.len() as int), address);
        match results.last() {
            Ok(_) => {
                assert(addresses_of(successes(sent, results)) =~= addresses_of(
                    successes(sent, before),
                ).push(address));
                to_multiset_build(addresses_of(successes(sent, before)), address);
            },
            Err(_) => {
                assert(addresses_of(failures(sent, results)) =~= addresses_of(
                    failures(sent, before),
                ).push(address));
                to_multiset_build(addresses_of(failures(sent, before)), address);
            },
        }
        assert(addresses_of(successes(sent, results)).to_multiset().add(
            addresses_of(failures(sent, results)).to_multiset(),
        ) =~= sent.take(results.len() as int).to_multiset());
    }
}

proof fn lemma_valid_of_front(piece: AddressOrAlmost, pieces: Seq<AddressOrAlmost>)
    ensures
        valid_of(seq![piece] + pieces).len() == valid_of(pieces).len() + (match piece {
            AddressOrAlmost::Address(_) => 1int,
            AddressOrAlmost::Almost(_) => 0,
        }),
    decreases pieces.len(),
{
    let all = seq![piece] + pieces;
    if pieces.len() == 0 {
        assert(all.drop_last() =~= Seq::empty());
        reveal_with_fuel(valid_of, 2);
    } else {
        lemma_valid_of_front(piece, pieces.drop_last());
        assert(all.drop_last() =~= seq![piece] + pieces.drop_last());
    }
}

/// The limit is respected, and used up before a valid address is left.
proof fn lemma_limit_used_up(pieces: Seq<AddressOrAlmost>, max_addresses: nat)
    ensures
        handled_count(pieces, max_addresses) <= pieces.len(),
        valid_of(handled(pieces, max_addresses)).len() <= max_addresses,
        valid_of(left_over(pieces, max_addresses)).len() > 0 ==> valid_of(
            handled(pieces, max_addresses),
        ).len() == max_addresses,
    decreases pieces.len(),
{
    if pieces.len() > 0 && max_addresses > 0 {
        let rest = pieces.drop_last();
        let max = match pieces.last() {
            AddressOrAlmost::Address(_) => (max_addresses - 1) as nat,
            AddressOrAlmost::Almost(_) => max_addresses,
        };
        lemma_limit_used_up(rest, max);
        assert(handled(pieces, max_addresses) =~= seq![pieces.last()] + handled(rest, max));
        lemma_valid_of_front(pieces.last(), handled(rest, max));
        assert(left_over(pieces, max_addresses) =~= left_over(rest, max));
    } else {
        assert(handled(pieces, max_addresses) =~= Seq::empty());
        if pieces.len() == 0 {
            assert(left_over(pieces, max_addresses) =~= Seq::empty());
        }
    }
}

/// Tokens are dispensed to no more addresses than the maximum number.
pub proof fn law_at_most_max_addresses(pieces: Seq<AddressOrAlmost>, max_addresses: nat)
    ensures
        valid_of(handled(pieces, max_addresses)).len() <= max_addresses,
{
    lemma_limit_used_up(pieces, max_addresses);
}

/// Only the maximum number holds a valid address back: as long as one is left, the sender service
/// is asked for as many addresses as the maximum number says, and once it has answered, just as
/// many have succeeded or failed.
pub proof fn law_only_the_limit_holds_back(
    pieces: Seq<AddressOrAlmost>,
    max_addresses: nat,
    results: Seq<SenderResult>,
)
    requires
        valid_of(left_over(pieces, max_addresses)).len() > 0,
        results.len() == valid_of(handled(pieces, max_addresses)).len(),
    ensures
        valid_of(handled(pieces, max_addresses)).len() == max_addresses,
        ({
            let sent = valid_of(handled(pieces, max_addresses));
            successes(sent, results).len() + failures(sent, results).len() == max_addresses
        }),
{
    lemma_limit_used_up(pieces, max_addresses);
    lemma_answers_partition(valid_of(handled(pieces, max_addresses)), results);
}

/// Once the sender service has answered every request, each valid address of the message is
/// reported exactly once, as succeeded, failed or remaining, and each invalid text exactly once, as
/// unparsed.
pub proof fn law_every_address_is_reported_once(
    pieces: Seq<AddressOrAlmost>,
    max_addresses: nat,
    results: Seq<SenderResult>,
)
    requires
        results.len() == valid_of(handled(pieces, max_addresses)).len(),
    ensures
        ({
            let sent = valid_of(handled(pieces, max_addresses));
            &&& addresses_of(successes(sent, results)).to_multiset().add(
                addresses_of(failures(sent, results)).to_multiset(),
            ).add(valid_of(left_over(pieces, max_addresses)).to_multiset()) == valid_of(
                pieces,
            ).to_multiset()
            &&& invalid_of(handled(pieces, max_addresses)).to_multiset().add(
                invalid_of(left_over(pieces, max_addresses)).to_multiset(),
            ) == invalid_of(pieces).to_multiset()
        }),
{
    let sent = valid_of(handled(pieces, max_addresses));
    lemma_limit_used_up(pieces, max_addresses);
    lemma_taken_or_left(pieces, handled_count(pieces, max_addresses));
    lemma_answers_partition(sent, results);
    assert(sent.take(results.len() as int) =~= sent);
}

/// A request for a single address is handled as soon as one address is permitted: the sender
/// service is asked once, for that address, and its answer is all that the response holds.
pub proof fn law_single_address(address: Address, max_addresses: nat, result: SenderResult)
    requires
        max_addresses > 0,
    ensures
        ({
            let pieces = seq![AddressOrAlmost::Address(Box::new(address))];
            let sent = valid_of(handled(pieces, max_addresses));
            &&& sent == seq![address]
            &&& invalid_of(handled(pieces, max_addresses)) == Seq::<String>::empty()
            &&& left_over(pieces, max_addresses) == Seq::<AddressOrAlmost>::empty()
            &&& match result {
                Ok(id) => successes(sent, seq![result]) == seq![(address, id)] && failures(
                    sent,
                    seq![result],
                ) == Seq::<(Address, String)>::empty(),
                Err(error) => successes(sent, seq![result]) == Seq::<
                    (Address, TransactionId),
                >::empty() && failures(sent, seq![result]) == seq![(address, error)],
            }
        }),
{
    reveal_with_fuel(valid_of, 3);
    reveal_with_fuel(invalid_of, 3);
    reveal_with_fuel(successes, 3);
    reveal_with_fuel(failures, 3);
    let pieces = seq![AddressOrAlmost::Address(Box::new(address))];
    assert(pieces.drop_last() =~= Seq::empty());
    assert(handled_count(pieces.drop_last(), (max_addresses - 1) as nat) == 0);
    assert(handled(pieces, max_addresses) =~= pieces);
    assert(valid_of(pieces) =~= seq![address]);
    assert(left_over(pieces, max_addresses) =~= Seq::empty());
    let results = seq![result];
    assert(results.drop_last() =~= Seq::empty());
    let sent = valid_of(handled(pieces, max_addresses));
    match result {
        Ok(id) => {
            assert(successes(sent, results) =~= seq![(address, id)]);
        },
        Err(error) => {
            assert(failures(sent, results) =~= seq![(address, error)]);
        },
    }
}

/// The valid addresses among some pieces are those that the valid pieces hold, in order, and the
/// invalid texts those that the others hold.
pub proof fn law_pieces_are_sorted_out(pieces: Seq<AddressOrAlmost>)
    ensures
        valid_of(pieces) == pieces.filter(|piece: AddressOrAlmost| piece is Address).map_values(
            |piece: AddressOrAlmost| *piece->Address_0,
        ),
        invalid_of(pieces) == pieces.filter(|piece: AddressOrAlmost| piece is Almost).map_values(
            |piece: AddressOrAlmost| piece->Almost_0,
        ),
        valid_of(pieces).len() + invalid_of(pieces).len() == pieces.len(),
    decreases pieces.len(),
{
    reveal(Seq::filter);
    let valid = |piece: AddressOrAlmost| piece is Address;
    let invalid = |piece: AddressOrAlmost| piece is Almost;
    let address = |piece: AddressOrAlmost| *piece->Address_0;
    let text = |piece: AddressOrAlmost| piece->Almost_0;
    if pieces.len() > 0 {
        let (before, last) = (pieces.drop_last(), pieces.last());
        law_pieces_are_sorted_out(before);
        assert(before.filter(valid).push(last).map_values(address) =~= before.filter(
            valid,
        ).map_values(address).push(address(last)));
        assert(before.filter(invalid).push(last).map_values(text) =~= before.filter(
            invalid,
        ).map_values(text).push(text(last)));
    } else {
        assert(valid_of(pieces) =~= pieces.filter(valid).map_values(address));
        assert(invalid_of(pieces) =~= pieces.filter(invalid).map_values(text));
    }
}

/// The pieces are taken from the end of the message: those that are left, followed by the handled
/// ones in reverse, are the message. Handling stops with the address that uses up the limit, and
/// only there: as long as the limit is not used up, nothing is left.
pub proof fn law_addresses_are_taken_from_the_end(
    pieces: Seq<AddressOrAlmost>,
    max_addresses: nat,
)
    ensures
        left_over(pieces, max_addresses) + handled(pieces, max_addresses).reverse() == pieces,
        valid_of(handled(pieces, max_addresses)).len() < max_addresses ==> left_over(
            pieces,
            max_addresses,
        ).len() == 0,
        valid_of(handled(pieces, max_addresses)).len() == max_addresses && handled(
            pieces,
            max_addresses,
        ).len() > 0 ==> handled(pieces, max_addresses).last() is Address,
    decreases pieces.len(),
{
    lemma_limit_used_up(pieces, max_addresses);
    assert(left_over(pieces, max_addresses) + handled(pieces, max_addresses).reverse() =~= pieces);
    if pieces.len() > 0 && max_addresses > 0 {
        let rest = pieces.drop_last();
        let max = match pieces.last() {
            AddressOrAlmost::Address(_) => (max_addresses - 1) as nat,
            AddressOrAlmost::Almost(_) => max_addresses,
        };
        law_addresses_are_taken_from_the_end(rest, max);
        lemma_limit_used_up(rest, max);
        assert(handled(pieces, max_addresses) =~= seq![pieces.last()] + handled(rest, max));
        lemma_valid_of_front(pieces.last(), handled(rest, max));
        assert(left_over(pieces, max_addresses) =~= left_over(rest, max));
        if handled(rest, max).len() == 0 {
            assert(handled(rest, max) =~= Seq::empty());
        } else {
            assert(handled(pieces, max_addresses).last() == handled(rest, max).last());
        }
    }
}

/// Each answer is reported with the address that it was given for: a success with its own
/// transaction, a failure with its own error, in the order of the answers, and nothing else is
/// reported.
pub proof fn law_answers_go_with_their_addresses(sent: Seq<Address>, results: Seq<SenderResult>)
    ensures
        ({
            let answers = Seq::new(results.len(), |i: int| (sent[i], results[i]));
            &&& successes(sent, results) == answers.filter(
                |answer: (Address, SenderResult)| answer.1 is Ok,
            ).map_values(|answer: (Address, SenderResult)| (answer.0, answer.1->Ok_0))
            &&& failures(sent, results) == answers.filter(
                |answer: (Address, SenderResult)| answer.1 is Err,
            ).map_values(|answer: (Address, SenderResult)| (answer.0, answer.1->Err_0))
        }),
        forall|i: int|
            0 <= i < results.len() ==> match #[trigger] results[i] {
                Ok(id) => successes(sent, results).contains((sent[i], id)),
                Err(error) => failures(sent, results).contains((sent[i], error)),
            },
    decreases results.len(),
{
    reveal(Seq::filter);
    let answers = Seq::new(results.len(), |i: int| (sent[i], results[i]));
    let ok = |answer: (Address, SenderResult)| answer.1 is Ok;
    let err = |answer: (Address, SenderResult)| answer.1 is Err;
    let id = |answer: (Address, SenderResult)| (answer.0, answer.1->Ok_0);
    let error = |answer: (Address, SenderResult)| (answer.0, answer.1->Err_0);
    let (all_good, all_bad) = (successes(sent, results), failures(sent, results));
    if results.len() > 0 {
        let before = results.drop_last();
        let n = results.len() - 1;
        law_answers_go_with_their_addresses(sent, before);
        let earlier = Seq::new(before.len(), |i: int| (sent[i], before[i]));
        assert(answers.drop_last() =~= earlier);
        let last = (sent[n], results[n]);
        assert(earlier.filter(ok).push(last).map_values(id) =~= earlier.filter(ok).map_values(
            id,
        ).push(id(last)));
        assert(earlier.filter(err).push(last).map_values(error) =~= earlier.filter(err).map_values(
            error,
        ).push(error(last)));
        let (good, bad) = (successes(sent, before), failures(sent, before));
        assert forall|i: int| 0 <= i < results.len() implies match #[trigger] results[i] {
            Ok(id) => all_good.contains((sent[i], id)),
            Err(error) => all_bad.contains((sent[i], error)),
        } by {
            match results[i] {
                Ok(id) => {
                    if i < n {
                        assert(before[i] == results[i]);
                        let k = choose|k: int| 0 <= k < good.len() && good[k] == (sent[i], id);
                        assert(all_good[k] == (sent[i], id));
                    } else {
                        assert(all_good[all_good.len() - 1] == (sent[i], id));
                    }
                },
                Err(error) => {
                    if i < n {
                        assert(before[i] == results[i]);
                        let k = choose|k: int| 0 <= k < bad.len() && bad[k] == (sent[i], error);
                        assert(all_bad[k] == (sent[i], error));
                    } else {
                        assert(all_bad[all_bad.len() - 1] == (sent[i], error));
                    }
                },
            }
        }
    } else {
        assert(all_good =~= answers.filter(ok).map_values(id));
        assert(all_bad =~= answers.filter(err).map_values(error));
    }
}

/// Every success that is reported is the address and the transaction of one of the answers.
pub proof fn law_reported_success_was_answered(
    sent: Seq<Address>,
    results: Seq<SenderResult>,
    k: int,
) -> (i: int)
    requires
        0 <= k < successes(sent, results).len(),
    ensures
        0 <= i < results.len(),
        results[i] is Ok,
        successes(sent, results)[k] == (sent[i], results[i]->Ok_0),
    decreases results.len(),
{
    let before = results.drop_last();
    if k < successes(sent, before).len() {
        law_reported_success_was_answered(sent, before, k)
    } else {
        results.len() - 1
    }
}

/// Every failure that is reported is the address and the error of one of the answers.
pub proof fn law_reported_failure_was_answered(
    sent: Seq<Address>,
    results: Seq<SenderResult>,
    k: int,
) -> (i: int)
    requires
        0 <= k < failures(sent, results).len(),
    ensures
        0 <= i < results.len(),
        results[i] is Err,
        failures(sent, results)[k] == (sent[i], results[i]->Err_0),
    decreases results.len(),
{
    let before = results.drop_last();
    if k < failures(sent, before).len() {
        law_reported_failure_was_answered(sent, before, k)
    } else {
        results.len() - 1
    }
}

/// A request is accounted for: no more addresses are sent to than the maximum number says, each is
/// sent all the values, and in the end each valid address is reported once, and each invalid text.
pub proof fn law_requests_are_accounted_for(
    addresses: Vec<AddressOrAlmost>,
    max_addresses: usize,
    values: Vec<Value>,
    planned: (Dispense, Vec<SenderRequest>),
    answered: Dispense,
    response: Response,
)
    requires
        call_ensures(Dispense::plan, (addresses, max_addresses, &values), planned),
        answered.wf(),
        answered@ == (DispenseView { results: answered@.results, ..planned.0@ }),
        answered@.results.len() == planned.1@.len(),
        call_ensures(Dispense::finish, (answered,), response),
    ensures
        planned.1@.len() <= max_addresses,
        planned.1@.len() == response.succeeded@.len() + response.failed@.len(),
        forall|i: int| 0 <= i < planned.1@.len() ==> (#[trigger] planned.1@[i]).1@ == values@,
        addresses_of(response.succeeded@).to_multiset().add(
            addresses_of(response.failed@).to_multiset(),
        ).add(response.remaining@.to_multiset()) == valid_of(addresses@).to_multiset(),
        response.unparsed@.to_multiset() == invalid_of(addresses@).to_multiset(),
        response.remaining@.len() > 0 ==> planned.1@.len() == max_addresses,
{
    let max = max_addresses as nat;
    law_every_address_is_reported_once(addresses@, max, answered@.results);
    lemma_limit_used_up(addresses@, max);
    lemma_answers_partition(answered@.sent, answered@.results);
    lemma_multiset_commutative(
        invalid_of(handled(addresses@, max)),
        invalid_of(left_over(addresses@, max)),
    );
}

/// An answer goes to the first address that has none yet, and changes nothing else.
pub proof fn law_answers_are_recorded(dispense: &mut Dispense, result: SenderResult)
    requires
        call_ensures(Dispense::record, (dispense, result), ()),
    ensures
        final(dispense)@.sent == old(dispense)@.sent,
        final(dispense)@.unparsed == old(dispense)@.unparsed,
        final(dispense)@.rest == old(dispense)@.rest,
        match result {
            Ok(id) => {
                &&& successes(final(dispense)@.sent, final(dispense)@.results) == successes(
                    old(dispense)@.sent,
                    old(dispense)@.results,
                ).push((old(dispense)@.sent[old(dispense)@.results.len() as int], id))
                &&& failures(final(dispense)@.sent, final(dispense)@.results) == failures(
                    old(dispense)@.sent,
                    old(dispense)@.results,
                )
            },
            Err(error) => {
                &&& failures(final(dispense)@.sent, final(dispense)@.results) == failures(
                    old(dispense)@.sent,
                    old(dispense)@.results,
                ).push((old(dispense)@.sent[old(dispense)@.results.len() as int], error))
                &&& successes(final(dispense)@.sent, final(dispense)@.results) == successes(
                    old(dispense)@.sent,
                    old(dispense)@.results,
                )
            },
        },
{
    assert(final(dispense)@.results.drop_last() =~= old(dispense)@.results);
}

} // verus!
