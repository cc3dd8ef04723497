//! Answering the requests that were made while the bot was away.

use std::collections::HashSet;

use vstd::prelude::*;
use vstd::string::StringExecFns;

use crate::ids::user_mention;
use crate::ids::ChannelId;
use crate::ids::UserId;
use crate::responder::response::Response;
use crate::text::decimal_text;
use crate::text::lemma_occurs_through;
use crate::text::lemma_occurs_within;
use crate::text::occurs;

verus! {

/// The mentions of the users among some results who were given tokens, each with a space behind it.
pub open spec fn mentions(results: Seq<(UserId, Response)>) -> Seq<char>
    decreases results.len(),
{
    if results.len() == 0 {
        Seq::empty()
    } else {
        let before = mentions(results.drop_last());
        if results.last().1.is_complete_failure() {
            before
        } else {
            before + user_mention(results.last().0) + " "@
        }
    }
}

/// The notification about some results.
pub open spec fn notification_text(results: Seq<(UserId, Response)>) -> Seq<char> {
    "Catching up on backlog: "@ + mentions(results) + "should all have tokens now!"@
}

/// Writes the notification about a batch of results, and empties the batch.
pub fn notification(batch: &mut Vec<(UserId, Response)>) -> (text: String)
    ensures
        text@ == notification_text(old(batch)@),
        final(batch)@.len() == 0,
{
    let mut results: Vec<(UserId, Response)> = Vec::new();
    std::mem::swap(&mut results, batch);
    let mut text = String::new();
    text.append("Catching up on backlog: ");
    let ghost start = text@;
    let mut i: usize = 0;
    assert(results@.take(0) =~= Seq::empty());
    assert(text@ =~= start + mentions(results@.take(0)));
    while i < results.len()
        invariant
            i <= results@.len(),
            text@ == start + mentions(results@.take(i as int)),
        decreases results@.len() - i,
    {
        let (user, response) = &results[i];
        assert(results@.take(i + 1).drop_last() =~= results@.take(i as int));
        if !response.complete_failure() {
            text.append(user.mention().as_str());
            text.append(" ");
        }
        i = i + 1;
        assert(text@ =~= start + mentions(results@.take(i as int)));
    }
    assert(results@.take(i as int) =~= results@);
    text.append("should all have tokens now!");
    assert(text@ =~= notification_text(results@));
    text
}

/// Reports the results of catching up on a channel, several at a time.
#[derive(Debug)]
pub struct Catchup {
    /// The channel to catch up on.
    pub channel_id: ChannelId,
    /// How many results to report per notification.
    pub response_batch_size: usize,
    /// Whether read-only mode is enabled, in which the backlog is gathered but nothing is requested.
    pub dry_run: bool,
    /// The results that are yet to be reported.
    pub batch: Vec<(UserId, Response)>,
}

impl Catchup {
    /// Starts to catch up on a channel, with nothing to report.
    pub fn new(channel_id: ChannelId, response_batch_size: usize, dry_run: bool) -> (catchup: Self)
        ensures
            catchup.channel_id == channel_id,
            catchup.response_batch_size == response_batch_size,
            catchup.dry_run == dry_run,
            catchup.batch@ == Seq::<(UserId, Response)>::empty(),
    {
        Catchup { channel_id, response_batch_size, dry_run, batch: Vec::new() }
    }

    /// Takes the next request to make out of the backlog. In read-only mode there is none.
    pub fn next_request<T>(&self, backlog: &mut Backlog<T>) -> (request: Option<(UserId, T)>)
        ensures
            final(backlog)@.users == old(backlog)@.users,
            if self.dry_run || old(backlog)@.stack.len() == 0 {
                &&& request is None
                &&& final(backlog)@.stack == old(backlog)@.stack
            } else {
                &&& request == Some(old(backlog)@.stack.last())
                &&& final(backlog)@.stack == old(backlog)@.stack.drop_last()
            },
    {
        if self.dry_run {
            None
        } else {
            backlog.next()
        }
    }

    /// Takes note of a result. Returns the notification to send, if there are enough results.
    pub fn record(&mut self, user: UserId, response: Response) -> (text: Option<String>)
        ensures
            final(self).channel_id == old(self).channel_id,
            final(self).response_batch_size == old(self).response_batch_size,
            final(self).dry_run == old(self).dry_run,
            final(self).batch@ == waiting_after(
                old(self).batch@,
                (user, response),
                old(self).response_batch_size as nat,
            ),
            match text {
                Some(text) => {
                    &&& old(self).batch@.len() + 1 >= old(self).response_batch_size
                    &&& text@ == notification_text(old(self).batch@.push((user, response)))
                },
                None => old(self).batch@.len() + 1 < old(self).response_batch_size,
            },
    {
        self.batch.push((user, response));
        if self.batch.len() >= self.response_batch_size {
            let text = notification(&mut self.batch);
            assert(self.batch@ =~= Seq::empty());
            Some(text)
        } else {
            None
        }
    }

    /// Returns the notification about the results that are left, if there are any.
    pub fn finish(&mut self) -> (text: Option<String>)
        ensures
            final(self).channel_id == old(self).channel_id,
            final(self).response_batch_size == old(self).response_batch_size,
            final(self).dry_run == old(self).dry_run,
            final(self).batch@.len() == 0,
            match text {
                Some(text) => old(self).batch@.len() > 0 && text@ == notification_text(
                    old(self).batch@,
                ),
                None => old(self).batch@.len() == 0,
            },
    {
        if self.batch.is_empty() {
            None
        } else {
            Some(notification(&mut self.batch))
        }
    }
}

/// The results that are yet to be reported after one more, if `size` are reported at a time.
pub open spec fn waiting_after<T>(waiting: Seq<T>, result: T, size: nat) -> Seq<T> {
    if waiting.len() + 1 >= size {
        Seq::empty()
    } else {
        waiting.push(result)
    }
}

/// The results that are yet to be reported after some results.
pub open spec fn waiting<T>(results: Seq<T>, size: nat) -> Seq<T>
    decreases results.len(),
{
    if results.len() == 0 {
        Seq::empty()
    } else {
        waiting_after(waiting(results.drop_last(), size), results.last(), size)
    }
}

/// The batches of results that were reported after some results, one notification each.
pub open spec fn reported<T>(results: Seq<T>, size: nat) -> Seq<Seq<T>>
    decreases results.len(),
{
    if results.len() == 0 {
        Seq::empty()
    } else {
        let before = reported(results.drop_last(), size);
        let batch = waiting(results.drop_last(), size).push(results.last());
        if batch.len() >= size {
            before.push(batch)
        } else {
            before
        }
    }
}

/// Every result is reported in one notification, in the order in which the results came: the
/// batches that were reported, followed by what is left for the last notification, are just the
/// results. Every notification but the last is about just as many results as the batch size says, or
/// about one if it says none, and the last is about fewer.
pub proof fn law_every_result_is_reported_once<T>(results: Seq<T>, size: nat)
    ensures
        reported(results, size).flatten() + waiting(results, size) == results,
        waiting(results, size).len() < if size == 0 { 1 } else { size },
        forall|i: int|
            0 <= i < reported(results, size).len() ==> (#[trigger] reported(
                results,
                size,
            )[i]).len() == if size == 0 { 1 } else { size },
    decreases results.len(),
{
    if results.len() == 0 {
        reported(results, size).lemma_flatten_push(Seq::empty());
        assert(reported(results, size).flatten() + waiting(results, size) =~= results);
    } else {
        let earlier = results.drop_last();
        law_every_result_is_reported_once(earlier, size);
        let before = reported(earlier, size);
        let batch = waiting(earlier, size).push(results.last());
        before.lemma_flatten_push(batch);
        assert(earlier.push(results.last()) =~= results);
        assert(reported(results, size).flatten() + waiting(results, size) =~= results);
    }
}

/// What there is to catch up on: at most one request per user.
#[derive(Debug)]
pub struct Backlog<T> {
    users: HashSet<u64>,
    stack: Vec<(UserId, T)>,
}

/// The users who were seen, and the requests that are to be made, the next one last.
pub ghost struct BacklogView<T> {
    pub users: Set<u64>,
    pub stack: Seq<(UserId, T)>,
}

impl<T> View for Backlog<T> {
    type V = BacklogView<T>;

    closed spec fn view(&self) -> BacklogView<T> {
        BacklogView { users: self.users@, stack: self.stack@ }
    }
}

/// A backlog after one more request of a user. Only the first request of a user counts.
pub open spec fn observed<T>(backlog: BacklogView<T>, user: UserId, request: T) -> BacklogView<T> {
    if backlog.users.contains(user.0) {
        backlog
    } else {
        BacklogView {
            users: backlog.users.insert(user.0),
            stack: backlog.stack.push((user, request)),
        }
    }
}

impl<T> Backlog<T> {
    /// Makes a backlog without requests.
    pub fn new() -> (backlog: Self)
        ensures
            backlog@ == (BacklogView::<T> { users: Set::empty(), stack: Seq::empty() }),
    {
        broadcast use vstd::std_specs::hash::group_hash_axioms;

        Backlog { users: HashSet::new(), stack: Vec::new() }
    }

    /// Adds the request of a user, unless there was one already. Returns whether it was added.
    pub fn observe(&mut self, user: UserId, request: T) -> (added: bool)
        ensures
            final(self)@ == observed(old(self)@, user, request),
            added == !old(self)@.users.contains(user.0),
    {
        broadcast use vstd::std_specs::hash::group_hash_axioms;

        if self.users.contains(&user.0) {
            false
        } else {
            self.users.insert(user.0);
            self.stack.push((user, request));
            true
        }
    }

    /// Takes out the request that was added last.
    pub fn next(&mut self) -> (request: Option<(UserId, T)>)
        ensures
            final(self)@.users == old(self)@.users,
            match request {
                Some(request) => old(self)@.stack.len() > 0 && request == old(self)@.stack.last()
                    && final(self)@.stack == old(self)@.stack.drop_last(),
                None => old(self)@.stack.len() == 0 && final(self)@.stack == old(self)@.stack,
            },
    {
        self.stack.pop()
    }
}

/// The backlog that some requests lead to.
pub open spec fn backlog_of<T>(requests: Seq<(UserId, T)>) -> BacklogView<T>
    decreases requests.len(),
{
    if requests.len() == 0 {
        BacklogView { users: Set::empty(), stack: Seq::empty() }
    } else {
        observed(
            backlog_of(requests.drop_last()),
            requests.last().0,
            requests.last().1,
        )
    }
}

/// Whether the request at an index is the first of its user.
pub open spec fn first_of_user<T>(requests: Seq<(UserId, T)>, i: int) -> bool {
    &&& 0 <= i < requests.len()
    &&& forall|j: int| 0 <= j < i ==> (#[trigger] requests[j]).0 != requests[i].0
}

/// Whether something is the first request of its user.
pub open spec fn is_first_request<T>(requests: Seq<(UserId, T)>, request: (UserId, T)) -> bool {
    exists|i: int| #[trigger] first_of_user(requests, i) && requests[i] == request
}

/// Whether a user has made a request.
pub open spec fn has_requested<T>(requests: Seq<(UserId, T)>, id: u64) -> bool {
    exists|i: int| 0 <= i < requests.len() && (#[trigger] requests[i]).0.0 == id
}

/// Every user is caught up on once, whatever the number of requests: nobody has two requests in the
/// backlog, everybody who made some has the first of them there, and there is nothing else.
pub proof fn law_every_user_is_caught_up_once<T>(requests: Seq<(UserId, T)>)
    ensures
        forall|a: int, b: int|
            0 <= a < b < backlog_of(requests).stack.len() ==> (#[trigger] backlog_of(
                requests,
            ).stack[a]).0 != (#[trigger] backlog_of(requests).stack[b]).0,
        forall|request: (UserId, T)|
            backlog_of(requests).stack.contains(request) <==> #[trigger] is_first_request(
                requests,
                request,
            ),
{
    lemma_backlog_distinct(requests);
    let stack = backlog_of(requests).stack;
    assert forall|request: (UserId, T)| stack.contains(request) implies #[trigger] is_first_request(
        requests,
        request,
    ) by {
        let a = choose|a: int| 0 <= a < stack.len() && stack[a] == request;
        lemma_backlog_holds_first(requests, a);
    }
    assert forall|request: (UserId, T)| #[trigger]
        is_first_request(requests, request) implies stack.contains(request) by {
        let i = choose|i: int| #[trigger] first_of_user(requests, i) && requests[i] == request;
        lemma_first_in_backlog(requests, i);
    }
}

proof fn lemma_backlog_users<T>(requests: Seq<(UserId, T)>, id: u64)
    ensures
        backlog_of(requests).users.contains(id) <==> has_requested(requests, id),
    decreases requests.len(),
{
    if requests.len() > 0 {
        let earlier = requests.drop_last();
        lemma_backlog_users(earlier, id);
        if has_requested(earlier, id) {
            let i = choose|i: int| 0 <= i < earlier.len() && (#[trigger] earlier[i]).0.0 == id;
            assert(requests[i].0.0 == id);
        }
        if requests.last().0.0 == id {
            assert(requests[requests.len() - 1].0.0 == id);
        }
        if has_requested(requests, id) && requests.last().0.0 != id {
            let i = choose|i: int| 0 <= i < requests.len() && (#[trigger] requests[i]).0.0 == id;
            assert(earlier[i].0.0 == id);
        }
    }
}

proof fn lemma_backlog_holds_first<T>(requests: Seq<(UserId, T)>, a: int)
    requires
        0 <= a < backlog_of(requests).stack.len(),
    ensures
        is_first_request(requests, backlog_of(requests).stack[a]),
    decreases requests.len(),
{
    let earlier = requests.drop_last();
    let before = backlog_of(earlier);
    let n = requests.len() - 1;
    if a < before.stack.len() {
        lemma_backlog_holds_first(earlier, a);
        let i = choose|i: int| #[trigger]
            first_of_user(earlier, i) && earlier[i] == before.stack[a];
        assert forall|j: int| 0 <= j < i implies (#[trigger] requests[j]).0 != requests[i].0 by {
            assert(requests[j] == earlier[j]);
        }
        assert(first_of_user(requests, i));
    } else {
        lemma_backlog_users(earlier, requests[n].0.0);
        assert forall|j: int| 0 <= j < n implies (#[trigger] requests[j]).0 != requests[n].0 by {
            assert(requests[j] == earlier[j]);
        }
        assert(first_of_user(requests, n));
    }
}

proof fn lemma_first_in_backlog<T>(requests: Seq<(UserId, T)>, i: int)
    requires
        first_of_user(requests, i),
    ensures
        backlog_of(requests).stack.contains(requests[i]),
    decreases requests.len(),
{
    let earlier = requests.drop_last();
    let before = backlog_of(earlier);
    let after = backlog_of(requests);
    if i < earlier.len() {
        assert forall|j: int| 0 <= j < i implies (#[trigger] earlier[j]).0 != earlier[i].0 by {
            assert(requests[j] == earlier[j]);
        }
        lemma_first_in_backlog(earlier, i);
        let a = choose|a: int| 0 <= a < before.stack.len() && before.stack[a] == earlier[i];
        assert(after.stack[a] == requests[i]);
    } else {
        lemma_backlog_users(earlier, requests[i].0.0);
        if has_requested(earlier, requests[i].0.0) {
            let j = choose|j: int|
                0 <= j < earlier.len() && (#[trigger] earlier[j]).0.0 == requests[i].0.0;
            assert(requests[j].0 == requests[i].0);
        }
        assert(after.stack[before.stack.len() as int] == requests[i]);
    }
}

proof fn lemma_backlog_distinct<T>(requests: Seq<(UserId, T)>)
    ensures
        forall|a: int, b: int|
            0 <= a < b < backlog_of(requests).stack.len() ==> (#[trigger] backlog_of(
                requests,
            ).stack[a]).0 != (#[trigger] backlog_of(requests).stack[b]).0,
    decreases requests.len(),
{
    if requests.len() > 0 {
        let earlier = requests.drop_last();
        lemma_backlog_distinct(earlier);
        let before = backlog_of(earlier).stack;
        let after = backlog_of(requests).stack;
        assert forall|a: int, b: int| 0 <= a < b < after.len() implies (#[trigger] after[a]).0 != (
        #[trigger] after[b]).0 by {
            assert(after[a] == before[a]);
            if b < before.len() {
                assert(after[b] == before[b]);
            } else {
                lemma_backlog_users(earlier, after[b].0.0);
                lemma_backlog_holds_first(earlier, a);
                let i = choose|i: int| #[trigger]
                    first_of_user(earlier, i) && earlier[i] == before[a];
                assert(earlier[i].0 == after[a].0);
            }
        }
    }
}

/// A notification mentions the users among the results who were given tokens, each with a space
/// behind, in the order of the results, and nobody else: a user is left out if something went wrong
/// and nothing succeeded.
pub proof fn law_notifications_mention_who_was_given_tokens(results: Seq<(UserId, Response)>)
    ensures
        notification_text(results) == "Catching up on backlog: "@ + results.filter(
            |result: (UserId, Response)|
                result.1.succeeded@.len() > 0 || (result.1.failed@.len() == 0
                    && result.1.unparsed@.len() == 0 && result.1.remaining@.len() == 0),
        ).map_values(
            |result: (UserId, Response)| "<@"@ + decimal_text(result.0.0 as nat) + ">"@ + " "@,
        ).flatten() + "should all have tokens now!"@,
{
    lemma_mentions(results);
}

proof fn lemma_mentions(results: Seq<(UserId, Response)>)
    ensures
        mentions(results) == results.filter(
            |result: (UserId, Response)|
                result.1.succeeded@.len() > 0 || (result.1.failed@.len() == 0
                    && result.1.unparsed@.len() == 0 && result.1.remaining@.len() == 0),
        ).map_values(
            |result: (UserId, Response)| "<@"@ + decimal_text(result.0.0 as nat) + ">"@ + " "@,
        ).flatten(),
    decreases results.len(),
{
    reveal(Seq::filter);
    let given = |result: (UserId, Response)|
        result.1.succeeded@.len() > 0 || (result.1.failed@.len() == 0 && result.1.unparsed@.len()
            == 0 && result.1.remaining@.len() == 0);
    let mention = |result: (UserId, Response)|
        "<@"@ + decimal_text(result.0.0 as nat) + ">"@ + " "@;
    if results.len() > 0 {
        let (before, last) = (results.drop_last(), results.last());
        lemma_mentions(before);
        let chosen = before.filter(given).map_values(mention);
        assert(before.filter(given).push(last).map_values(mention) =~= chosen.push(mention(last)));
        chosen.lemma_flatten_push(mention(last));
        if given(last) {
            assert(mentions(results) =~= mentions(before) + mention(last));
        }
    } else {
        let chosen = results.filter(given).map_values(mention);
        assert(chosen =~= Seq::empty());
        assert(chosen.flatten() =~= Seq::empty());
    }
}

/// Every user who was given tokens is mentioned in the notification.
pub proof fn law_everyone_given_tokens_is_mentioned(results: Seq<(UserId, Response)>, i: int)
    requires
        0 <= i < results.len(),
        results[i].1.succeeded@.len() > 0,
    ensures
        occurs(
            "<@"@ + decimal_text(results[i].0.0 as nat) + ">"@,
            notification_text(results),
        ),
{
    let (head, tail) = ("Catching up on backlog: "@, "should all have tokens now!"@);
    lemma_mentioned(results, i);
    lemma_occurs_within(head, mentions(results), tail);
    lemma_occurs_through(
        user_mention(results[i].0),
        mentions(results),
        notification_text(results),
    );
}

proof fn lemma_mentioned(results: Seq<(UserId, Response)>, i: int)
    requires
        0 <= i < results.len(),
        results[i].1.succeeded@.len() > 0,
    ensures
        occurs(user_mention(results[i].0), mentions(results)),
    decreases results.len(),
{
    let before = mentions(results.drop_last());
    let mention = user_mention(results[i].0);
    let none = Seq::<char>::empty();
    if i == results.len() - 1 {
        lemma_occurs_within(before, mention, " "@);
    } else {
        lemma_mentioned(results.drop_last(), i);
        let rest = if results.last().1.is_complete_failure() {
            none
        } else {
            user_mention(results.last().0) + " "@
        };
        lemma_occurs_within(none, before, rest);
        assert(none + before + rest =~= mentions(results));
        lemma_occurs_through(mention, before, mentions(results));
    }
}

/// A result waits for its notification just until the batch is full: before, it is added behind those
/// that wait, and then none is left waiting.
pub proof fn law_results_wait_until_the_batch_is_full<T>(waiting: Seq<T>, result: T, size: nat)
    ensures
        waiting.len() + 1 < size ==> waiting_after(waiting, result, size) == waiting + seq![result],
        waiting.len() + 1 >= size ==> waiting_after(waiting, result, size).len() == 0,
{
    if waiting.len() + 1 < size {
        assert(waiting_after(waiting, result, size) =~= waiting + seq![result]);
    }
}

/// Recording a result carries on what the earlier results left: it waits with the others, or is
/// reported with them.
pub proof fn law_results_are_recorded(
    results: Seq<(UserId, Response)>,
    catchup: &mut Catchup,
    user: UserId,
    response: Response,
    text: Option<String>,
)
    requires
        old(catchup).batch@ == waiting(results, old(catchup).response_batch_size as nat),
        call_ensures(Catchup::record, (catchup, user, response), text),
    ensures
        ({
            let size = old(catchup).response_batch_size as nat;
            let after = results.push((user, response));
            &&& final(catchup).batch@ == waiting(after, size)
            &&& text is None ==> reported(after, size) == reported(results, size)
            &&& text is Some ==> reported(after, size) == reported(results, size).push(
                waiting(results, size).push((user, response)),
            ) && text->0@ == notification_text(waiting(results, size).push((user, response)))
        }),
        final(catchup).channel_id == old(catchup).channel_id,
        final(catchup).response_batch_size == old(catchup).response_batch_size,
        final(catchup).dry_run == old(catchup).dry_run,
{
    let after = results.push((user, response));
    assert(after.drop_last() =~= results);
    assert(after.last() == (user, response));
}

/// Nothing is left to report in the end, and what was left is reported.
pub proof fn law_nothing_is_left_to_report(catchup: &mut Catchup, text: Option<String>)
    requires
        call_ensures(Catchup::finish, (catchup,), text),
    ensures
        final(catchup).batch@.len() == 0,
        text is Some <==> old(catchup).batch@.len() > 0,
        text is Some ==> text->0@ == notification_text(old(catchup).batch@),
{
}

/// Observing a request carries on the backlog of the earlier ones.
pub proof fn law_requests_are_observed<T>(
    requests: Seq<(UserId, T)>,
    backlog: &mut Backlog<T>,
    user: UserId,
    request: T,
    added: bool,
)
    requires
        old(backlog)@ == backlog_of(requests),
        call_ensures(Backlog::<T>::observe, (backlog, user, request), added),
    ensures
        final(backlog)@ == backlog_of(requests.push((user, request))),
        added <==> !has_requested(requests, user.0),
        added ==> final(backlog)@.stack == old(backlog)@.stack.push((user, request)),
        !added ==> final(backlog)@.stack == old(backlog)@.stack,
{
    let after = requests.push((user, request));
    assert(after.drop_last() =~= requests);
    assert(after.last() == (user, request));
    lemma_backlog_users(requests, user.0);
}

/// A backlog is worked off from its end, one request at a time, and in a dry run not at all.
pub proof fn law_backlog_is_worked_off_from_the_end<T>(
    catchup: Catchup,
    backlog: &mut Backlog<T>,
    request: Option<(UserId, T)>,
)
    requires
        call_ensures(Catchup::next_request::<T>, (&catchup, backlog), request),
    ensures
        request is Some <==> !catchup.dry_run && old(backlog)@.stack.len() > 0,
        request matches Some(taken) ==> old(backlog)@.stack == final(backlog)@.stack.push(taken),
        request is None ==> final(backlog)@.stack == old(backlog)@.stack,
{
    if request is Some {
        let stack = old(backlog)@.stack;
        assert(stack =~= stack.drop_last().push(stack.last()));
    }
}

} // verus!
