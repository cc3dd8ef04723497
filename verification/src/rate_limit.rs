//! What the rate limit guarantees over any course of messages and failures.

use vstd::prelude::*;

use crate::address::among;
use crate::address::same_piece;
use crate::address::AddressOrAlmost;
use crate::handler::admitted;
use crate::handler::history_after;
use crate::handler::in_order;
use crate::handler::lemma_pruned_in_order;
use crate::handler::notice_due;
use crate::handler::refused;
use crate::handler::HandlerView;
use crate::handler::Incoming;
use crate::ids::UserId;
use crate::send_history::address_entries;
use crate::send_history::expired;
use crate::send_history::first_index;
use crate::send_history::is_listed;
use crate::send_history::is_user;
use crate::send_history::lemma_first_index;
use crate::send_history::lemma_first_index_is;
use crate::send_history::lemma_unexpired;
use crate::send_history::recount_first;
use crate::send_history::set_to_zero;
use crate::send_history::unexpired;
use crate::send_history::Entry;
use crate::send_history::HistoryView;
use crate::time::elapsed_nanos;
use crate::time::Moment;

verus! {

/// Something that changes the history.
pub enum Event {
    /// A message of a user, in which these addresses were found, is processed.
    Message { user: UserId, addresses: Seq<AddressOrAlmost>, now: Moment },
    /// A request of a user for these addresses has failed.
    Failure { user: UserId, addresses: Seq<AddressOrAlmost> },
}

/// The history after an event.
pub open spec fn apply(history: HistoryView, rate_limit: nat, event: Event) -> HistoryView {
    match event {
        Event::Message { user, addresses, now } => history_after(
            history,
            rate_limit,
            user,
            addresses,
            now,
        ),
        Event::Failure { user, addresses } => history.failed(user, addresses),
    }
}

/// The history after a course of events.
pub open spec fn run(history: HistoryView, rate_limit: nat, events: Seq<Event>) -> HistoryView
    decreases events.len(),
{
    if events.len() == 0 {
        history
    } else {
        apply(run(history, rate_limit, events.drop_last()), rate_limit, events.last())
    }
}

/// Whether the counts can take an event.
pub open spec fn countable(history: HistoryView, rate_limit: nat, event: Event) -> bool {
    match event {
        Event::Message { user, addresses, now } => addresses.len() > 0 ==> history.pruned(
            now,
            rate_limit,
        ).countable(user, addresses),
        Event::Failure { .. } => true,
    }
}

/// Whether the counts can take each of a course of events.
pub open spec fn countable_run(history: HistoryView, rate_limit: nat, events: Seq<Event>) -> bool
    decreases events.len(),
{
    events.len() > 0 ==> {
        &&& countable_run(history, rate_limit, events.drop_last())
        &&& countable(run(history, rate_limit, events.drop_last()), rate_limit, events.last())
    }
}

/// Whether an event comes before a rate limit that began at `start` has passed, and is no failure
/// of the given user's.
pub open spec fn leaves_user(event: Event, user: UserId, start: Moment, rate_limit: nat) -> bool {
    match event {
        Event::Message { now, .. } => elapsed_nanos(start, now) < rate_limit,
        Event::Failure { user: other, .. } => other != user,
    }
}

/// Whether an event comes before a rate limit that began at `start` has passed, and is no failure
/// of a request for the given address.
pub open spec fn leaves_address(
    event: Event,
    piece: AddressOrAlmost,
    start: Moment,
    rate_limit: nat,
) -> bool {
    match event {
        Event::Message { now, .. } => elapsed_nanos(start, now) < rate_limit,
        Event::Failure { addresses, .. } => !among(piece, addresses),
    }
}

/// Whether a user has an entry from `start`, and all entries of the user hold requests back.
pub open spec fn holds_user(history: HistoryView, user: UserId, start: Moment) -> bool {
    &&& exists|i: int|
        0 <= i < history.users.len() && (#[trigger] history.users[i]).key == user
            && history.users[i].last_fulfilled == start
    &&& forall|i: int|
        0 <= i < history.users.len() && (#[trigger] history.users[i]).key == user
            ==> history.users[i].notified > 0
}

/// Whether an address has an entry from `start`, and all entries of it hold requests back.
pub open spec fn holds_address(
    history: HistoryView,
    piece: AddressOrAlmost,
    start: Moment,
) -> bool {
    &&& exists|i: int|
        0 <= i < history.addresses.len() && same_piece(
            (#[trigger] history.addresses[i]).key,
            piece,
        ) && history.addresses[i].last_fulfilled == start
    &&& forall|i: int|
        0 <= i < history.addresses.len() && same_piece(
            (#[trigger] history.addresses[i]).key,
            piece,
        ) ==> history.addresses[i].notified > 0
}

/// Only the first entry of a user can have been counted down to zero.
pub open spec fn repeats_count(history: HistoryView) -> bool {
    forall|i: int, j: int|
        0 <= i < j < history.users.len() && (#[trigger] history.users[i]).key == (
        #[trigger] history.users[j]).key ==> history.users[j].notified > 0
}

/// Whether a user has one entry, from `start`, with the given count.
pub open spec fn only_entry(history: HistoryView, user: UserId, start: Moment, count: int) -> bool {
    exists|i: int|
        {
            &&& 0 <= i < history.users.len()
            &&& (#[trigger] history.users[i]).key == user
            &&& history.users[i].last_fulfilled == start
            &&& history.users[i].notified == count
            &&& forall|j: int|
                0 <= j < history.users.len() && (#[trigger] history.users[j]).key == user ==> j == i
        }
}

/// Whether a message makes the bot tell its author of the rate limit.
pub open spec fn gives_notice(
    history: HistoryView,
    rate_limit: nat,
    reply_limit: usize,
    event: Event,
) -> bool {
    match event {
        Event::Message { user, addresses, now } => addresses.len() > 0 && (match history.pruned(
            now,
            rate_limit,
        ).limit(user, addresses) {
            Some((_, notified)) => notice_due(notified, reply_limit),
            None => false,
        }),
        Event::Failure { .. } => false,
    }
}

/// How often a user is told of the rate limit over a course of events.
pub open spec fn notices(
    history: HistoryView,
    rate_limit: nat,
    reply_limit: usize,
    user: UserId,
    events: Seq<Event>,
) -> nat
    decreases events.len(),
{
    if events.len() == 0 {
        0
    } else {
        let before = notices(history, rate_limit, reply_limit, user, events.drop_last());
        let state = run(history, rate_limit, events.drop_last());
        match events.last() {
            Event::Message { user: author, .. } => if author == user && gives_notice(
                state,
                rate_limit,
                reply_limit,
                events.last(),
            ) {
                before + 1
            } else {
                before
            },
            Event::Failure { .. } => before,
        }
    }
}

/// How many messages with addresses a user posts over a course of events.
pub open spec fn asks(user: UserId, events: Seq<Event>) -> nat
    decreases events.len(),
{
    if events.len() == 0 {
        0
    } else {
        let before = asks(user, events.drop_last());
        match events.last() {
            Event::Message { user: author, addresses, .. } => if author == user && addresses.len()
                > 0 {
                before + 1
            } else {
                before
            },
            Event::Failure { .. } => before,
        }
    }
}

/// Pruning a history that stands in order forgets the requests that have outlived the rate limit,
/// and no others.
pub proof fn law_pruning_forgets_what_expired<K>(
    entries: Seq<Entry<K>>,
    now: Moment,
    rate_limit: nat,
)
    requires
        in_order(entries, now),
    ensures
        unexpired(entries, now, rate_limit) == entries.filter(
            |entry: Entry<K>| !expired(entry, now, rate_limit),
        ),
{
    let keep = |entry: Entry<K>| !expired(entry, now, rate_limit);
    let removed = lemma_unexpired(entries, now, rate_limit);
    lemma_pruned_in_order(entries, now, rate_limit);
    let front = entries.take(removed);
    let back = entries.skip(removed);
    assert(entries =~= front + back);
    Seq::filter_distributes_over_add(front, back, keep);
    lemma_filter_none(front, keep);
    assert forall|i: int| 0 <= i < back.len() implies keep(#[trigger] back[i]) by {
        assert(back[i] == unexpired(entries, now, rate_limit)[i]);
    }
    lemma_filter_all(back, keep);
    assert(entries.filter(keep) =~= back);
}

proof fn lemma_filter_none<A>(s: Seq<A>, keep: spec_fn(A) -> bool)
    requires
        forall|i: int| 0 <= i < s.len() ==> !keep(#[trigger] s[i]),
    ensures
        s.filter(keep) == Seq::<A>::empty(),
    decreases s.len(),
{
    reveal(Seq::filter);
    if s.len() > 0 {
        lemma_filter_none(s.drop_last(), keep);
    }
}

proof fn lemma_filter_all<A>(s: Seq<A>, keep: spec_fn(A) -> bool)
    requires
        forall|i: int| 0 <= i < s.len() ==> keep(#[trigger] s[i]),
    ensures
        s.filter(keep) == s,
    decreases s.len(),
{
    reveal(Seq::filter);
    if s.len() > 0 {
        lemma_filter_all(s.drop_last(), keep);
        assert(s.drop_last().push(s.last()) =~= s);
    }
}

proof fn lemma_holds_user_pruned(
    history: HistoryView,
    user: UserId,
    start: Moment,
    now: Moment,
    rate_limit: nat,
)
    requires
        holds_user(history, user, start),
        elapsed_nanos(start, now) < rate_limit,
    ensures
        holds_user(history.pruned(now, rate_limit), user, start),
{
    let pruned = history.pruned(now, rate_limit);
    let removed = lemma_unexpired(history.users, now, rate_limit);
    let i = choose|i: int|
        0 <= i < history.users.len() && (#[trigger] history.users[i]).key == user
            && history.users[i].last_fulfilled == start;
    if i < removed {
        assert(expired(history.users[i], now, rate_limit));
    }
    assert(pruned.users[i - removed] == history.users[i]);
    assert forall|j: int|
        0 <= j < pruned.users.len() && (#[trigger] pruned.users[j]).key
            == user implies pruned.users[j].notified > 0 by {
        assert(pruned.users[j] == history.users[removed + j]);
    }
}

proof fn lemma_holds_user_refuses(
    history: HistoryView,
    user: UserId,
    start: Moment,
    addresses: Seq<AddressOrAlmost>,
)
    requires
        holds_user(history, user, start),
    ensures
        refused(history, user, addresses),
{
    lemma_first_index(history.users, is_user(user));
    let i = choose|i: int|
        0 <= i < history.users.len() && (#[trigger] history.users[i]).key == user
            && history.users[i].last_fulfilled == start;
    assert(is_user(user)(history.users[i].key));
}

proof fn lemma_holds_user_step(
    history: HistoryView,
    rate_limit: nat,
    event: Event,
    user: UserId,
    start: Moment,
)
    requires
        holds_user(history, user, start),
        countable(history, rate_limit, event),
        leaves_user(event, user, start, rate_limit),
    ensures
        holds_user(apply(history, rate_limit, event), user, start),
{
    match event {
        Event::Message { user: author, addresses, now } => {
            let pruned = history.pruned(now, rate_limit);
            lemma_holds_user_pruned(history, user, start, now, rate_limit);
            if addresses.len() > 0 {
                lemma_first_index(pruned.users, is_user(author));
                let counted = pruned.counted(author, addresses);
                let i = choose|i: int|
                    0 <= i < pruned.users.len() && (#[trigger] pruned.users[i]).key == user
                        && pruned.users[i].last_fulfilled == start;
                assert(counted.users[i].key == user && counted.users[i].last_fulfilled == start);
                assert forall|j: int|
                    0 <= j < counted.users.len() && (#[trigger] counted.users[j]).key
                        == user implies counted.users[j].notified > 0 by {
                    assert(pruned.users[j].key == user);
                }
                assert(holds_user(counted, user, start));
                let after = apply(history, rate_limit, event);
                assert(after.users[i] == counted.users[i]);
                assert forall|j: int|
                    0 <= j < after.users.len() && (#[trigger] after.users[j]).key
                        == user implies after.users[j].notified > 0 by {
                    if j < counted.users.len() {
                        assert(counted.users[j].key == user);
                    }
                }
            }
        },
        Event::Failure { user: other, addresses } => {
            lemma_first_index(history.users, is_user(other));
            let after = history.failed(other, addresses);
            let i = choose|i: int|
                0 <= i < history.users.len() && (#[trigger] history.users[i]).key == user
                    && history.users[i].last_fulfilled == start;
            assert(after.users[i] == history.users[i]);
            assert forall|j: int|
                0 <= j < after.users.len() && (#[trigger] after.users[j]).key
                    == user implies after.users[j].notified > 0 by {
                assert(history.users[j].key == user);
            }
        },
    }
}

proof fn lemma_holds_user_run(
    history: HistoryView,
    rate_limit: nat,
    events: Seq<Event>,
    user: UserId,
    start: Moment,
)
    requires
        holds_user(history, user, start),
        countable_run(history, rate_limit, events),
        forall|i: int|
            0 <= i < events.len() ==> leaves_user(#[trigger] events[i], user, start, rate_limit),
    ensures
        holds_user(run(history, rate_limit, events), user, start),
    decreases events.len(),
{
    if events.len() > 0 {
        let before = events.drop_last();
        assert forall|i: int| 0 <= i < before.len() implies leaves_user(
            #[trigger] before[i],
            user,
            start,
            rate_limit,
        ) by {
            assert(before[i] == events[i]);
        }
        lemma_holds_user_run(history, rate_limit, before, user, start);
        assert(leaves_user(events[events.len() - 1], user, start, rate_limit));
        lemma_holds_user_step(
            run(history, rate_limit, before),
            rate_limit,
            events.last(),
            user,
            start,
        );
    }
}

proof fn lemma_run_concat(
    history: HistoryView,
    rate_limit: nat,
    before: Seq<Event>,
    after: Seq<Event>,
)
    ensures
        run(history, rate_limit, before + after) == run(
            run(history, rate_limit, before),
            rate_limit,
            after,
        ),
        countable_run(history, rate_limit, before + after) ==> countable_run(
            history,
            rate_limit,
            before,
        ) && countable_run(run(history, rate_limit, before), rate_limit, after),
    decreases after.len(),
{
    if after.len() == 0 {
        assert(before + after =~= before);
    } else {
        lemma_run_concat(history, rate_limit, before, after.drop_last());
        assert((before + after).drop_last() =~= before + after.drop_last());
    }
}

proof fn lemma_repeats_count_step(history: HistoryView, rate_limit: nat, event: Event)
    requires
        repeats_count(history),
        countable(history, rate_limit, event),
    ensures
        repeats_count(apply(history, rate_limit, event)),
{
    let after = apply(history, rate_limit, event);
    match event {
        Event::Message { user, addresses, now } => {
            let pruned = history.pruned(now, rate_limit);
            let removed = lemma_unexpired(history.users, now, rate_limit);
            assert forall|i: int, j: int|
                0 <= i < j < pruned.users.len() && (#[trigger] pruned.users[i]).key == (
                #[trigger] pruned.users[j]).key implies pruned.users[j].notified > 0 by {
                assert(pruned.users[i] == history.users[removed + i]);
                assert(pruned.users[j] == history.users[removed + j]);
            }
            lemma_first_index(pruned.users, is_user(user));
            assert forall|i: int, j: int|
                0 <= i < j < after.users.len() && (#[trigger] after.users[i]).key == (
                #[trigger] after.users[j]).key implies after.users[j].notified > 0 by {
                if j < pruned.users.len() {
                    assert(pruned.users[i].key == pruned.users[j].key);
                }
            }
        },
        Event::Failure { user, addresses } => {
            lemma_first_index(history.users, is_user(user));
            assert forall|i: int, j: int|
                0 <= i < j < after.users.len() && (#[trigger] after.users[i]).key == (
                #[trigger] after.users[j]).key implies after.users[j].notified > 0 by {
                assert(history.users[i].key == history.users[j].key);
                assert(!(is_user(user)(history.users[i].key) && first_index(
                    history.users,
                    is_user(user),
                ) == Some(j)));
            }
        },
    }
}

proof fn lemma_repeats_count_run(history: HistoryView, rate_limit: nat, events: Seq<Event>)
    requires
        repeats_count(history),
        countable_run(history, rate_limit, events),
    ensures
        repeats_count(run(history, rate_limit, events)),
    decreases events.len(),
{
    if events.len() > 0 {
        lemma_repeats_count_run(history, rate_limit, events.drop_last());
        lemma_repeats_count_step(
            run(history, rate_limit, events.drop_last()),
            rate_limit,
            events.last(),
        );
    }
}

/// A user whose message is answered has an entry from then, and all entries of the user hold
/// requests back.
proof fn lemma_answered_is_held(
    history: HistoryView,
    rate_limit: nat,
    user: UserId,
    addresses: Seq<AddressOrAlmost>,
    now: Moment,
)
    requires
        repeats_count(history),
        addresses.len() > 0,
        countable(history, rate_limit, Event::Message { user, addresses, now }),
        !refused(history.pruned(now, rate_limit), user, addresses),
    ensures
        holds_user(history_after(history, rate_limit, user, addresses, now), user, now),
{
    let event = Event::Message { user, addresses, now };
    let pruned = history.pruned(now, rate_limit);
    let after = history_after(history, rate_limit, user, addresses, now);
    lemma_repeats_count_step(history, rate_limit, event);
    lemma_first_index(pruned.users, is_user(user));
    let last = after.users.len() - 1;
    assert(after.users[last].key == user && after.users[last].last_fulfilled == now);
    assert forall|j: int|
        0 <= j < after.users.len() && (#[trigger] after.users[j]).key
            == user implies after.users[j].notified > 0 by {
        if j < pruned.users.len() {
            assert(is_user(user)(pruned.users[j].key));
            let first = first_index(pruned.users, is_user(user))->0;
            if first < j {
                assert(after.users[first].key == after.users[j].key);
            }
        }
    }
}

/// A user whose request was answered is refused from then on until the rate limit has passed,
/// whatever messages and failures of others come in between. Only a failure of one of the user's
/// own requests ends this earlier.
pub proof fn law_minimum_time_between_answers(
    rate_limit: nat,
    before: Seq<Event>,
    user: UserId,
    addresses: Seq<AddressOrAlmost>,
    start: Moment,
    between: Seq<Event>,
    again: Seq<AddressOrAlmost>,
    now: Moment,
)
    requires
        ({
            let answered = Event::Message { user, addresses, now: start };
            let events = before.push(answered) + between;
            let state = run(HistoryView::empty(), rate_limit, before);
            &&& countable_run(HistoryView::empty(), rate_limit, events)
            &&& addresses.len() > 0
            &&& !refused(state.pruned(start, rate_limit), user, addresses)
        }),
        forall|i: int|
            0 <= i < between.len() ==> leaves_user(#[trigger] between[i], user, start, rate_limit),
        elapsed_nanos(start, now) < rate_limit,
    ensures
        ({
            let answered = Event::Message { user, addresses, now: start };
            let events = before.push(answered) + between;
            let state = run(HistoryView::empty(), rate_limit, events);
            refused(state.pruned(now, rate_limit), user, again)
        }),
{
    let empty = HistoryView::empty();
    let answered = Event::Message { user, addresses, now: start };
    let events = before.push(answered) + between;
    lemma_run_concat(empty, rate_limit, before.push(answered), between);
    assert(before.push(answered).drop_last() =~= before);
    let state = run(empty, rate_limit, before);
    lemma_repeats_count_run(empty, rate_limit, before);
    lemma_answered_is_held(state, rate_limit, user, addresses, start);
    let after = run(empty, rate_limit, before.push(answered));
    lemma_holds_user_run(after, rate_limit, between, user, start);
    lemma_holds_user_pruned(run(after, rate_limit, between), user, start, now, rate_limit);
    lemma_holds_user_refuses(
        run(after, rate_limit, between).pruned(now, rate_limit),
        user,
        start,
        again,
    );
}

proof fn lemma_same_piece_transitive(a: AddressOrAlmost, b: AddressOrAlmost, c: AddressOrAlmost)
    ensures
        same_piece(a, b) == same_piece(b, a),
        same_piece(a, b) && same_piece(b, c) ==> same_piece(a, c),
{
}

proof fn lemma_holds_address_pruned(
    history: HistoryView,
    piece: AddressOrAlmost,
    start: Moment,
    now: Moment,
    rate_limit: nat,
)
    requires
        holds_address(history, piece, start),
        elapsed_nanos(start, now) < rate_limit,
    ensures
        holds_address(history.pruned(now, rate_limit), piece, start),
{
    let pruned = history.pruned(now, rate_limit);
    let removed = lemma_unexpired(history.addresses, now, rate_limit);
    let i = choose|i: int|
        0 <= i < history.addresses.len() && same_piece(
            (#[trigger] history.addresses[i]).key,
            piece,
        ) && history.addresses[i].last_fulfilled == start;
    if i < removed {
        assert(expired(history.addresses[i], now, rate_limit));
    }
    assert(pruned.addresses[i - removed] == history.addresses[i]);
    assert forall|j: int|
        0 <= j < pruned.addresses.len() && same_piece(
            (#[trigger] pruned.addresses[j]).key,
            piece,
        ) implies pruned.addresses[j].notified > 0 by {
        assert(pruned.addresses[j] == history.addresses[removed + j]);
    }
}

proof fn lemma_holds_address_step(
    history: HistoryView,
    rate_limit: nat,
    event: Event,
    piece: AddressOrAlmost,
    start: Moment,
)
    requires
        holds_address(history, piece, start),
        countable(history, rate_limit, event),
        leaves_address(event, piece, start, rate_limit),
    ensures
        holds_address(apply(history, rate_limit, event), piece, start),
{
    let after = apply(history, rate_limit, event);
    match event {
        Event::Message { user, addresses, now } => {
            let pruned = history.pruned(now, rate_limit);
            lemma_holds_address_pruned(history, piece, start, now, rate_limit);
            if addresses.len() > 0 {
                lemma_first_index(pruned.users, is_user(user));
                lemma_first_index(pruned.addresses, is_listed(addresses));
                let i = choose|i: int|
                    0 <= i < pruned.addresses.len() && same_piece(
                        (#[trigger] pruned.addresses[i]).key,
                        piece,
                    ) && pruned.addresses[i].last_fulfilled == start;
                assert(after.addresses[i].key == pruned.addresses[i].key);
                assert(after.addresses[i].last_fulfilled == start);
                assert forall|j: int|
                    0 <= j < after.addresses.len() && same_piece(
                        (#[trigger] after.addresses[j]).key,
                        piece,
                    ) implies after.addresses[j].notified > 0 by {
                    if j < pruned.addresses.len() {
                        assert(after.addresses[j].key == pruned.addresses[j].key);
                    } else {
                        assert(after.addresses[j] == address_entries(addresses, now)[j
                            - pruned.addresses.len()]);
                    }
                }
            }
        },
        Event::Failure { user, addresses } => {
            lemma_first_index(history.addresses, is_listed(addresses));
            let i = choose|i: int|
                0 <= i < history.addresses.len() && same_piece(
                    (#[trigger] history.addresses[i]).key,
                    piece,
                ) && history.addresses[i].last_fulfilled == start;
            assert(after.addresses[i].key == history.addresses[i].key);
            assert(after.addresses[i].last_fulfilled == start);
            assert forall|j: int|
                0 <= j < after.addresses.len() && same_piece(
                    (#[trigger] after.addresses[j]).key,
                    piece,
                ) implies after.addresses[j].notified > 0 by {
                let key = history.addresses[j].key;
                if first_index(history.addresses, is_listed(addresses)) == Some(j) {
                    let k = choose|k: int|
                        0 <= k < addresses.len() && same_piece(key, #[trigger] addresses[k]);
                    lemma_same_piece_transitive(key, piece, key);
                    lemma_same_piece_transitive(piece, key, addresses[k]);
                    assert(same_piece(piece, addresses[k]));
                }
            }
        },
    }
}

proof fn lemma_holds_address_run(
    history: HistoryView,
    rate_limit: nat,
    events: Seq<Event>,
    piece: AddressOrAlmost,
    start: Moment,
)
    requires
        holds_address(history, piece, start),
        countable_run(history, rate_limit, events),
        forall|i: int|
            0 <= i < events.len() ==> leaves_address(
                #[trigger] events[i],
                piece,
                start,
                rate_limit,
            ),
    ensures
        holds_address(run(history, rate_limit, events), piece, start),
    decreases events.len(),
{
    if events.len() > 0 {
        let before = events.drop_last();
        assert forall|i: int| 0 <= i < before.len() implies leaves_address(
            #[trigger] before[i],
            piece,
            start,
            rate_limit,
        ) by {
            assert(before[i] == events[i]);
        }
        lemma_holds_address_run(history, rate_limit, before, piece, start);
        assert(leaves_address(events[events.len() - 1], piece, start, rate_limit));
        lemma_holds_address_step(
            run(history, rate_limit, before),
            rate_limit,
            events.last(),
            piece,
            start,
        );
    }
}

/// An address that was answered for, and of which no request failed, is refused to every user who
/// has no entry, until the rate limit has passed.
pub proof fn law_address_waits_out_the_rate_limit(
    history: HistoryView,
    rate_limit: nat,
    piece: AddressOrAlmost,
    start: Moment,
    between: Seq<Event>,
    user: UserId,
    now: Moment,
)
    requires
        holds_address(history, piece, start),
        countable_run(history, rate_limit, between),
        forall|i: int|
            0 <= i < between.len() ==> leaves_address(
                #[trigger] between[i],
                piece,
                start,
                rate_limit,
            ),
        elapsed_nanos(start, now) < rate_limit,
        first_index(
            run(history, rate_limit, between).pruned(now, rate_limit).users,
            is_user(user),
        ) is None,
    ensures
        refused(
            run(history, rate_limit, between).pruned(now, rate_limit),
            user,
            seq![piece],
        ),
{
    lemma_holds_address_run(history, rate_limit, between, piece, start);
    let state = run(history, rate_limit, between).pruned(now, rate_limit);
    lemma_holds_address_pruned(
        run(history, rate_limit, between),
        piece,
        start,
        now,
        rate_limit,
    );
    let wanted = is_listed(seq![piece]);
    lemma_first_index(state.addresses, wanted);
    let i = choose|i: int|
        0 <= i < state.addresses.len() && same_piece((#[trigger] state.addresses[i]).key, piece)
            && state.addresses[i].last_fulfilled == start;
    assert(same_piece(state.addresses[i].key, seq![piece][0]));
    assert(among(state.addresses[i].key, seq![piece]));
    assert(wanted(state.addresses[i].key));
    let first = first_index(state.addresses, wanted)->0;
    assert(among(state.addresses[first].key, seq![piece]));
    assert(same_piece(state.addresses[first].key, piece));
}

/// A failure lifts the rate limit, whatever the history: a request that has failed can be made
/// again, and a user who has an entry can make any other request, too.
pub proof fn law_failure_lifts_the_rate_limit(
    history: HistoryView,
    user: UserId,
    addresses: Seq<AddressOrAlmost>,
    again: Seq<AddressOrAlmost>,
)
    ensures
        !refused(history.failed(user, addresses), user, addresses),
        first_index(history.users, is_user(user)) is Some ==> !refused(
            history.failed(user, addresses),
            user,
            again,
        ),
{
    lemma_recount_keeps_first(history.users, is_user(user));
    lemma_recount_keeps_first(history.addresses, is_listed(addresses));
}

/// A failure lifts the rate limit for the user's next message, as long as it comes before what
/// limited the user has outlived the rate limit: it is not refused, whatever its addresses are.
pub proof fn law_next_request_after_a_failure(
    history: HistoryView,
    rate_limit: nat,
    user: UserId,
    addresses: Seq<AddressOrAlmost>,
    again: Seq<AddressOrAlmost>,
    now: Moment,
)
    requires
        first_index(history.users, is_user(user)) matches Some(i) && !expired(
            history.users[i],
            now,
            rate_limit,
        ),
    ensures
        !refused(history.failed(user, addresses).pruned(now, rate_limit), user, again),
{
    let failed = history.failed(user, addresses);
    lemma_first_index(history.users, is_user(user));
    lemma_recount_keeps_first(history.users, is_user(user));
    let i = first_index(failed.users, is_user(user))->0;
    let removed = lemma_unexpired(failed.users, now, rate_limit);
    let pruned = failed.pruned(now, rate_limit);
    if i < removed {
        assert(expired(failed.users[i], now, rate_limit));
    }
    lemma_first_index(failed.users, is_user(user));
    assert(pruned.users[i - removed] == failed.users[i]);
    assert forall|j: int| 0 <= j < i - removed implies !is_user(user)(
        #[trigger] pruned.users[j].key,
    ) by {
        assert(pruned.users[j] == failed.users[removed + j]);
    }
    lemma_first_index_is(pruned.users, is_user(user), i - removed);
}

/// Setting the count of the first wanted entry to zero leaves it the first.
proof fn lemma_recount_keeps_first<K>(entries: Seq<Entry<K>>, wanted: spec_fn(K) -> bool)
    ensures
        ({
            let after = recount_first(entries, wanted, set_to_zero());
            &&& first_index(after, wanted) == first_index(entries, wanted)
            &&& first_index(entries, wanted) matches Some(i) ==> after[i].notified == 0
                && after[i].last_fulfilled == entries[i].last_fulfilled
        }),
{
    let after = recount_first(entries, wanted, set_to_zero());
    lemma_first_index(entries, wanted);
    if let Some(i) = first_index(entries, wanted) {
        assert forall|j: int| 0 <= j < i implies !wanted(#[trigger] after[j].key) by {
            assert(after[j] == entries[j]);
        }
        lemma_first_index_is(after, wanted, i);
    }
}

proof fn lemma_only_entry_step(
    history: HistoryView,
    rate_limit: nat,
    event: Event,
    user: UserId,
    start: Moment,
    count: int,
)
    requires
        only_entry(history, user, start, count),
        count > 0,
        countable(history, rate_limit, event),
        leaves_user(event, user, start, rate_limit),
    ensures
        match event {
            Event::Message { user: author, addresses, now } => if author == user && addresses.len()
                > 0 {
                &&& only_entry(apply(history, rate_limit, event), user, start, count + 1)
                &&& history.pruned(now, rate_limit).limit(user, addresses) == Some(
                    (start, count as usize),
                )
                &&& count == count as usize
            } else {
                only_entry(apply(history, rate_limit, event), user, start, count)
            },
            Event::Failure { .. } => only_entry(
                apply(history, rate_limit, event),
                user,
                start,
                count,
            ),
        },
{
    let after = apply(history, rate_limit, event);
    let i = choose|i: int|
        {
            &&& 0 <= i < history.users.len()
            &&& (#[trigger] history.users[i]).key == user
            &&& history.users[i].last_fulfilled == start
            &&& history.users[i].notified == count
            &&& forall|j: int|
                0 <= j < history.users.len() && (#[trigger] history.users[j]).key == user ==> j == i
        };
    match event {
        Event::Message { user: author, addresses, now } => {
            let pruned = history.pruned(now, rate_limit);
            let removed = lemma_unexpired(history.users, now, rate_limit);
            if i < removed {
                assert(expired(history.users[i], now, rate_limit));
            }
            let k = i - removed;
            assert(pruned.users[k] == history.users[i]);
            assert forall|j: int|
                0 <= j < pruned.users.len() && (#[trigger] pruned.users[j]).key == user implies j
                == k by {
                assert(pruned.users[j] == history.users[removed + j]);
            }
            assert(only_entry(pruned, user, start, count));
            if addresses.len() > 0 {
                lemma_first_index(pruned.users, is_user(author));
                if author == user {
                    lemma_first_index_is(pruned.users, is_user(user), k);
                }
                assert(after.users[k].key == user);
                assert forall|j: int|
                    0 <= j < after.users.len() && (#[trigger] after.users[j]).key == user implies j
                    == k by {
                    if j < pruned.users.len() {
                        assert(pruned.users[j].key == user);
                    }
                }
            }
        },
        Event::Failure { user: other, addresses } => {
            lemma_first_index(history.users, is_user(other));
            assert(after.users[i] == history.users[i]);
            assert forall|j: int|
                0 <= j < after.users.len() && (#[trigger] after.users[j]).key == user implies j
                == i by {
                assert(history.users[j].key == user);
            }
        },
    }
}

proof fn lemma_notices_run(
    history: HistoryView,
    rate_limit: nat,
    reply_limit: usize,
    user: UserId,
    start: Moment,
    events: Seq<Event>,
)
    requires
        only_entry(history, user, start, 1),
        countable_run(history, rate_limit, events),
        forall|i: int|
            0 <= i < events.len() ==> leaves_user(#[trigger] events[i], user, start, rate_limit),
    ensures
        only_entry(run(history, rate_limit, events), user, start, 1int + asks(user, events)),
        notices(history, rate_limit, reply_limit, user, events) == if asks(user, events)
            <= reply_limit {
            asks(user, events)
        } else {
            reply_limit as nat
        },
    decreases events.len(),
{
    if events.len() > 0 {
        let before = events.drop_last();
        assert forall|i: int| 0 <= i < before.len() implies leaves_user(
            #[trigger] before[i],
            user,
            start,
            rate_limit,
        ) by {
            assert(before[i] == events[i]);
        }
        lemma_notices_run(history, rate_limit, reply_limit, user, start, before);
        assert(leaves_user(events[events.len() - 1], user, start, rate_limit));
        lemma_only_entry_step(
            run(history, rate_limit, before),
            rate_limit,
            events.last(),
            user,
            start,
            1int + asks(user, before),
        );
    }
}

/// A user who has no entry and whose request is answered is told of the rate limit, until it has
/// passed, as often as the user asks again, but no more often than the reply limit.
pub proof fn law_notices_are_limited(
    history: HistoryView,
    rate_limit: nat,
    reply_limit: usize,
    user: UserId,
    addresses: Seq<AddressOrAlmost>,
    start: Moment,
    between: Seq<Event>,
)
    requires
        addresses.len() > 0,
        first_index(history.pruned(start, rate_limit).users, is_user(user)) is None,
        !refused(history.pruned(start, rate_limit), user, addresses),
        countable_run(
            history_after(history, rate_limit, user, addresses, start),
            rate_limit,
            between,
        ),
        forall|i: int|
            0 <= i < between.len() ==> leaves_user(#[trigger] between[i], user, start, rate_limit),
    ensures
        notices(
            history_after(history, rate_limit, user, addresses, start),
            rate_limit,
            reply_limit,
            user,
            between,
        ) == if asks(user, between) <= reply_limit {
            asks(user, between)
        } else {
            reply_limit as nat
        },
{
    let pruned = history.pruned(start, rate_limit);
    let after = history_after(history, rate_limit, user, addresses, start);
    lemma_first_index(pruned.users, is_user(user));
    let last = after.users.len() - 1;
    assert(after.users[last].key == user);
    assert forall|j: int|
        0 <= j < after.users.len() && (#[trigger] after.users[j]).key == user implies j == last by {
        if j < pruned.users.len() {
            assert(after.users[j] == pruned.users[j]);
            assert(!is_user(user)(pruned.users[j].key));
        }
    }
    assert(only_entry(after, user, start, 1));
    lemma_notices_run(after, rate_limit, reply_limit, user, start, between);
}

/// The events of the history are what becomes of messages: one that the bot takes notice of changes
/// the history as the event does, and is replied to at once just when the event gives a notice,
/// except in read-only mode.
pub proof fn law_notices_are_replies(state: HandlerView, incoming: Incoming, now: Moment)
    requires
        admitted(incoming),
        !state.dry_run,
    ensures
        ({
            let event = Event::Message {
                user: incoming.author_id,
                addresses: incoming.addresses@,
                now,
            };
            &&& state.after(incoming, now).history == apply(state.history, state.rate_limit, event)
            &&& state.reply_text(incoming, now) is Some <==> gives_notice(
                state.history,
                state.rate_limit,
                state.reply_limit,
                event,
            )
        }),
{
}

/// The state of a handler after a course of messages, each with the reading of the clock.
pub open spec fn state_after(state: HandlerView, messages: Seq<(Incoming, Moment)>) -> HandlerView
    decreases messages.len(),
{
    if messages.len() == 0 {
        state
    } else {
        state_after(state, messages.drop_last()).after(messages.last().0, messages.last().1)
    }
}

/// Whether the counts can take each of a course of messages.
pub open spec fn all_countable(state: HandlerView, messages: Seq<(Incoming, Moment)>) -> bool
    decreases messages.len(),
{
    messages.len() > 0 ==> {
        &&& all_countable(state, messages.drop_last())
        &&& state_after(state, messages.drop_last()).countable(messages.last().0, messages.last().1)
    }
}

/// How many of a course of messages of a user are replied to at once.
pub open spec fn replies(
    state: HandlerView,
    user: UserId,
    messages: Seq<(Incoming, Moment)>,
) -> nat
    decreases messages.len(),
{
    if messages.len() == 0 {
        0
    } else {
        let before = replies(state, user, messages.drop_last());
        let (incoming, now) = messages.last();
        if incoming.author_id == user && state_after(state, messages.drop_last()).reply_text(
            incoming,
            now,
        ) is Some {
            before + 1
        } else {
            before
        }
    }
}

/// How many messages of a user hold addresses, among those that the bot takes notice of.
pub open spec fn requests(user: UserId, messages: Seq<(Incoming, Moment)>) -> nat
    decreases messages.len(),
{
    if messages.len() == 0 {
        0
    } else {
        let before = requests(user, messages.drop_last());
        let incoming = messages.last().0;
        if incoming.author_id == user && admitted(incoming) && incoming.addresses@.len() > 0 {
            before + 1
        } else {
            before
        }
    }
}

/// The events that a course of messages leads to.
spec fn events_of(messages: Seq<(Incoming, Moment)>) -> Seq<Event>
    decreases messages.len(),
{
    if messages.len() == 0 {
        Seq::empty()
    } else {
        let before = events_of(messages.drop_last());
        let (incoming, now) = messages.last();
        if admitted(incoming) {
            before.push(
                Event::Message { user: incoming.author_id, addresses: incoming.addresses@, now },
            )
        } else {
            before
        }
    }
}

proof fn lemma_events_of(
    state: HandlerView,
    user: UserId,
    start: Moment,
    messages: Seq<(Incoming, Moment)>,
)
    requires
        !state.dry_run,
        all_countable(state, messages),
        forall|i: int|
            0 <= i < messages.len() ==> elapsed_nanos(start, (#[trigger] messages[i]).1)
                < state.rate_limit,
    ensures
        ({
            let events = events_of(messages);
            let after = state_after(state, messages);
            &&& after.history == run(state.history, state.rate_limit, events)
            &&& after.rate_limit == state.rate_limit
            &&& after.reply_limit == state.reply_limit
            &&& !after.dry_run
            &&& countable_run(state.history, state.rate_limit, events)
            &&& forall|i: int|
                0 <= i < events.len() ==> leaves_user(
                    #[trigger] events[i],
                    user,
                    start,
                    state.rate_limit,
                )
            &&& asks(user, events) == requests(user, messages)
            &&& notices(state.history, state.rate_limit, state.reply_limit, user, events)
                == replies(state, user, messages)
        }),
    decreases messages.len(),
{
    if messages.len() > 0 {
        let earlier = messages.drop_last();
        assert forall|i: int| 0 <= i < earlier.len() implies elapsed_nanos(
            start,
            (#[trigger] earlier[i]).1,
        ) < state.rate_limit by {
            assert(earlier[i] == messages[i]);
        }
        lemma_events_of(state, user, start, earlier);
        let (incoming, now) = messages.last();
        assert(messages[messages.len() - 1].1 == now);
        let before = events_of(earlier);
        let events = events_of(messages);
        if admitted(incoming) {
            assert(events.drop_last() =~= before);
            assert forall|i: int| 0 <= i < events.len() implies leaves_user(
                #[trigger] events[i],
                user,
                start,
                state.rate_limit,
            ) by {
                if i < before.len() {
                    assert(events[i] == before[i]);
                }
            }
        }
    }
}

/// Once a request of a user is answered, the user is told of the rate limit, until it has passed, as
/// often as the user asks again, but no more often than the reply limit, whoever else posts what in
/// between. The user has no other entry that is still held against the user.
pub proof fn law_replies_are_limited(
    state: HandlerView,
    answered: Incoming,
    start: Moment,
    messages: Seq<(Incoming, Moment)>,
)
    requires
        state.passes_on(answered, start),
        first_index(
            state.history.pruned(start, state.rate_limit).users,
            is_user(answered.author_id),
        ) is None,
        all_countable(state.after(answered, start), messages),
        forall|i: int|
            0 <= i < messages.len() ==> elapsed_nanos(start, (#[trigger] messages[i]).1)
                < state.rate_limit,
    ensures
        ({
            let asked = requests(answered.author_id, messages);
            replies(state.after(answered, start), answered.author_id, messages) == if asked
                <= state.reply_limit {
                asked
            } else {
                state.reply_limit as nat
            }
        }),
{
    let after = state.after(answered, start);
    lemma_events_of(after, answered.author_id, start, messages);
    law_notices_are_limited(
        state.history,
        state.rate_limit,
        state.reply_limit,
        answered.author_id,
        answered.addresses@,
        start,
        events_of(messages),
    );
}

/// Once a message is passed on, each of its addresses is held, whatever else is in the history: it
/// has an entry from then, and unless an older entry for it has failed, nothing lifts it.
pub proof fn law_answered_addresses_are_held(
    history: HistoryView,
    rate_limit: nat,
    user: UserId,
    addresses: Seq<AddressOrAlmost>,
    now: Moment,
    i: int,
)
    requires
        0 <= i < addresses.len(),
        !refused(history.pruned(now, rate_limit), user, addresses),
        forall|j: int|
            0 <= j < history.pruned(now, rate_limit).addresses.len() ==> !same_piece(
                (#[trigger] history.pruned(now, rate_limit).addresses[j]).key,
                addresses[i],
            ),
    ensures
        ({
            let after = history_after(history, rate_limit, user, addresses, now);
            &&& exists|j: int|
                0 <= j < after.addresses.len() && (#[trigger] after.addresses[j]).key
                    == addresses[i] && after.addresses[j].last_fulfilled == now
                    && after.addresses[j].notified == 1
            &&& holds_address(after, addresses[i], now)
        }),
{
    let pruned = history.pruned(now, rate_limit);
    let after = history_after(history, rate_limit, user, addresses, now);
    lemma_first_index(pruned.users, is_user(user));
    lemma_first_index(pruned.addresses, is_listed(addresses));
    let m = pruned.addresses.len() as int;
    assert(after.addresses[m + i].key == addresses[i]);
    assert forall|j: int|
        0 <= j < after.addresses.len() && same_piece(
            (#[trigger] after.addresses[j]).key,
            addresses[i],
        ) implies after.addresses[j].notified > 0 by {
        if j < m {
            assert(after.addresses[j].key == pruned.addresses[j].key);
        } else {
            assert(after.addresses[j] == address_entries(addresses, now)[j - m]);
        }
    }
}

/// An address that was answered for is refused to every other user who has no entry, until the rate
/// limit has passed, whatever messages and failures of requests for other addresses come in between.
pub proof fn law_answered_address_is_refused_to_others(
    history: HistoryView,
    rate_limit: nat,
    user: UserId,
    addresses: Seq<AddressOrAlmost>,
    start: Moment,
    i: int,
    between: Seq<Event>,
    other: UserId,
    now: Moment,
)
    requires
        0 <= i < addresses.len(),
        !refused(history.pruned(start, rate_limit), user, addresses),
        forall|j: int|
            0 <= j < history.pruned(start, rate_limit).addresses.len() ==> !same_piece(
                (#[trigger] history.pruned(start, rate_limit).addresses[j]).key,
                addresses[i],
            ),
        countable_run(
            history_after(history, rate_limit, user, addresses, start),
            rate_limit,
            between,
        ),
        forall|j: int|
            0 <= j < between.len() ==> leaves_address(
                #[trigger] between[j],
                addresses[i],
                start,
                rate_limit,
            ),
        elapsed_nanos(start, now) < rate_limit,
        ({
            let after = history_after(history, rate_limit, user, addresses, start);
            let state = run(after, rate_limit, between).pruned(now, rate_limit);
            forall|j: int| 0 <= j < state.users.len() ==> (#[trigger] state.users[j]).key != other
        }),
    ensures
        ({
            let after = history_after(history, rate_limit, user, addresses, start);
            let state = run(after, rate_limit, between).pruned(now, rate_limit);
            &&& refused(state, other, seq![addresses[i]])
            &&& exists|j: int|
                0 <= j < state.addresses.len() && same_piece(
                    (#[trigger] state.addresses[j]).key,
                    addresses[i],
                ) && state.addresses[j].last_fulfilled == start && state.addresses[j].notified > 0
        }),
{
    let after = history_after(history, rate_limit, user, addresses, start);
    law_answered_addresses_are_held(history, rate_limit, user, addresses, start, i);
    let late = run(after, rate_limit, between);
    lemma_first_index_none_left(late.pruned(now, rate_limit), other);
    law_address_waits_out_the_rate_limit(
        after,
        rate_limit,
        addresses[i],
        start,
        between,
        other,
        now,
    );
    lemma_holds_address_run(after, rate_limit, between, addresses[i], start);
    lemma_holds_address_pruned(late, addresses[i], start, now, rate_limit);
}

proof fn lemma_first_index_none_left(history: HistoryView, user: UserId)
    requires
        forall|j: int| 0 <= j < history.users.len() ==> (#[trigger] history.users[j]).key != user,
    ensures
        first_index(history.users, is_user(user)) is None,
{
    lemma_first_index(history.users, is_user(user));
}

/// After a request of one user is answered, a message of another who has no entry, for one of its
/// addresses, is not passed on until the rate limit has passed.
pub proof fn law_no_second_answer_for_an_address(
    state: HandlerView,
    answered: Incoming,
    start: Moment,
    i: int,
    again: Incoming,
    now: Moment,
)
    requires
        state.passes_on(answered, start),
        0 <= i < answered.addresses@.len(),
        forall|j: int|
            0 <= j < state.history.addresses.len() ==> !same_piece(
                (#[trigger] state.history.addresses[j]).key,
                answered.addresses@[i],
            ),
        again.addresses@ == seq![answered.addresses@[i]],
        again.author_id != answered.author_id,
        forall|j: int|
            0 <= j < state.history.users.len() ==> (#[trigger] state.history.users[j]).key
                != again.author_id,
        elapsed_nanos(start, now) < state.rate_limit,
    ensures
        !state.after(answered, start).passes_on(again, now),
{
    let limit = state.rate_limit;
    let pruned = state.history.pruned(start, limit);
    let addresses = answered.addresses@;
    let removed = lemma_unexpired(state.history.addresses, start, limit);
    assert forall|j: int| 0 <= j < pruned.addresses.len() implies !same_piece(
        (#[trigger] pruned.addresses[j]).key,
        addresses[i],
    ) by {
        assert(pruned.addresses[j] == state.history.addresses[removed + j]);
    }
    let after = state.after(answered, start).history;
    let late = after.pruned(now, limit);
    let users_removed = lemma_unexpired(state.history.users, start, limit);
    let late_removed = lemma_unexpired(after.users, now, limit);
    lemma_first_index(pruned.users, is_user(answered.author_id));
    assert forall|j: int| 0 <= j < late.users.len() implies (#[trigger] late.users[j]).key
        != again.author_id by {
        assert(late.users[j] == after.users[late_removed + j]);
        let k = late_removed + j;
        if k < pruned.users.len() {
            assert(after.users[k].key == pruned.users[k].key);
            assert(pruned.users[k] == state.history.users[users_removed + k]);
        }
    }
    let none = Seq::<Event>::empty();
    assert(run(after, limit, none) == after);
    assert(countable_run(after, limit, none));
    law_answered_address_is_refused_to_others(
        state.history,
        limit,
        answered.author_id,
        addresses,
        start,
        i,
        none,
        again.author_id,
        now,
    );
}

} // verus!
