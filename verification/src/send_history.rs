//! The record of requests that were answered, which is what rate limits are decided by.

use std::collections::VecDeque;

use vstd::prelude::*;

use crate::address::among;
use crate::address::AddressOrAlmost;
use crate::ids::UserId;
use crate::time::elapsed_nanos;
use crate::time::end_of;
use crate::time::Duration;
use crate::time::Moment;

verus! {

/// An answered request: by whom or for which address, when, and how often the rate limit has come
/// up since.
#[derive(Debug)]
pub struct Entry<K> {
    /// The user or the address.
    pub key: K,
    /// When the request was answered.
    pub last_fulfilled: Moment,
    /// The count starts at one, and goes up each time that the rate limit comes up. A failure sets
    /// it to zero, and an entry with a count of zero does not hold a request back.
    pub notified: usize,
}

/// The contents of a [`SendHistory`]: its entries, in the order in which they were made.
pub struct HistoryView {
    pub users: Seq<Entry<UserId>>,
    pub addresses: Seq<Entry<AddressOrAlmost>>,
}

/// The place of the first entry whose key is one of those wanted.
pub open spec fn first_index<K>(entries: Seq<Entry<K>>, wanted: spec_fn(K) -> bool) -> Option<int>
    decreases entries.len(),
{
    if entries.len() == 0 {
        None
    } else if wanted(entries[0].key) {
        Some(0int)
    } else {
        match first_index(entries.drop_first(), wanted) {
            Some(i) => Some(i + 1),
            None => None,
        }
    }
}

/// What the first entry for one of the wanted keys says: when the request was answered, and its
/// count.
pub open spec fn first_limit<K>(entries: Seq<Entry<K>>, wanted: spec_fn(K) -> bool) -> Option<
    (Moment, usize),
> {
    match first_index(entries, wanted) {
        Some(i) => Some((entries[i].last_fulfilled, entries[i].notified)),
        None => None,
    }
}

/// The entries after the count of the first one for a wanted key is replaced.
pub open spec fn recount_first<K>(
    entries: Seq<Entry<K>>,
    wanted: spec_fn(K) -> bool,
    count: spec_fn(usize) -> usize,
) -> Seq<Entry<K>> {
    match first_index(entries, wanted) {
        Some(i) => entries.update(
            i,
            Entry {
                key: entries[i].key,
                last_fulfilled: entries[i].last_fulfilled,
                notified: count(entries[i].notified),
            },
        ),
        None => entries,
    }
}

/// Whether an entry has outlived the rate limit.
pub open spec fn expired<K>(entry: Entry<K>, now: Moment, rate_limit: nat) -> bool {
    elapsed_nanos(entry.last_fulfilled, now) >= rate_limit
}

/// The entries from the first one on that has not outlived the rate limit.
pub open spec fn unexpired<K>(entries: Seq<Entry<K>>, now: Moment, rate_limit: nat) -> Seq<Entry<K>>
    decreases entries.len(),
{
    if entries.len() > 0 && expired(entries[0], now, rate_limit) {
        unexpired(entries.drop_first(), now, rate_limit)
    } else {
        entries
    }
}

/// One new entry for each address of an answered request.
pub open spec fn address_entries(addresses: Seq<AddressOrAlmost>, now: Moment) -> Seq<
    Entry<AddressOrAlmost>,
> {
    addresses.map_values(
        |address: AddressOrAlmost| Entry { key: address, last_fulfilled: now, notified: 1usize },
    )
}

/// Selects one user.
pub open spec fn is_user(user: UserId) -> spec_fn(UserId) -> bool {
    |key: UserId| key == user
}

/// Selects the addresses of a list.
pub open spec fn is_listed(addresses: Seq<AddressOrAlmost>) -> spec_fn(AddressOrAlmost) -> bool {
    |key: AddressOrAlmost| among(key, addresses)
}

/// One more than a count.
pub open spec fn counted_up() -> spec_fn(usize) -> usize {
    |count: usize| (count + 1) as usize
}

/// Zero, whatever the count.
pub open spec fn set_to_zero() -> spec_fn(usize) -> usize {
    |count: usize| 0usize
}

impl HistoryView {
    /// The history with no entries.
    pub open spec fn empty() -> Self {
        HistoryView { users: Seq::empty(), addresses: Seq::empty() }
    }

    /// What limits a request: the user's first entry, or else the first entry for one of the
    /// addresses. When it was answered, and its count.
    pub open spec fn limit(self, user: UserId, addresses: Seq<AddressOrAlmost>) -> Option<
        (Moment, usize),
    > {
        match first_limit(self.users, is_user(user)) {
            Some(limit) => Some(limit),
            None => first_limit(self.addresses, is_listed(addresses)),
        }
    }

    /// When the rate limit of a request expires, if something limits it, and the count of what does.
    pub open spec fn expiry(
        self,
        user: UserId,
        addresses: Seq<AddressOrAlmost>,
        rate_limit: nat,
    ) -> Option<(Moment, usize)> {
        match self.limit(user, addresses) {
            Some((last_fulfilled, notified)) => Some((end_of(last_fulfilled, rate_limit), notified)),
            None => None,
        }
    }

    /// Whether the moment at which the rate limit of a request expires can be told.
    pub open spec fn expires(
        self,
        user: UserId,
        addresses: Seq<AddressOrAlmost>,
        rate_limit: nat,
    ) -> bool {
        match self.limit(user, addresses) {
            Some((last_fulfilled, _)) => last_fulfilled.nanos + rate_limit <= u128::MAX,
            None => true,
        }
    }

    /// The history after what limits a request has been counted once more.
    pub open spec fn counted(self, user: UserId, addresses: Seq<AddressOrAlmost>) -> Self {
        if first_index(self.users, is_user(user)) is Some {
            HistoryView {
                users: recount_first(self.users, is_user(user), counted_up()),
                addresses: self.addresses,
            }
        } else {
            HistoryView {
                users: self.users,
                addresses: recount_first(self.addresses, is_listed(addresses), counted_up()),
            }
        }
    }

    /// Whether the count of what limits a request can still go up.
    pub open spec fn countable(self, user: UserId, addresses: Seq<AddressOrAlmost>) -> bool {
        match self.limit(user, addresses) {
            Some((_, notified)) => notified < usize::MAX,
            None => true,
        }
    }

    /// Whether every count that may come to limit a request can still go up.
    pub open spec fn has_room(self, user: UserId, addresses: Seq<AddressOrAlmost>) -> bool {
        &&& forall|i: int|
            0 <= i < self.users.len() && (#[trigger] self.users[i]).key == user
                ==> self.users[i].notified < usize::MAX
        &&& forall|i: int|
            0 <= i < self.addresses.len() && among((#[trigger] self.addresses[i]).key, addresses)
                ==> self.addresses[i].notified < usize::MAX
    }

    /// The history after a request was answered.
    pub open spec fn recorded(
        self,
        user: UserId,
        addresses: Seq<AddressOrAlmost>,
        now: Moment,
    ) -> Self {
        HistoryView {
            users: self.users.push(Entry { key: user, last_fulfilled: now, notified: 1 }),
            addresses: self.addresses + address_entries(addresses, now),
        }
    }

    /// The history without what has outlived the rate limit.
    pub open spec fn pruned(self, now: Moment, rate_limit: nat) -> Self {
        HistoryView {
            users: unexpired(self.users, now, rate_limit),
            addresses: unexpired(self.addresses, now, rate_limit),
        }
    }

    /// The history after an answered request turned out to have failed.
    pub open spec fn failed(self, user: UserId, addresses: Seq<AddressOrAlmost>) -> Self {
        HistoryView {
            users: recount_first(self.users, is_user(user), set_to_zero()),
            addresses: recount_first(self.addresses, is_listed(addresses), set_to_zero()),
        }
    }
}

/// The first entry for a wanted key is one, and no earlier entry is.
pub proof fn lemma_first_index<K>(entries: Seq<Entry<K>>, wanted: spec_fn(K) -> bool)
    ensures
        match first_index(entries, wanted) {
            Some(i) => {
                &&& 0 <= i < entries.len()
                &&& wanted(entries[i].key)
                &&& forall|j: int| 0 <= j < i ==> !wanted(#[trigger] entries[j].key)
            },
            None => forall|j: int| 0 <= j < entries.len() ==> !wanted(#[trigger] entries[j].key),
        },
    decreases entries.len(),
{
    if entries.len() > 0 && !wanted(entries[0].key) {
        let rest = entries.drop_first();
        lemma_first_index(rest, wanted);
        assert forall|j: int|
            1 <= j < entries.len() && (first_index(rest, wanted) matches Some(i) ==> j
                <= i) implies !wanted(#[trigger] entries[j].key) by {
            assert(entries[j] == rest[j - 1]);
        }
    }
}

/// An entry for a wanted key before which there is none is the first one.
pub proof fn lemma_first_index_is<K>(entries: Seq<Entry<K>>, wanted: spec_fn(K) -> bool, i: int)
    requires
        0 <= i < entries.len(),
        wanted(entries[i].key),
        forall|j: int| 0 <= j < i ==> !wanted(#[trigger] entries[j].key),
    ensures
        first_index(entries, wanted) == Some(i),
{
    lemma_first_index(entries, wanted);
    assert(first_index(entries, wanted) is Some) by {
        if first_index(entries, wanted) is None {
            assert(!wanted(entries[i].key));
        }
    }
    let first = first_index(entries, wanted)->0;
    if first < i {
        assert(!wanted(entries[first].key));
    } else if i < first {
        assert(!wanted(entries[i].key));
    }
}

/// Where no entry is for a wanted key, there is no first one.
pub proof fn lemma_first_index_none<K>(entries: Seq<Entry<K>>, wanted: spec_fn(K) -> bool)
    requires
        forall|j: int| 0 <= j < entries.len() ==> !wanted(#[trigger] entries[j].key),
    ensures
        first_index(entries, wanted) is None,
{
    lemma_first_index(entries, wanted);
}

/// Pruning takes away some of the earliest entries, all of which have outlived the rate limit, and
/// leaves an entry that has not in front.
pub proof fn lemma_unexpired<K>(entries: Seq<Entry<K>>, now: Moment, rate_limit: nat) -> (removed:
    int)
    ensures
        0 <= removed <= entries.len(),
        unexpired(entries, now, rate_limit) == entries.skip(removed),
        forall|i: int| 0 <= i < removed ==> expired(#[trigger] entries[i], now, rate_limit),
        removed < entries.len() ==> !expired(entries[removed], now, rate_limit),
    decreases entries.len(),
{
    if entries.len() > 0 && expired(entries[0], now, rate_limit) {
        let rest = entries.drop_first();
        let removed = lemma_unexpired(rest, now, rate_limit);
        assert(rest.skip(removed) =~= entries.skip(removed + 1));
        assert forall|i: int| 0 <= i < removed + 1 implies expired(
            #[trigger] entries[i],
            now,
            rate_limit,
        ) by {
            if i > 0 {
                assert(entries[i] == rest[i - 1]);
            }
        }
        removed + 1
    } else {
        assert(entries.skip(0) =~= entries);
        0
    }
}

/// The requests that were answered, by user and by address, from the earliest to the latest.
pub struct SendHistory {
    pub discord_users: VecDeque<Entry<UserId>>,
    pub penumbra_addresses: VecDeque<Entry<AddressOrAlmost>>,
}

impl View for SendHistory {
    type V = HistoryView;

    open spec fn view(&self) -> HistoryView {
        HistoryView { users: self.discord_users@, addresses: self.penumbra_addresses@ }
    }
}

impl SendHistory {
    /// Returns a history with no entries.
    pub fn new() -> (history: Self)
        ensures
            history@ == HistoryView::empty(),
    {
        SendHistory { discord_users: VecDeque::new(), penumbra_addresses: VecDeque::new() }
    }

    fn find_user(&self, user_id: UserId) -> (place: Option<usize>)
        ensures
            match place {
                Some(i) => first_index(self@.users, is_user(user_id)) == Some(i as int) && i
                    < self@.users.len(),
                None => first_index(self@.users, is_user(user_id)) is None,
            },
    {
        let mut i: usize = 0;
        while i < self.discord_users.len()
            invariant
                i <= self@.users.len(),
                forall|j: int| 0 <= j < i ==> !is_user(user_id)(#[trigger] self@.users[j].key),
            decreases self@.users.len() - i,
        {
            if self.discord_users[i].key == user_id {
                proof {
                    lemma_first_index_is(self@.users, is_user(user_id), i as int);
                }
                return Some(i);
            }
            i = i + 1;
        }
        proof {
            lemma_first_index_none(self@.users, is_user(user_id));
        }
        None
    }

    fn find_address(&self, addresses: &Vec<AddressOrAlmost>) -> (place: Option<usize>)
        ensures
            match place {
                Some(i) => first_index(self@.addresses, is_listed(addresses@)) == Some(i as int)
                    && i < self@.addresses.len(),
                None => first_index(self@.addresses, is_listed(addresses@)) is None,
            },
    {
        let mut i: usize = 0;
        while i < self.penumbra_addresses.len()
            invariant
                i <= self@.addresses.len(),
                forall|j: int|
                    0 <= j < i ==> !is_listed(addresses@)(#[trigger] self@.addresses[j].key),
            decreases self@.addresses.len() - i,
        {
            if self.penumbra_addresses[i].key.is_among(addresses) {
                proof {
                    lemma_first_index_is(self@.addresses, is_listed(addresses@), i as int);
                }
                return Some(i);
            }
            i = i + 1;
        }
        proof {
            lemma_first_index_none(self@.addresses, is_listed(addresses@));
        }
        None
    }

    /// Returns whether the given user or one of the given addresses is rate limited, and if so,
    /// when the rate limit will expire, along with the count of the entry that limits the request.
    pub fn is_rate_limited(
        &mut self,
        user_id: UserId,
        addresses: &Vec<AddressOrAlmost>,
        rate_limit: Duration,
    ) -> (limit: Option<(Moment, usize)>)
        requires
            old(self)@.countable(user_id, addresses@),
            old(self)@.expires(user_id, addresses@, rate_limit@),
        ensures
            limit == old(self)@.expiry(user_id, addresses@, rate_limit@),
            final(self)@ == old(self)@.counted(user_id, addresses@),
    {
        if let Some(i) = self.find_user(user_id) {
            let mut entry = self.discord_users.remove(i).unwrap();
            let limit = (entry.last_fulfilled.after(rate_limit), entry.notified);
            entry.notified = entry.notified + 1;
            self.discord_users.insert(i, entry);
            assert(self@.users =~= old(self)@.counted(user_id, addresses@).users);
            return Some(limit);
        }
        if let Some(i) = self.find_address(addresses) {
            let mut entry = self.penumbra_addresses.remove(i).unwrap();
            let limit = (entry.last_fulfilled.after(rate_limit), entry.notified);
            entry.notified = entry.notified + 1;
            self.penumbra_addresses.insert(i, entry);
            assert(self@.addresses =~= old(self)@.counted(user_id, addresses@).addresses);
            return Some(limit);
        }
        None
    }

    /// Returns whether every count that may come to limit a request can still go up.
    pub fn has_room(&self, user_id: UserId, addresses: &Vec<AddressOrAlmost>) -> (room: bool)
        ensures
            room == self@.has_room(user_id, addresses@),
    {
        let mut i: usize = 0;
        while i < self.discord_users.len()
            invariant
                i <= self@.users.len(),
                forall|j: int|
                    0 <= j < i && (#[trigger] self@.users[j]).key == user_id
                        ==> self@.users[j].notified < usize::MAX,
            decreases self@.users.len() - i,
        {
            if self.discord_users[i].key == user_id && self.discord_users[i].notified
                == usize::MAX {
                assert(self@.users[i as int].key == user_id);
                return false;
            }
            i = i + 1;
        }
        let mut k: usize = 0;
        while k < self.penumbra_addresses.len()
            invariant
                k <= self@.addresses.len(),
                forall|j: int|
                    0 <= j < k && among((#[trigger] self@.addresses[j]).key, addresses@)
                        ==> self@.addresses[j].notified < usize::MAX,
            decreases self@.addresses.len() - k,
        {
            if self.penumbra_addresses[k].key.is_among(addresses)
                && self.penumbra_addresses[k].notified == usize::MAX {
                assert(among(self@.addresses[k as int].key, addresses@));
                return false;
            }
            k = k + 1;
        }
        true
    }

    /// Records that a request was answered.
    pub fn record_request(&mut self, user_id: UserId, addresses: &Vec<AddressOrAlmost>, now: Moment)
        ensures
            final(self)@ == old(self)@.recorded(user_id, addresses@, now),
    {
        self.discord_users.push_back(Entry { key: user_id, last_fulfilled: now, notified: 1 });
        let ghost before = self@.addresses;
        let mut i: usize = 0;
        assert(before =~= before + address_entries(addresses@, now).take(0));
        while i < addresses.len()
            invariant
                i <= addresses@.len(),
                self@.users == old(self)@.users.push(
                    Entry { key: user_id, last_fulfilled: now, notified: 1 },
                ),
                self@.addresses == before + address_entries(addresses@, now).take(i as int),
            decreases addresses@.len() - i,
        {
            self.penumbra_addresses.push_back(
                Entry { key: addresses[i].clone(), last_fulfilled: now, notified: 1 },
            );
            i = i + 1;
            assert(self@.addresses =~= before + address_entries(addresses@, now).take(i as int));
        }
        assert(address_entries(addresses@, now).take(i as int) =~= address_entries(
            addresses@,
            now,
        ));
    }

    /// Forgets the earliest requests, up to the first that has not outlived the rate limit.
    pub fn prune(&mut self, rate_limit: Duration, now: Moment)
        ensures
            final(self)@ == old(self)@.pruned(now, rate_limit@),
    {
        let limit: u128 = rate_limit.as_nanos();
        while self.discord_users.len() > 0 && self.discord_users[0].last_fulfilled.elapsed(now)
            >= limit
            invariant
                limit == rate_limit@,
                unexpired(self@.users, now, rate_limit@) == unexpired(
                    old(self)@.users,
                    now,
                    rate_limit@,
                ),
                self@.addresses == old(self)@.addresses,
            decreases self@.users.len(),
        {
            let ghost before = self@.users;
            self.discord_users.pop_front();
            assert(self@.users =~= before.drop_first());
        }
        while self.penumbra_addresses.len() > 0
            && self.penumbra_addresses[0].last_fulfilled.elapsed(now) >= limit
            invariant
                limit == rate_limit@,
                self@.users == unexpired(old(self)@.users, now, rate_limit@),
                unexpired(self@.addresses, now, rate_limit@) == unexpired(
                    old(self)@.addresses,
                    now,
                    rate_limit@,
                ),
            decreases self@.addresses.len(),
        {
            let ghost before = self@.addresses;
            self.penumbra_addresses.pop_front();
            assert(self@.addresses =~= before.drop_first());
        }
    }

    /// Records that an answered request has failed: the counts of the user's first entry and of
    /// the first entry for one of the addresses are set to zero, so that the rate limit does not
    /// apply to the next request.
    pub fn record_failure(&mut self, user_id: UserId, addresses: &Vec<AddressOrAlmost>)
        ensures
            final(self)@ == old(self)@.failed(user_id, addresses@),
    {
        if let Some(i) = self.find_user(user_id) {
            let mut entry = self.discord_users.remove(i).unwrap();
            entry.notified = 0;
            self.discord_users.insert(i, entry);
        }
        assert(self@.users =~= old(self)@.failed(user_id, addresses@).users);
        if let Some(i) = self.find_address(addresses) {
            let mut entry = self.penumbra_addresses.remove(i).unwrap();
            entry.notified = 0;
            self.penumbra_addresses.insert(i, entry);
        }
        assert(self@.addresses =~= old(self)@.failed(user_id, addresses@).addresses);
    }
}

/// What limits a request is the user's first entry, and only if the user has none, the first entry
/// for one of the addresses.
pub proof fn law_first_entry_limits(
    history: HistoryView,
    user: UserId,
    addresses: Seq<AddressOrAlmost>,
    i: int,
)
    ensures
        0 <= i < history.users.len() && history.users[i].key == user && (forall|j: int|
            0 <= j < i ==> (#[trigger] history.users[j]).key != user) ==> history.limit(
            user,
            addresses,
        ) == Some((history.users[i].last_fulfilled, history.users[i].notified)),
        (forall|j: int| 0 <= j < history.users.len() ==> (#[trigger] history.users[j]).key != user)
            && 0 <= i < history.addresses.len() && among(history.addresses[i].key, addresses) && (
        forall|j: int| 0 <= j < i ==> !among((#[trigger] history.addresses[j]).key, addresses))
            ==> history.limit(user, addresses) == Some(
            (history.addresses[i].last_fulfilled, history.addresses[i].notified),
        ),
        (forall|j: int| 0 <= j < history.users.len() ==> (#[trigger] history.users[j]).key != user)
            && (forall|j: int|
            0 <= j < history.addresses.len() ==> !among(
                (#[trigger] history.addresses[j]).key,
                addresses,
            )) ==> history.limit(user, addresses) is None,
{
    lemma_first_index(history.users, is_user(user));
    lemma_first_index(history.addresses, is_listed(addresses));
    if 0 <= i < history.users.len() && history.users[i].key == user && (forall|j: int|
        0 <= j < i ==> (#[trigger] history.users[j]).key != user) {
        lemma_first_index_is(history.users, is_user(user), i);
    }
    if (forall|j: int| 0 <= j < history.users.len() ==> (#[trigger] history.users[j]).key != user) {
        lemma_first_index_none(history.users, is_user(user));
        if 0 <= i < history.addresses.len() && among(history.addresses[i].key, addresses) && (
        forall|j: int| 0 <= j < i ==> !among((#[trigger] history.addresses[j]).key, addresses)) {
            lemma_first_index_is(history.addresses, is_listed(addresses), i);
        }
        if forall|j: int|
            0 <= j < history.addresses.len() ==> !among(
                (#[trigger] history.addresses[j]).key,
                addresses,
            ) {
            lemma_first_index_none(history.addresses, is_listed(addresses));
        }
    }
}

/// Recording a request keeps every entry as it is, and adds one for the user and one for each of the
/// addresses, in order, all from now and with a count of one.
pub proof fn law_every_address_is_recorded(
    history: HistoryView,
    user: UserId,
    addresses: Seq<AddressOrAlmost>,
    now: Moment,
)
    ensures
        ({
            let after = history.recorded(user, addresses, now);
            let n = history.users.len() as int;
            let m = history.addresses.len() as int;
            &&& after.users.len() == n + 1
            &&& forall|i: int| 0 <= i < n ==> #[trigger] after.users[i] == history.users[i]
            &&& after.users[n].key == user
            &&& after.users[n].last_fulfilled == now
            &&& after.users[n].notified == 1
            &&& after.addresses.len() == m + addresses.len()
            &&& forall|i: int| 0 <= i < m ==> #[trigger] after.addresses[i] == history.addresses[i]
            &&& forall|i: int|
                0 <= i < addresses.len() ==> {
                    let entry = after.addresses[m + i];
                    &&& entry.key == #[trigger] addresses[i]
                    &&& entry.last_fulfilled == now
                    &&& entry.notified == 1
                }
        }),
{
}

/// Counting changes the count of one entry by one, and nothing else: the user's first entry, or, if
/// the user has none, the first entry for one of the addresses.
pub proof fn law_one_count_goes_up(
    history: HistoryView,
    user: UserId,
    addresses: Seq<AddressOrAlmost>,
)
    requires
        history.countable(user, addresses),
    ensures
        ({
            let after = history.counted(user, addresses);
            let known = exists|k: int|
                0 <= k < history.users.len() && (#[trigger] history.users[k]).key == user;
            &&& after.users.len() == history.users.len()
            &&& after.addresses.len() == history.addresses.len()
            &&& forall|i: int|
                0 <= i < history.users.len() ==> {
                    let (old, new) = (history.users[i], #[trigger] after.users[i]);
                    let first = old.key == user && forall|j: int|
                        0 <= j < i ==> (#[trigger] history.users[j]).key != user;
                    &&& new.key == old.key
                    &&& new.last_fulfilled == old.last_fulfilled
                    &&& new.notified == old.notified + if first { 1int } else { 0 }
                }
            &&& forall|i: int|
                0 <= i < history.addresses.len() ==> {
                    let (old, new) = (history.addresses[i], #[trigger] after.addresses[i]);
                    let first = !known && among(old.key, addresses) && forall|j: int|
                        0 <= j < i ==> !among((#[trigger] history.addresses[j]).key, addresses);
                    &&& new.key == old.key
                    &&& new.last_fulfilled == old.last_fulfilled
                    &&& new.notified == old.notified + if first { 1int } else { 0 }
                }
        }),
{
    lemma_first_index(history.users, is_user(user));
    lemma_first_index(history.addresses, is_listed(addresses));
    match first_index(history.users, is_user(user)) {
        Some(at) => {
            assert(history.users[at].key == user);
        },
        None => {
            assert forall|k: int| 0 <= k < history.users.len() implies (
            #[trigger] history.users[k]).key != user by {
                assert(!is_user(user)(history.users[k].key));
            }
        },
    }
    match first_index(history.addresses, is_listed(addresses)) {
        Some(at) => {
            assert(among(history.addresses[at].key, addresses));
        },
        None => {
            assert forall|k: int| 0 <= k < history.addresses.len() implies !among(
                (#[trigger] history.addresses[k]).key,
                addresses,
            ) by {
                assert(!is_listed(addresses)(history.addresses[k].key));
            }
        },
    }
}

/// A failure sets the counts of the user's first entry and of the first entry for one of the
/// addresses to zero, and changes nothing else.
pub proof fn law_failure_sets_the_first_counts_to_zero(
    history: HistoryView,
    user: UserId,
    addresses: Seq<AddressOrAlmost>,
)
    ensures
        ({
            let after = history.failed(user, addresses);
            &&& after.users.len() == history.users.len()
            &&& after.addresses.len() == history.addresses.len()
            &&& forall|i: int|
                0 <= i < history.users.len() ==> {
                    let (old, new) = (history.users[i], #[trigger] after.users[i]);
                    let first = old.key == user && forall|j: int|
                        0 <= j < i ==> (#[trigger] history.users[j]).key != user;
                    &&& new.key == old.key
                    &&& new.last_fulfilled == old.last_fulfilled
                    &&& new.notified == if first { 0 } else { old.notified }
                }
            &&& forall|i: int|
                0 <= i < history.addresses.len() ==> {
                    let (old, new) = (history.addresses[i], #[trigger] after.addresses[i]);
                    let first = among(old.key, addresses) && forall|j: int|
                        0 <= j < i ==> !among((#[trigger] history.addresses[j]).key, addresses);
                    &&& new.key == old.key
                    &&& new.last_fulfilled == old.last_fulfilled
                    &&& new.notified == if first { 0 } else { old.notified }
                }
        }),
{
    lemma_first_index(history.users, is_user(user));
    lemma_first_index(history.addresses, is_listed(addresses));
    match first_index(history.users, is_user(user)) {
        Some(at) => {
            assert(history.users[at].key == user);
        },
        None => {
            assert forall|k: int| 0 <= k < history.users.len() implies (
            #[trigger] history.users[k]).key != user by {
                assert(!is_user(user)(history.users[k].key));
            }
        },
    }
    match first_index(history.addresses, is_listed(addresses)) {
        Some(at) => {
            assert(among(history.addresses[at].key, addresses));
        },
        None => {
            assert forall|k: int| 0 <= k < history.addresses.len() implies !among(
                (#[trigger] history.addresses[k]).key,
                addresses,
            ) by {
                assert(!is_listed(addresses)(history.addresses[k].key));
            }
        },
    }
}

/// Pruning takes away entries from the front, each of them at least as old as the rate limit is
/// long, and leaves the others as they are; the one in front then is younger than that.
pub proof fn law_only_old_entries_are_pruned<K>(
    entries: Seq<Entry<K>>,
    now: Moment,
    rate_limit: nat,
) -> (removed: int)
    requires
        forall|i: int|
            0 <= i < entries.len() ==> (#[trigger] entries[i]).last_fulfilled.nanos <= now.nanos,
    ensures
        0 <= removed <= entries.len(),
        unexpired(entries, now, rate_limit).len() == entries.len() - removed,
        forall|i: int|
            removed <= i < entries.len() ==> unexpired(entries, now, rate_limit)[i - removed]
                == #[trigger] entries[i],
        forall|i: int|
            0 <= i < removed ==> now.nanos - (#[trigger] entries[i]).last_fulfilled.nanos
                >= rate_limit,
        removed < entries.len() ==> now.nanos - entries[removed].last_fulfilled.nanos < rate_limit,
{
    let removed = lemma_unexpired(entries, now, rate_limit);
    assert forall|i: int| 0 <= i < removed implies now.nanos - (
    #[trigger] entries[i]).last_fulfilled.nanos >= rate_limit by {
        assert(expired(entries[i], now, rate_limit));
    }
    removed
}

/// The rate limit of a request expires as long after the request that limits it was answered as the
/// rate limit lasts.
pub proof fn law_limit_expires_after_the_rate_limit(
    history: HistoryView,
    user: UserId,
    addresses: Seq<AddressOrAlmost>,
    rate_limit: nat,
)
    requires
        history.expires(user, addresses, rate_limit),
    ensures
        match (history.limit(user, addresses), history.expiry(user, addresses, rate_limit)) {
            (Some((start, count)), Some((end, same))) => {
                &&& end.nanos - start.nanos == rate_limit
                &&& same == count
            },
            (None, None) => true,
            _ => false,
        },
{
}

} // verus!
