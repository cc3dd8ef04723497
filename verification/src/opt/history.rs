//! Exporting the requests that were made in a channel.

use vstd::prelude::*;

use crate::address::Address;
use crate::address::AddressOrAlmost;
use crate::ids::ChannelId;
use crate::ids::MessageId;
use crate::ids::UserId;
use crate::opt::IdError;
use crate::responder::dispense::valid_of;
use crate::responder::request::Request;
use crate::text::decimal_text;
use crate::text::is_digit;
use crate::text::join_text;
use crate::text::law_decimal_is_read_back;
use crate::text::lemma_split_joined;
use crate::text::lemma_split_last;
use crate::text::parse_u64;
use crate::text::split;
use crate::text::split_text;
use crate::text::u64_value;

verus! {

/// Which requests to export.
#[derive(Clone, Copy, Debug)]
pub struct History {
    /// The channel from which to export history.
    pub channel: ChannelId,
    /// The last message to include in the export (default: latest).
    pub before: Option<MessageId>,
    /// The earliest message to include in the export (default: the earliest in the channel).
    pub after: Option<MessageId>,
}

/// Reads the number of a message: the last part of a text that slashes divide, such as its URL.
pub fn parse_message_id(s: &str) -> (id: Result<MessageId, IdError>)
    ensures
        id == (match u64_value(split_text(s@, '/').last()) {
            Some(number) => Ok(MessageId(number)),
            None => Err::<MessageId, _>(IdError::Message),
        }),
{
    let parts = split(s, '/');
    let last: usize = parts.len() - 1;
    assert(split_text(s@, '/').len() == parts.len());
    assert(parts@[last as int]@ == split_text(s@, '/').last());
    match parse_u64(parts[last]) {
        Ok(number) => Ok(MessageId(number)),
        Err(_) => Err(IdError::Message),
    }
}

/// Reads the number of a channel: the last part of a text that slashes divide, such as its URL.
pub fn parse_channel_id(s: &str) -> (id: Result<ChannelId, IdError>)
    ensures
        id == (match u64_value(split_text(s@, '/').last()) {
            Some(number) => Ok(ChannelId(number)),
            None => Err::<ChannelId, _>(IdError::Channel),
        }),
{
    let parts = split(s, '/');
    let last: usize = parts.len() - 1;
    assert(split_text(s@, '/').len() == parts.len());
    assert(parts@[last as int]@ == split_text(s@, '/').last());
    match parse_u64(parts[last]) {
        Ok(number) => Ok(ChannelId(number)),
        Err(_) => Err(IdError::Channel),
    }
}

/// The user who posted a message.
#[derive(Debug)]
pub struct Author {
    pub id: UserId,
    pub name: String,
    pub discriminator: u16,
    /// Whether the user is a bot.
    pub bot: bool,
}

/// A message in a channel, and what was found in it.
#[derive(Debug)]
pub struct Posted {
    /// When it was posted.
    pub timestamp: String,
    /// Who posted it.
    pub author: Author,
    /// Its number.
    pub id: MessageId,
    /// The addresses in it, and the texts that look like addresses.
    pub addresses: Vec<AddressOrAlmost>,
}

/// A message that makes a request.
#[derive(Debug)]
pub struct Gathered {
    /// When it was posted.
    pub timestamp: String,
    /// Who posted it.
    pub author: Author,
    /// Its number.
    pub id: MessageId,
    /// The request that it makes.
    pub request: Request,
}

/// Whether the earliest message to include is among some messages.
pub open spec fn stops_in(messages: Seq<Posted>, after: Option<MessageId>) -> bool {
    exists|i: int| 0 <= i < messages.len() && Some((#[trigger] messages[i]).id) == after
}

/// Of some messages, from the latest to the earliest, those to include: all of them up to the
/// earliest one to include.
pub open spec fn included(messages: Seq<Posted>, after: Option<MessageId>) -> Seq<Posted>
    decreases messages.len(),
{
    if messages.len() > 0 && stops_in(messages.drop_last(), after) {
        included(messages.drop_last(), after)
    } else {
        messages
    }
}

/// A message as one that makes a request.
pub open spec fn gathered(message: Posted) -> Gathered {
    Gathered {
        timestamp: message.timestamp,
        author: message.author,
        id: message.id,
        request: Request { addresses: message.addresses },
    }
}

/// Of some messages, those that make requests.
pub open spec fn requesting(messages: Seq<Posted>) -> Seq<Gathered>
    decreases messages.len(),
{
    if messages.len() == 0 {
        Seq::empty()
    } else {
        let before = requesting(messages.drop_last());
        if messages.last().addresses@.len() == 0 {
            before
        } else {
            before.push(gathered(messages.last()))
        }
    }
}

/// The earliest message to include is not in the channel.
#[derive(Clone, Copy, Debug, PartialEq, Eq, Structural)]
pub struct AfterNotInChannel;

impl AfterNotInChannel {
    /// Returns a description of the error.
    pub fn message(&self) -> (text: String)
        ensures
            text@ == "after message is not in the channel"@,
    {
        "after message is not in the channel".to_owned()
    }
}

/// Goes through the messages of a channel, page by page, from the latest to the earliest.
#[derive(Clone, Copy, Debug)]
pub struct Gather {
    /// The channel.
    pub channel_id: ChannelId,
    /// The next page ends just before this message, or with the latest one.
    pub before: Option<MessageId>,
    /// The earliest message to include.
    pub after: Option<MessageId>,
    /// Whether there are no more pages to go through.
    pub finished: bool,
}

/// Gather and parse into requests messages in a given channel, in reverse chronological order.
pub fn gather(
    channel_id: ChannelId,
    before: Option<MessageId>,
    after: Option<MessageId>,
) -> (gather: Gather)
    ensures
        gather == (Gather { channel_id, before, after, finished: false }),
{
    Gather { channel_id, before, after, finished: false }
}

impl Gather {
    /// Checks that the earliest message to include, which was found in a channel, was found in the
    /// right one.
    pub fn check_after(&self, found_in: ChannelId) -> (checked: Result<(), AfterNotInChannel>)
        ensures
            checked == (if found_in == self.channel_id {
                Ok::<(), AfterNotInChannel>(())
            } else {
                Err(AfterNotInChannel)
            }),
    {
        if found_in == self.channel_id {
            Ok(())
        } else {
            Err(AfterNotInChannel)
        }
    }

    /// Takes in the next page of messages, and returns those of its messages that make requests, up
    /// to the earliest one to include. It is the last page if it holds that message, or none.
    pub fn page(&mut self, messages: Vec<Posted>) -> (requests: Vec<Gathered>)
        ensures
            final(self).channel_id == old(self).channel_id,
            final(self).after == old(self).after,
            if old(self).finished {
                &&& requests@.len() == 0
                &&& *final(self) == *old(self)
            } else if messages@.len() == 0 {
                &&& requests@.len() == 0
                &&& final(self).finished
                &&& final(self).before == old(self).before
            } else {
                &&& requests@ == requesting(included(messages@, old(self).after))
                &&& final(self).finished == stops_in(messages@, old(self).after)
                &&& final(self).before == Some(included(messages@, old(self).after).last().id)
            },
    {
        let ghost all = messages@;
        let ghost after = self.after;
        let mut requests: Vec<Gathered> = Vec::new();
        if self.finished {
            return requests;
        }
        if messages.len() == 0 {
            self.finished = true;
            return requests;
        }
        let mut rest = messages;
        let count: usize = rest.len();
        let mut i: usize = 0;
        assert(all.take(0) =~= Seq::empty());
        assert(rest@ =~= all.skip(0));
        while i < count && !self.finished
            invariant
                i <= count,
                count == all.len(),
                after == self.after,
                self.channel_id == old(self).channel_id,
                rest@ == all.skip(i as int),
                requests@ == requesting(all.take(i as int)),
                self.finished == stops_in(all.take(i as int), after),
                i > 0 ==> self.before == Some(all[i - 1].id),
                i > 0 ==> !stops_in(all.take(i - 1), after),
            decreases count - i,
        {
            let message = rest.remove(0);
            assert(message == all[i as int]);
            assert(rest@ =~= all.skip(i + 1));
            let Posted { timestamp, author, id, addresses } = message;
            assert(all.take(i + 1).drop_last() =~= all.take(i as int));
            assert(all.take(i + 1).last() == all[i as int]);
            if let Some(request) = Request::try_new(addresses) {
                requests.push(Gathered { timestamp, author, id, request });
            }
            self.before = Some(id);
            if let Some(after) = self.after {
                if after == id {
                    self.finished = true;
                }
            }
            proof {
                lemma_stops_in_push(all.take(i as int), all[i as int], after);
                assert(all.take(i as int).push(all[i as int]) =~= all.take(i + 1));
            }
            i = i + 1;
        }
        proof {
            let seen = all.take(i as int);
            if i < count {
                assert(all =~= seen + all.skip(i as int));
                lemma_included_of_stopped(seen, all.skip(i as int), after);
                lemma_stops_in_concat(seen, all.skip(i as int), after);
            } else {
                assert(seen =~= all);
            }
            assert(seen.drop_last() =~= all.take(i - 1));
            assert(included(all, after) == seen);
        }
        requests
    }
}

proof fn lemma_stops_in_push(messages: Seq<Posted>, message: Posted, after: Option<MessageId>)
    ensures
        stops_in(messages.push(message), after) == (stops_in(messages, after) || Some(message.id)
            == after),
{
    lemma_stops_in_concat(messages, seq![message], after);
    assert(messages.push(message) =~= messages + seq![message]);
    assert(stops_in(seq![message], after) == (Some(message.id) == after)) by {
        assert(seq![message][0] == message);
    }
}

proof fn lemma_stops_in_concat(first: Seq<Posted>, second: Seq<Posted>, after: Option<MessageId>)
    ensures
        stops_in(first + second, after) == (stops_in(first, after) || stops_in(second, after)),
{
    let all = first + second;
    if stops_in(first, after) {
        let i = choose|i: int| 0 <= i < first.len() && Some((#[trigger] first[i]).id) == after;
        assert(all[i] == first[i]);
    }
    if stops_in(second, after) {
        let i = choose|i: int| 0 <= i < second.len() && Some((#[trigger] second[i]).id) == after;
        assert(all[first.len() + i] == second[i]);
    }
    if stops_in(all, after) {
        let i = choose|i: int| 0 <= i < all.len() && Some((#[trigger] all[i]).id) == after;
        if i < first.len() {
            assert(all[i] == first[i]);
        } else {
            assert(all[i] == second[i - first.len()]);
        }
    }
}

proof fn lemma_included_of_stopped(
    first: Seq<Posted>,
    second: Seq<Posted>,
    after: Option<MessageId>,
)
    requires
        stops_in(first, after),
    ensures
        included(first + second, after) == included(first, after),
    decreases second.len(),
{
    let all = first + second;
    if second.len() == 0 {
        assert(all =~= first);
    } else {
        assert(all.drop_last() =~= first + second.drop_last());
        lemma_stops_in_concat(first, second.drop_last(), after);
        lemma_included_of_stopped(first, second.drop_last(), after);
    }
}

proof fn lemma_included_of_unstopped(
    first: Seq<Posted>,
    second: Seq<Posted>,
    after: Option<MessageId>,
)
    requires
        !stops_in(first, after),
    ensures
        included(first + second, after) == first + included(second, after),
    decreases second.len(),
{
    let all = first + second;
    if second.len() == 0 {
        assert(all =~= first);
        assert(first + included(second, after) =~= first);
        if first.len() > 0 {
            assert(first =~= first.drop_last() + seq![first.last()]);
            lemma_stops_in_concat(first.drop_last(), seq![first.last()], after);
        }
    } else {
        assert(all.drop_last() =~= first + second.drop_last());
        lemma_stops_in_concat(first, second.drop_last(), after);
        lemma_included_of_unstopped(first, second.drop_last(), after);
    }
}

proof fn lemma_requesting_concat(first: Seq<Posted>, second: Seq<Posted>)
    ensures
        requesting(first + second) == requesting(first) + requesting(second),
    decreases second.len(),
{
    let all = first + second;
    if second.len() == 0 {
        assert(all =~= first);
        assert(requesting(first) + requesting(second) =~= requesting(first));
    } else {
        assert(all.drop_last() =~= first + second.drop_last());
        lemma_requesting_concat(first, second.drop_last());
        assert(requesting(all) =~= requesting(first) + requesting(second));
    }
}

/// What going through some pages yields, as long as there are more to go through.
pub open spec fn gathered_from(pages: Seq<Seq<Posted>>, after: Option<MessageId>) -> Seq<Gathered>
    decreases pages.len(),
{
    if pages.len() == 0 {
        Seq::empty()
    } else {
        let before = gathered_from(pages.drop_last(), after);
        if finished_by(pages.drop_last(), after) {
            before
        } else {
            before + requesting(included(pages.last(), after))
        }
    }
}

/// Whether there are no more pages to go through after these.
pub open spec fn finished_by(pages: Seq<Seq<Posted>>, after: Option<MessageId>) -> bool {
    exists|i: int|
        0 <= i < pages.len() && ((#[trigger] pages[i]).len() == 0 || stops_in(pages[i], after))
}

/// How the messages are divided into pages makes no difference: what is gathered is every message
/// that makes a request, in order, from the latest to the earliest one to include, and none beyond.
pub proof fn law_pages_make_no_difference(pages: Seq<Seq<Posted>>, after: Option<MessageId>)
    requires
        forall|i: int| 0 <= i < pages.len() ==> (#[trigger] pages[i]).len() > 0,
    ensures
        gathered_from(pages, after) == requesting(included(pages.flatten(), after)),
        finished_by(pages, after) == stops_in(pages.flatten(), after),
    decreases pages.len(),
{
    if pages.len() == 0 {
        assert(pages.flatten() =~= Seq::empty());
    } else {
        let earlier = pages.drop_last();
        let last = pages.last();
        assert forall|i: int| 0 <= i < earlier.len() implies (#[trigger] earlier[i]).len() > 0 by {
            assert(earlier[i] == pages[i]);
        }
        law_pages_make_no_difference(earlier, after);
        earlier.lemma_flatten_push(last);
        assert(earlier.push(last) =~= pages);
        let before = earlier.flatten();
        assert(pages.flatten() == before + last);
        lemma_stops_in_concat(before, last, after);
        if stops_in(before, after) {
            lemma_included_of_stopped(before, last, after);
        } else {
            lemma_included_of_unstopped(before, last, after);
            lemma_included_of_unstopped(before, Seq::empty(), after);
            assert(before + Seq::<Posted>::empty() =~= before);
            assert(included(Seq::<Posted>::empty(), after) =~= Seq::empty());
            assert(before + included(Seq::<Posted>::empty(), after) =~= before);
            lemma_requesting_concat(before, included(last, after));
        }
        if finished_by(earlier, after) {
            let i = choose|i: int|
                0 <= i < earlier.len() && ((#[trigger] earlier[i]).len() == 0 || stops_in(
                    earlier[i],
                    after,
                ));
            assert(pages[i] == earlier[i]);
        }
        if stops_in(last, after) {
            assert(pages[pages.len() - 1] == last);
        }
        if finished_by(pages, after) && !stops_in(last, after) {
            let i = choose|i: int|
                0 <= i < pages.len() && ((#[trigger] pages[i]).len() == 0 || stops_in(
                    pages[i],
                    after,
                ));
            assert(pages[i] == earlier[i]);
        }
    }
}

/// A line of the export.
#[derive(Debug)]
pub struct Row {
    pub timestamp: String,
    pub user_name: String,
    pub user_discriminator: u16,
    pub user_id: UserId,
    pub message_id: MessageId,
    pub address: Address,
}

/// The line of the export for an address in a message.
pub open spec fn row_of(message: Gathered, address: Address) -> Row {
    Row {
        timestamp: message.timestamp,
        user_name: message.author.name,
        user_discriminator: message.author.discriminator,
        user_id: message.author.id,
        message_id: message.id,
        address,
    }
}

/// The lines of the export for a message: one for each valid address in it, unless a bot posted it.
pub open spec fn rows_of(message: Gathered) -> Seq<Row> {
    if message.author.bot {
        Seq::empty()
    } else {
        valid_of(message.request.addresses@).map_values(
            |address: Address| row_of(message, address),
        )
    }
}

impl History {
    /// Starts to go through the messages to export. Pages are asked for by the message after them,
    /// so that to include the last message the first page ends just before the next number.
    pub fn start(&self) -> (start: Gather)
        ensures
            start.channel_id == self.channel,
            start.after == self.after,
            !start.finished,
            start.before == (match self.before {
                Some(last) => if last.0 < u64::MAX {
                    Some(MessageId((last.0 + 1) as u64))
                } else {
                    None
                },
                None => None,
            }),
    {
        let before = match self.before {
            Some(last) => {
                if last.0 < u64::MAX {
                    Some(MessageId(last.0 + 1))
                } else {
                    None
                }
            },
            None => None,
        };
        gather(self.channel, before, self.after)
    }

    /// Returns the lines of the export for a message.
    pub fn rows(message: &Gathered) -> (rows: Vec<Row>)
        ensures
            rows@ == rows_of(*message),
    {
        let mut rows: Vec<Row> = Vec::new();
        if message.author.bot {
            assert(rows@ =~= rows_of(*message));
            return rows;
        }
        let addresses = message.request.addresses();
        let ghost make = |address: Address| row_of(*message, address);
        let mut i: usize = 0;
        assert(addresses@.take(0) =~= Seq::empty());
        assert(rows@ =~= valid_of(addresses@.take(0)).map_values(make));
        while i < addresses.len()
            invariant
                i <= addresses@.len(),
                make == (|address: Address| row_of(*message, address)),
                rows@ == valid_of(addresses@.take(i as int)).map_values(make),
            decreases addresses@.len() - i,
        {
            assert(addresses@.take(i + 1).drop_last() =~= addresses@.take(i as int));
            if let AddressOrAlmost::Address(address) = &addresses[i] {
                rows.push(
                    Row {
                        timestamp: message.timestamp.clone(),
                        user_name: message.author.name.clone(),
                        user_discriminator: message.author.discriminator,
                        user_id: message.author.id,
                        message_id: message.id,
                        address: (&**address).clone(),
                    },
                );
            }
            i = i + 1;
            assert(rows@ =~= valid_of(addresses@.take(i as int)).map_values(make));
        }
        assert(addresses@.take(i as int) =~= addresses@);
        assert(rows@ =~= rows_of(*message));
        rows
    }
}

/// The messages to include are the first ones, up to and with the earliest message to include: it is
/// the last of them if it is there, it is nowhere before, and if it is not there all are included.
pub proof fn law_included_up_to_the_earliest(messages: Seq<Posted>, after: Option<MessageId>)
    ensures
        ({
            let those = included(messages, after);
            &&& those.len() <= messages.len()
            &&& forall|i: int| 0 <= i < those.len() ==> #[trigger] those[i] == messages[i]
            &&& forall|i: int| 0 <= i < those.len() - 1 ==> Some((#[trigger] those[i]).id) != after
            &&& those.len() < messages.len() ==> those.len() > 0 && Some(those.last().id) == after
        }),
    decreases messages.len(),
{
    if messages.len() > 0 {
        let before = messages.drop_last();
        law_included_up_to_the_earliest(before, after);
        let those = included(messages, after);
        if stops_in(before, after) {
            let k = choose|k: int| 0 <= k < before.len() && Some((#[trigger] before[k]).id) == after;
            let fewer = included(before, after);
            if fewer.len() == before.len() {
                assert(fewer[k] == before[k]);
                assert(k == fewer.len() - 1);
            }
        } else {
            assert forall|i: int| 0 <= i < those.len() - 1 implies Some((#[trigger] those[i]).id)
                != after by {
                assert(before[i] == those[i]);
            }
        }
    }
}

/// The messages that make requests are those in which an address, or a text that looks like one, was
/// found, with all that is known of them, in order.
pub proof fn law_requests_are_the_messages_with_addresses(messages: Seq<Posted>)
    ensures
        requesting(messages) == messages.filter(
            |message: Posted| message.addresses@.len() > 0,
        ).map_values(
            |message: Posted|
                Gathered {
                    timestamp: message.timestamp,
                    author: message.author,
                    id: message.id,
                    request: Request { addresses: message.addresses },
                },
        ),
    decreases messages.len(),
{
    reveal(Seq::filter);
    let found = |message: Posted| message.addresses@.len() > 0;
    let make = |message: Posted|
        Gathered {
            timestamp: message.timestamp,
            author: message.author,
            id: message.id,
            request: Request { addresses: message.addresses },
        };
    if messages.len() > 0 {
        let (before, last) = (messages.drop_last(), messages.last());
        law_requests_are_the_messages_with_addresses(before);
        assert(before.filter(found).push(last).map_values(make) =~= before.filter(
            found,
        ).map_values(make).push(make(last)));
    } else {
        assert(requesting(messages) =~= messages.filter(found).map_values(make));
    }
}

/// The export has a line for each valid address of a message, in order, which names the address, the
/// user, the message and the time; and none for what a bot has posted.
pub proof fn law_rows_name_the_request(message: Gathered, k: int)
    ensures
        message.author.bot ==> rows_of(message).len() == 0,
        !message.author.bot ==> rows_of(message).len() == valid_of(message.request.addresses@).len(),
        0 <= k < rows_of(message).len() ==> {
            let row = rows_of(message)[k];
            &&& row.address == valid_of(message.request.addresses@)[k]
            &&& row.timestamp == message.timestamp
            &&& row.user_name == message.author.name
            &&& row.user_discriminator == message.author.discriminator
            &&& row.user_id == message.author.id
            &&& row.message_id == message.id
        },
{
}

/// Taking in a page carries on what the earlier pages gave: its requests come behind theirs, up to the
/// earliest message to include, and the next page ends before the last message that was looked at.
pub proof fn law_pages_carry_on(
    pages: Seq<Seq<Posted>>,
    gather: &mut Gather,
    messages: Vec<Posted>,
    requests: Vec<Gathered>,
)
    requires
        old(gather).finished == finished_by(pages, old(gather).after),
        call_ensures(Gather::page, (gather, messages), requests),
    ensures
        final(gather).channel_id == old(gather).channel_id,
        final(gather).after == old(gather).after,
        final(gather).finished == finished_by(pages.push(messages@), old(gather).after),
        gathered_from(pages.push(messages@), old(gather).after) == gathered_from(
            pages,
            old(gather).after,
        ) + requests@,
        !final(gather).finished ==> final(gather).before == Some(messages@.last().id),
{
    let after = old(gather).after;
    let all = pages.push(messages@);
    assert(all.drop_last() =~= pages);
    assert(all.last() == messages@);
    if finished_by(pages, after) {
        let i = choose|i: int|
            0 <= i < pages.len() && ((#[trigger] pages[i]).len() == 0 || stops_in(pages[i], after));
        assert(all[i] == pages[i]);
        assert(requests@ =~= Seq::empty());
    } else {
        assert(all[pages.len() as int] == messages@);
        if finished_by(all, after) {
            let i = choose|i: int|
                0 <= i < all.len() && ((#[trigger] all[i]).len() == 0 || stops_in(all[i], after));
            if i < pages.len() {
                assert(pages[i] == all[i]);
            }
        }
        if messages@.len() == 0 {
            assert(requests@ =~= Seq::empty());
            assert(included(messages@, after) =~= Seq::empty());
        } else if !stops_in(messages@, after) {
            if stops_in(messages@.drop_last(), after) {
                let i = choose|i: int|
                    0 <= i < messages@.drop_last().len() && Some(
                        (#[trigger] messages@.drop_last()[i]).id,
                    ) == after;
                assert(messages@[i] == messages@.drop_last()[i]);
            }
        }
    }
}

/// The export begins with the last message to include, and goes no later: the pages hold the messages
/// before the one at which they start.
pub proof fn law_last_message_is_included(history: History, start: Gather, message: MessageId)
    requires
        call_ensures(History::start, (&history,), start),
    ensures
        start.channel_id == history.channel,
        start.after == history.after,
        !start.finished,
        history.before is None ==> start.before is None,
        history.before matches Some(last) ==> (message.0 <= last.0 <==> (match start.before {
            Some(next) => message.0 < next.0,
            None => true,
        })),
{
}

/// A message or a channel may be named by its number or by its URL, and the earliest message to include
/// has to be in the channel.
pub proof fn law_messages_and_channels_are_read(
    server: Seq<char>,
    number: u64,
    s: &str,
    message: Result<MessageId, IdError>,
    channel: Result<ChannelId, IdError>,
    gather: Gather,
    found_in: ChannelId,
    checked: Result<(), AfterNotInChannel>,
)
    requires
        s@ == decimal_text(number as nat) || s@ == server.push('/') + decimal_text(number as nat),
        call_ensures(parse_message_id, (s,), message),
        call_ensures(parse_channel_id, (s,), channel),
        call_ensures(Gather::check_after, (&gather, found_in), checked),
    ensures
        message == Ok::<_, IdError>(MessageId(number)),
        channel == Ok::<_, IdError>(ChannelId(number)),
        checked is Ok <==> found_in == gather.channel_id,
{
    let text = decimal_text(number as nat);
    law_decimal_is_read_back(number);
    assert(is_digit(text[0]));
    assert(!text.contains('/'));
    lemma_split_last(server, '/', text);
    if s@ == text {
        lemma_split_joined(seq![text], '/');
        assert(seq![text].drop_last() =~= Seq::empty());
        reveal_with_fuel(join_text, 2);
        assert(join_text(seq![text], seq!['/']) =~= text);
    }
}

} // verus!
