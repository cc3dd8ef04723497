//! A worker that carries out [`Action`]s: it says what to reply to the messages.

use vstd::prelude::*;
use vstd::string::StringExecFns;

use crate::action::Action;
use crate::action::Origin;
use crate::address::Address;
use crate::address::AddressOrAlmost;
use crate::address::Value;
use crate::handler::wait_notice;
use crate::handler::wait_text;
use crate::ids::GuildId;
use crate::responder::dispense::handled;
use crate::responder::dispense::invalid_of;
use crate::responder::dispense::left_over;
use crate::responder::dispense::valid_of;
use crate::responder::dispense::Dispense;
use crate::responder::response::address_line;
use crate::responder::response::append_remaining;
use crate::responder::response::append_unparsed;
use crate::responder::response::failed_line;
use crate::responder::response::lemma_lines;
use crate::responder::response::lines;
use crate::responder::response::remaining_text;
use crate::responder::response::unparsed_line;
use crate::responder::response::unparsed_text;
use crate::roles::admins_text;
use crate::roles::mention_admins;
use crate::roles::Role;
use crate::text::decimal_text;
use crate::time::elapsed_nanos;
use crate::time::Duration;
use crate::time::Moment;

verus! {

/// What became of the addresses in a message.
#[derive(Debug)]
pub struct Dispensed {
    /// The addresses to which tokens were successfully dispensed.
    pub succeeded: Vec<Address>,
    /// The addresses to which tokens could not be dispensed, each with the error.
    pub failed: Vec<(Address, String)>,
    /// The texts which couldn't be parsed.
    pub unparsed: Vec<String>,
    /// The addresses beyond the permitted number.
    pub remaining: Vec<Address>,
}

/// The text that calls for the administrators of a guild with these roles, or for administrators in
/// general if there is no guild.
pub open spec fn called_admins(guild: Option<GuildId>, roles: Seq<Role>) -> Seq<char> {
    match guild {
        Some(_) => admins_text(roles),
        None => "Admin(s)"@,
    }
}

/// Writes the text that calls for the administrators.
pub fn call_admins(guild: Option<GuildId>, roles: &Vec<Role>) -> (text: String)
    ensures
        text@ == called_admins(guild, roles@),
{
    if guild.is_none() {
        return "Admin(s)".to_owned();
    }
    match mention_admins(roles) {
        Some(mentions) => mentions,
        None => {
            let text = String::new();
            assert(text@ =~= admins_text(roles@));
            text
        },
    }
}

/// The part of the summary on the addresses to which tokens were dispensed.
pub open spec fn dispensed_text(succeeded: Seq<Address>) -> Seq<char> {
    if succeeded.len() == 0 {
        Seq::empty()
    } else {
        "Successfully sent tokens to the following addresses:"@ + lines(succeeded, address_line())
    }
}

/// The part of the summary on the addresses to which tokens could not be dispensed.
pub open spec fn undispensed_text(failed: Seq<(Address, String)>, admins: Seq<char>) -> Seq<char> {
    if failed.len() == 0 {
        Seq::empty()
    } else {
        "Failed to send tokens to the following addresses:\n"@ + lines(failed, failed_line()) + "\n"@
            + admins + ": you may want to investigate this error :)"@
    }
}

fn append_dispensed(out: &mut String, succeeded: &Vec<Address>)
    ensures
        final(out)@ == old(out)@ + dispensed_text(succeeded@),
{
    if succeeded.len() == 0 {
        assert(out@ =~= old(out)@ + dispensed_text(succeeded@));
        return;
    }
    out.append("Successfully sent tokens to the following addresses:");
    let ghost before = out@;
    let mut i: usize = 0;
    assert(before =~= before + lines(succeeded@.take(0), address_line()));
    while i < succeeded.len()
        invariant
            i <= succeeded@.len(),
            out@ == before + lines(succeeded@.take(i as int), address_line()),
        decreases succeeded@.len() - i,
    {
        out.append("\n`");
        out.append(succeeded[i].encoded.as_str());
        out.append("`");
        assert(succeeded@.take(i + 1).drop_last() =~= succeeded@.take(i as int));
        i = i + 1;
        assert(out@ =~= before + lines(succeeded@.take(i as int), address_line()));
    }
    assert(succeeded@.take(i as int) =~= succeeded@);
    assert(out@ =~= old(out)@ + dispensed_text(succeeded@));
}

fn append_undispensed(out: &mut String, failed: &Vec<(Address, String)>, admins: &String)
    ensures
        final(out)@ == old(out)@ + undispensed_text(failed@, admins@),
{
    if failed.len() == 0 {
        assert(out@ =~= old(out)@ + undispensed_text(failed@, admins@));
        return;
    }
    out.append("Failed to send tokens to the following addresses:\n");
    let ghost before = out@;
    let mut i: usize = 0;
    assert(before =~= before + lines(failed@.take(0), failed_line()));
    while i < failed.len()
        invariant
            i <= failed@.len(),
            out@ == before + lines(failed@.take(i as int), failed_line()),
        decreases failed@.len() - i,
    {
        let item = &failed[i];
        out.append("\n`");
        out.append(item.0.encoded.as_str());
        out.append("` (error: ");
        out.append(item.1.as_str());
        out.append(")");
        assert(failed@.take(i + 1).drop_last() =~= failed@.take(i as int));
        i = i + 1;
        assert(out@ =~= before + lines(failed@.take(i as int), failed_line()));
    }
    assert(failed@.take(i as int) =~= failed@);
    out.append("\n");
    out.append(admins.as_str());
    out.append(": you may want to investigate this error :)");
    assert(out@ =~= old(out)@ + undispensed_text(failed@, admins@));
}

/// The summary of what became of the addresses in a message that was posted in a guild with these
/// roles, or in none.
pub open spec fn dispense_summary(
    succeeded: Seq<Address>,
    failed: Seq<(Address, String)>,
    unparsed: Seq<String>,
    remaining: Seq<Address>,
    permitted: nat,
    guild: Option<GuildId>,
    roles: Seq<Role>,
) -> Seq<char> {
    dispensed_text(succeeded) + undispensed_text(failed, called_admins(guild, roles)) + unparsed_text(
        unparsed,
    ) + remaining_text(remaining, permitted)
}

/// A worker that carries out actions.
#[derive(Clone, Copy, Debug)]
pub struct Worker {
    /// Maximum number of addresses to handle per message.
    pub max_addresses_per_message: usize,
}

impl Worker {
    /// Makes a worker.
    pub fn new(max_addresses_per_message: usize) -> (worker: Self)
        ensures
            worker == (Worker { max_addresses_per_message }),
    {
        Worker { max_addresses_per_message }
    }

    /// Dispenses tokens to the addresses from the end of the list, up to the maximum number.
    pub fn dispense(&self, addresses: Vec<AddressOrAlmost>) -> (dispensed: Dispensed)
        ensures
            ({
                let max = self.max_addresses_per_message as nat;
                let rest = left_over(addresses@, max);
                &&& dispensed.succeeded@ == valid_of(handled(addresses@, max))
                &&& dispensed.failed@ == Seq::<(Address, String)>::empty()
                &&& dispensed.unparsed@ == invalid_of(handled(addresses@, max)) + invalid_of(rest)
                &&& dispensed.remaining@ == valid_of(rest)
            }),
    {
        let values: Vec<Value> = Vec::new();
        let (dispense, requests) = Dispense::plan(
            addresses,
            self.max_addresses_per_message,
            &values,
        );
        let mut succeeded: Vec<Address> = Vec::new();
        let mut i: usize = 0;
        while i < requests.len()
            invariant
                i <= requests@.len(),
                requests@.len() == dispense@.sent.len(),
                forall|j: int|
                    0 <= j < requests@.len() ==> (#[trigger] requests@[j]).0 == dispense@.sent[j],
                succeeded@ == dispense@.sent.take(i as int),
            decreases requests@.len() - i,
        {
            succeeded.push(requests[i].0.clone());
            i = i + 1;
            assert(succeeded@ =~= dispense@.sent.take(i as int));
        }
        assert(succeeded@ =~= dispense@.sent);
        let response = dispense.finish();
        Dispensed {
            succeeded,
            failed: Vec::new(),
            unparsed: response.unparsed,
            remaining: response.remaining,
        }
    }

    /// Writes the summary of what became of the addresses in a message.
    pub fn reply_dispense_summary(
        &self,
        dispensed: &Dispensed,
        message: &Origin,
        roles: &Vec<Role>,
    ) -> (reply: String)
        ensures
            reply@ == dispense_summary(
                dispensed.succeeded@,
                dispensed.failed@,
                dispensed.unparsed@,
                dispensed.remaining@,
                self.max_addresses_per_message as nat,
                message.guild_id,
                roles@,
            ),
    {
        let mut out = String::new();
        append_dispensed(&mut out, &dispensed.succeeded);
        let admins = call_admins(message.guild_id, roles);
        append_undispensed(&mut out, &dispensed.failed, &admins);
        append_unparsed(&mut out, &dispensed.unparsed);
        append_remaining(&mut out, &dispensed.remaining, self.max_addresses_per_message);
        assert(out@ =~= dispense_summary(
            dispensed.succeeded@,
            dispensed.failed@,
            dispensed.unparsed@,
            dispensed.remaining@,
            self.max_addresses_per_message as nat,
            message.guild_id,
            roles@,
        ));
        out
    }

    /// Writes the reply that tells a user of the rate limit.
    pub fn rate_limit(&self, rate_limit: Duration, last_fulfilled: Moment, now: Moment) -> (reply:
        String)
        requires
            elapsed_nanos(last_fulfilled, now) <= rate_limit@,
        ensures
            reply@ == wait_text((rate_limit@ - elapsed_nanos(last_fulfilled, now)) as nat, 3),
    {
        wait_notice(last_fulfilled, rate_limit, now, 3)
    }

    /// Carries out an action, and returns the message to reply to and the reply. `roles` are those
    /// of the guild in which the message was posted, if there is one.
    pub fn run(&self, action: Action, roles: &Vec<Role>, now: Moment) -> (done: (Origin, String))
        requires
            action matches Action::RateLimit { last_fulfilled, rate_limit, .. } ==> elapsed_nanos(
                last_fulfilled,
                now,
            ) <= rate_limit@,
        ensures
            match action {
                Action::Dispense { message, addresses } => {
                    let max = self.max_addresses_per_message as nat;
                    let rest = left_over(addresses@, max);
                    &&& done.0 == message
                    &&& done.1@ == dispense_summary(
                        valid_of(handled(addresses@, max)),
                        Seq::empty(),
                        invalid_of(handled(addresses@, max)) + invalid_of(rest),
                        valid_of(rest),
                        max,
                        message.guild_id,
                        roles@,
                    )
                },
                Action::RateLimit { message, last_fulfilled, rate_limit, .. } => {
                    &&& done.0 == message
                    &&& done.1@ == wait_text(
                        (rate_limit@ - elapsed_nanos(last_fulfilled, now)) as nat,
                        3,
                    )
                },
            },
    {
        match action {
            Action::Dispense { message, addresses } => {
                let dispensed = self.dispense(addresses);
                let reply = self.reply_dispense_summary(&dispensed, &message, roles);
                (message, reply)
            },
            Action::RateLimit { message, last_fulfilled, rate_limit, addresses: _ } => {
                (message, self.rate_limit(rate_limit, last_fulfilled, now))
            },
        }
    }
}

/// The summary has a part for each of the four lists that is not empty, in this order: a heading, and
/// a line for each item of the list, in the order of the list.
pub proof fn law_summary_goes_list_by_list(
    succeeded: Seq<Address>,
    failed: Seq<(Address, String)>,
    unparsed: Seq<String>,
    remaining: Seq<Address>,
    permitted: nat,
    guild: Option<GuildId>,
    roles: Seq<Role>,
)
    ensures
        ({
            let address = |item: Address| "\n`"@ + item.encoded@ + "`"@;
            let first = if succeeded.len() == 0 {
                Seq::empty()
            } else {
                "Successfully sent tokens to the following addresses:"@ + succeeded.map_values(
                    address,
                ).flatten()
            };
            let second = if failed.len() == 0 {
                Seq::empty()
            } else {
                "Failed to send tokens to the following addresses:\n"@ + failed.map_values(
                    |item: (Address, String)|
                        "\n`"@ + item.0.encoded@ + "` (error: "@ + item.1@ + ")"@,
                ).flatten() + "\n"@ + (if guild is Some {
                    admins_text(roles)
                } else {
                    "Admin(s)"@
                }) + ": you may want to investigate this error :)"@
            };
            let third = if unparsed.len() == 0 {
                Seq::empty()
            } else {
                "\nThe following _look like_ Penumbra addresses, but are invalid (maybe a typo or old address version?):"@
                    + unparsed.map_values(|item: String| "\n`"@ + item@ + "`"@).flatten()
            };
            let fourth = if remaining.len() == 0 {
                Seq::empty()
            } else {
                "\nI'm only allowed to send tokens to addresses "@ + decimal_text(permitted)
                    + " at a time; try again later to get tokens for the following addresses:"@
                    + remaining.map_values(address).flatten()
            };
            dispense_summary(succeeded, failed, unparsed, remaining, permitted, guild, roles)
                == first + second + third + fourth
        }),
{
    let address = |item: Address| "\n`"@ + item.encoded@ + "`"@;
    let failure = |item: (Address, String)|
        "\n`"@ + item.0.encoded@ + "` (error: "@ + item.1@ + ")"@;
    let text = |item: String| "\n`"@ + item@ + "`"@;
    lemma_lines(succeeded, address_line());
    lemma_lines(failed, failed_line());
    lemma_lines(unparsed, unparsed_line());
    lemma_lines(remaining, address_line());
    assert(succeeded.map_values(address) =~= succeeded.map_values(address_line()));
    assert(failed.map_values(failure) =~= failed.map_values(failed_line()));
    assert(unparsed.map_values(text) =~= unparsed.map_values(unparsed_line()));
    assert(remaining.map_values(address) =~= remaining.map_values(address_line()));
}

/// A reply goes to the message that it is about. One that dispenses says nothing of a message without
/// pieces, and one that holds back tells how long it is until the limit has passed.
pub proof fn law_replies_go_to_their_message(
    worker: Worker,
    action: Action,
    roles: Vec<Role>,
    now: Moment,
    done: (Origin, String),
)
    requires
        call_ensures(Worker::run, (&worker, action, &roles, now), done),
    ensures
        action matches Action::Dispense { message, .. } ==> done.0 == message,
        action matches Action::RateLimit { message, .. } ==> done.0 == message,
        action matches Action::Dispense { addresses, .. } ==> (addresses@.len() == 0
            ==> done.1@.len() == 0),
        action matches Action::RateLimit { last_fulfilled, rate_limit, .. } ==> (
        last_fulfilled.nanos <= now.nanos <= last_fulfilled.nanos + rate_limit@ ==> done.1@
            == wait_text((last_fulfilled.nanos + rate_limit@ - now.nanos) as nat, 3)),
{
    if let Action::Dispense { addresses, .. } = action {
        if addresses@.len() == 0 {
            assert(addresses@ =~= Seq::empty());
        }
    }
}

} // verus!
