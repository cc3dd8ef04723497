//! What became of a request to dispense tokens.

use vstd::prelude::*;
use vstd::string::StringExecFns;

use crate::address::Address;
use crate::address::TransactionId;
use crate::roles::admin_mentions;
use crate::roles::admins_text;
use crate::roles::lemma_admin_mentions_none;
use crate::roles::mention_admins;
use crate::roles::Role;
use crate::text::decimal;
use crate::text::decimal_text;
use crate::text::lemma_occurs_through;
use crate::text::lemma_occurs_within;
use crate::text::occurs;

verus! {

/// The response from a request to dispense tokens to a set of addresses.
#[derive(Debug)]
pub struct Response {
    /// The addresses that were successfully dispensed tokens.
    pub succeeded: Vec<(Address, TransactionId)>,
    /// The addresses that failed to be dispensed tokens, accompanied by a string describing the
    /// error.
    pub failed: Vec<(Address, String)>,
    /// The addresses that couldn't be parsed.
    pub unparsed: Vec<String>,
    /// The addresses that were limited from being dispensed tokens because only a certain number
    /// are permitted to be given tokens per message.
    pub remaining: Vec<Address>,
}

/// The lines for some items, one after another.
pub open spec fn lines<T>(items: Seq<T>, line: spec_fn(T) -> Seq<char>) -> Seq<char>
    decreases items.len(),
{
    if items.len() == 0 {
        Seq::empty()
    } else {
        lines(items.drop_last(), line) + line(items.last())
    }
}

/// The lines for an address that was sent tokens, and the transaction that sent them.
pub open spec fn succeeded_line() -> spec_fn((Address, TransactionId)) -> Seq<char> {
    |item: (Address, TransactionId)|
        "\n`"@ + item.0.short@ + "`\ntry `pcli v tx "@ + item.1.text@
            + "`\nor visit https://app.testnet.penumbra.zone/#/tx/"@ + item.1.text@
}

/// The line for an address that could not be sent tokens, and the reason.
pub open spec fn failed_line() -> spec_fn((Address, String)) -> Seq<char> {
    |item: (Address, String)| "\n`"@ + item.0.encoded@ + "` (error: "@ + item.1@ + ")"@
}

/// The line for a text that is no address.
pub open spec fn unparsed_line() -> spec_fn(String) -> Seq<char> {
    |item: String| "\n`"@ + item@ + "`"@
}

/// The line for an address.
pub open spec fn address_line() -> spec_fn(Address) -> Seq<char> {
    |item: Address| "\n`"@ + item.encoded@ + "`"@
}

/// The part of the summary on the addresses that were sent tokens.
pub open spec fn succeeded_text(succeeded: Seq<(Address, TransactionId)>) -> Seq<char> {
    if succeeded.len() == 0 {
        Seq::empty()
    } else {
        "Successfully sent tokens to the following addresses:"@ + lines(succeeded, succeeded_line())
    }
}

/// The text that calls for the administrators of a guild with these roles: it mentions their roles,
/// if there are any.
pub open spec fn summoned_admins(roles: Seq<Role>) -> Seq<char> {
    if admin_mentions(roles).len() == 0 {
        "admins"@
    } else {
        admins_text(roles)
    }
}

/// The part of the summary on the addresses that could not be sent tokens.
pub open spec fn failed_text(failed: Seq<(Address, String)>, roles: Seq<Role>) -> Seq<char> {
    if failed.len() == 0 {
        Seq::empty()
    } else {
        "Failed to send tokens to the following addresses:"@ + lines(failed, failed_line()) + "\n"@
            + summoned_admins(roles) + ": you may want to investigate this error :)"@
    }
}

/// The part of the summary on the texts that are no addresses.
pub open spec fn unparsed_text(unparsed: Seq<String>) -> Seq<char> {
    if unparsed.len() == 0 {
        Seq::empty()
    } else {
        "\nThe following _look like_ Penumbra addresses, but are invalid (maybe a typo or old address version?):"@
            + lines(unparsed, unparsed_line())
    }
}

/// The part of the summary on the addresses beyond the permitted number.
pub open spec fn remaining_text(remaining: Seq<Address>, permitted: nat) -> Seq<char> {
    if remaining.len() == 0 {
        Seq::empty()
    } else {
        "\nI'm only allowed to send tokens to addresses "@ + decimal_text(permitted)
            + " at a time; try again later to get tokens for the following addresses:"@ + lines(
            remaining,
            address_line(),
        )
    }
}

/// Adds the part on the texts that are no addresses.
pub fn append_unparsed(out: &mut String, unparsed: &Vec<String>)
    ensures
        final(out)@ == old(out)@ + unparsed_text(unparsed@),
{
    if unparsed.len() == 0 {
        assert(out@ =~= old(out)@ + unparsed_text(unparsed@));
        return;
    }
    out.append(
        "\nThe following _look like_ Penumbra addresses, but are invalid (maybe a typo or old address version?):",
    );
    let ghost before = out@;
    let mut i: usize = 0;
    assert(before =~= before + lines(unparsed@.take(0), unparsed_line()));
    while i < unparsed.len()
        invariant
            i <= unparsed@.len(),
            out@ == before + lines(unparsed@.take(i as int), unparsed_line()),
        decreases unparsed@.len() - i,
    {
        out.append("\n`");
        out.append(unparsed[i].as_str());
        out.append("`");
        assert(unparsed@.take(i + 1).drop_last() =~= unparsed@.take(i as int));
        i = i + 1;
        assert(out@ =~= before + lines(unparsed@.take(i as int), unparsed_line()));
    }
    assert(unparsed@.take(i as int) =~= unparsed@);
    assert(out@ =~= old(out)@ + unparsed_text(unparsed@));
}

/// Adds the part on the addresses beyond the permitted number.
pub fn append_remaining(out: &mut String, remaining: &Vec<Address>, permitted: usize)
    ensures
        final(out)@ == old(out)@ + remaining_text(remaining@, permitted as nat),
{
    if remaining.len() == 0 {
        assert(out@ =~= old(out)@ + remaining_text(remaining@, permitted as nat));
        return;
    }
    out.append("\nI'm only allowed to send tokens to addresses ");
    out.append(decimal(permitted as u64).as_str());
    out.append(" at a time; try again later to get tokens for the following addresses:");
    let ghost before = out@;
    let mut i: usize = 0;
    assert(before =~= before + lines(remaining@.take(0), address_line()));
    while i < remaining.len()
        invariant
            i <= remaining@.len(),
            out@ == before + lines(remaining@.take(i as int), address_line()),
        decreases remaining@.len() - i,
    {
        out.append("\n`");
        out.append(remaining[i].encoded.as_str());
        out.append("`");
        assert(remaining@.take(i + 1).drop_last() =~= remaining@.take(i as int));
        i = i + 1;
        assert(out@ =~= before + lines(remaining@.take(i as int), address_line()));
    }
    assert(remaining@.take(i as int) =~= remaining@);
    assert(out@ =~= old(out)@ + remaining_text(remaining@, permitted as nat));
}

impl Response {
    /// Returns the addresses that were successfully dispensed tokens.
    pub fn succeeded(&self) -> (succeeded: &[(Address, TransactionId)])
        ensures
            succeeded@ == self.succeeded@,
    {
        self.succeeded.as_slice()
    }

    /// Returns the addresses that failed to be dispensed tokens, accompanied by a string describing
    /// the error.
    pub fn failed(&self) -> (failed: &[(Address, String)])
        ensures
            failed@ == self.failed@,
    {
        self.failed.as_slice()
    }

    /// Returns the addresses that couldn't be parsed.
    pub fn unparsed(&self) -> (unparsed: &[String])
        ensures
            unparsed@ == self.unparsed@,
    {
        self.unparsed.as_slice()
    }

    /// Returns the addresses that were limited from being dispensed tokens because only a certain
    /// number are permitted to be given tokens per message.
    pub fn remaining(&self) -> (remaining: &[Address])
        ensures
            remaining@ == self.remaining@,
    {
        self.remaining.as_slice()
    }

    /// Whether all addresses were successfully dispensed tokens.
    pub open spec fn is_complete_success(self) -> bool {
        self.failed@.len() == 0 && self.unparsed@.len() == 0 && self.remaining@.len() == 0
    }

    /// Whether no address was successfully dispensed tokens, though there were some.
    pub open spec fn is_complete_failure(self) -> bool {
        self.succeeded@.len() == 0 && !self.is_complete_success()
    }

    /// Returns `true` only if all addresses were successfully dispensed tokens.
    pub fn complete_success(&self) -> (complete: bool)
        ensures
            complete == self.is_complete_success(),
    {
        self.failed.is_empty() && self.unparsed.is_empty() && self.remaining.is_empty()
    }

    /// Returns `true` only if no addresses were successfully dispensed tokens.
    pub fn complete_failure(&self) -> (complete: bool)
        ensures
            complete == self.is_complete_failure(),
    {
        self.succeeded.is_empty() && !self.complete_success()
    }

    /// The text of [`Response::summary`].
    pub open spec fn summary_text(self, roles: Seq<Role>) -> Seq<char> {
        succeeded_text(self.succeeded@) + failed_text(self.failed@, roles) + unparsed_text(
            self.unparsed@,
        ) + remaining_text(self.remaining@, self.succeeded@.len())
    }

    fn append_succeeded(&self, out: &mut String)
        ensures
            final(out)@ == old(out)@ + succeeded_text(self.succeeded@),
    {
        let succeeded = &self.succeeded;
        if succeeded.len() == 0 {
            assert(out@ =~= old(out)@ + succeeded_text(succeeded@));
            return;
        }
        out.append("Successfully sent tokens to the following addresses:");
        let ghost before = out@;
        let mut i: usize = 0;
        assert(before =~= before + lines(succeeded@.take(0), succeeded_line()));
        while i < succeeded.len()
            invariant
                i <= succeeded@.len(),
                out@ == before + lines(succeeded@.take(i as int), succeeded_line()),
            decreases succeeded@.len() - i,
        {
            let item = &succeeded[i];
            out.append("\n`");
            out.append(item.0.short.as_str());
            out.append("`\ntry `pcli v tx ");
            out.append(item.1.text.as_str());
            out.append("`\nor visit https://app.testnet.penumbra.zone/#/tx/");
            out.append(item.1.text.as_str());
            assert(succeeded@.take(i + 1).drop_last() =~= succeeded@.take(i as int));
            i = i + 1;
            assert(out@ =~= before + lines(succeeded@.take(i as int), succeeded_line()));
        }
        assert(succeeded@.take(i as int) =~= succeeded@);
        assert(out@ =~= old(out)@ + succeeded_text(succeeded@));
    }

    fn append_failed(&self, out: &mut String, roles: &Vec<Role>)
        ensures
            final(out)@ == old(out)@ + failed_text(self.failed@, roles@),
    {
        let failed = &self.failed;
        if failed.len() == 0 {
            assert(out@ =~= old(out)@ + failed_text(failed@, roles@));
            return;
        }
        out.append("Failed to send tokens to the following addresses:");
        let ghost before = out@;
        let mut i: usize = 0;
        assert(before =~= before + lines(failed@.take(0), failed_line()));
        while i < failed.len()
            invariant
                i <= failed@.len(),
                out@ == before + lines(failed@.take(i as int), failed_line()),
            decreases failed@.len() - i,
        {
            let item = &failed[i];
            out.append("\n`");
            out.append(item.0.encoded.as_str());
            out.append("` (error: ");
            out.append(item.1.as_str());
            out.append(")");
            assert(failed@.take(i + 1).drop_last() =~= failed@.take(i as int));
            i = i + 1;
            assert(out@ =~= before + lines(failed@.take(i as int), failed_line()));
        }
        assert(failed@.take(i as int) =~= failed@);
        out.append("\n");
        match mention_admins(roles) {
            Some(mentions) => out.append(mentions.as_str()),
            None => out.append("admins"),
        }
        out.append(": you may want to investigate this error :)");
        assert(out@ =~= old(out)@ + failed_text(failed@, roles@));
    }

    /// Construct a string summarizing the response.
    ///
    /// This requires the roles of the server so that it can mention the administrator role(s) if an
    /// error occurred.
    pub fn summary(&self, roles: &Vec<Role>) -> (summary: String)
        ensures
            summary@ == self.summary_text(roles@),
    {
        let mut out = String::new();
        self.append_succeeded(&mut out);
        self.append_failed(&mut out, roles);
        append_unparsed(&mut out, &self.unparsed);
        append_remaining(&mut out, &self.remaining, self.succeeded.len());
        assert(out@ =~= self.summary_text(roles@));
        out
    }
}

/// The lines for some items are the lines for each of them, one after another.
pub proof fn lemma_lines<T>(items: Seq<T>, line: spec_fn(T) -> Seq<char>)
    ensures
        lines(items, line) == items.map_values(line).flatten(),
    decreases items.len(),
{
    if items.len() == 0 {
        assert(items.map_values(line) =~= Seq::empty());
        assert(items.map_values(line).flatten() =~= Seq::empty());
    } else {
        let before = items.drop_last();
        lemma_lines(before, line);
        before.map_values(line).lemma_flatten_push(line(items.last()));
        assert(items.map_values(line) =~= before.map_values(line).push(line(items.last())));
    }
}

/// The line for each item stands among the lines.
pub proof fn lemma_line_occurs<T>(items: Seq<T>, line: spec_fn(T) -> Seq<char>, i: int)
    requires
        0 <= i < items.len(),
    ensures
        occurs(line(items[i]), lines(items, line)),
    decreases items.len(),
{
    let all = lines(items, line);
    let front = lines(items.drop_last(), line);
    let none = Seq::<char>::empty();
    if i == items.len() - 1 {
        lemma_occurs_within(front, line(items[i]), none);
        assert(front + line(items[i]) + none =~= all);
    } else {
        lemma_line_occurs(items.drop_last(), line, i);
        lemma_occurs_within(none, front, line(items.last()));
        assert(none + front + line(items.last()) =~= all);
        lemma_occurs_through(line(items[i]), front, all);
    }
}

/// The summary has a part for each of the four lists that is not empty, in this order: a heading, and
/// a line or more for each item of the list, in the order of the list.
pub proof fn law_summary_goes_list_by_list(response: Response, roles: Seq<Role>)
    ensures
        ({
            let succeeded = if response.succeeded@.len() == 0 {
                Seq::empty()
            } else {
                "Successfully sent tokens to the following addresses:"@
                    + response.succeeded@.map_values(
                    |item: (Address, TransactionId)|
                        "\n`"@ + item.0.short@ + "`\ntry `pcli v tx "@ + item.1.text@
                            + "`\nor visit https://app.testnet.penumbra.zone/#/tx/"@
                            + item.1.text@,
                ).flatten()
            };
            let admins = if forall|i: int|
                0 <= i < roles.len() ==> !(#[trigger] roles[i]).administrator {
                "admins"@
            } else {
                admins_text(roles)
            };
            let failed = if response.failed@.len() == 0 {
                Seq::empty()
            } else {
                "Failed to send tokens to the following addresses:"@ + response.failed@.map_values(
                    |item: (Address, String)|
                        "\n`"@ + item.0.encoded@ + "` (error: "@ + item.1@ + ")"@,
                ).flatten() + "\n"@ + admins + ": you may want to investigate this error :)"@
            };
            let unparsed = if response.unparsed@.len() == 0 {
                Seq::empty()
            } else {
                "\nThe following _look like_ Penumbra addresses, but are invalid (maybe a typo or old address version?):"@
                    + response.unparsed@.map_values(
                    |item: String| "\n`"@ + item@ + "`"@,
                ).flatten()
            };
            let remaining = if response.remaining@.len() == 0 {
                Seq::empty()
            } else {
                "\nI'm only allowed to send tokens to addresses "@ + decimal_text(
                    response.succeeded@.len(),
                ) + " at a time; try again later to get tokens for the following addresses:"@
                    + response.remaining@.map_values(
                    |item: Address| "\n`"@ + item.encoded@ + "`"@,
                ).flatten()
            };
            response.summary_text(roles) == succeeded + failed + unparsed + remaining
        }),
{
    let succeeded = |item: (Address, TransactionId)|
        "\n`"@ + item.0.short@ + "`\ntry `pcli v tx "@ + item.1.text@
            + "`\nor visit https://app.testnet.penumbra.zone/#/tx/"@ + item.1.text@;
    let failed = |item: (Address, String)|
        "\n`"@ + item.0.encoded@ + "` (error: "@ + item.1@ + ")"@;
    let unparsed = |item: String| "\n`"@ + item@ + "`"@;
    let remaining = |item: Address| "\n`"@ + item.encoded@ + "`"@;
    lemma_lines(response.succeeded@, succeeded_line());
    lemma_lines(response.failed@, failed_line());
    lemma_lines(response.unparsed@, unparsed_line());
    lemma_lines(response.remaining@, address_line());
    assert(response.succeeded@.map_values(succeeded) =~= response.succeeded@.map_values(
        succeeded_line(),
    ));
    assert(response.failed@.map_values(failed) =~= response.failed@.map_values(failed_line()));
    assert(response.unparsed@.map_values(unparsed) =~= response.unparsed@.map_values(
        unparsed_line(),
    ));
    assert(response.remaining@.map_values(remaining) =~= response.remaining@.map_values(
        address_line(),
    ));
    lemma_admin_mentions_none(roles);
}

/// What stands in the lines of a part of the summary stands in the summary.
proof fn lemma_part_occurs(
    part: Seq<char>,
    line: Seq<char>,
    all: Seq<char>,
    head: Seq<char>,
    tail: Seq<char>,
)
    requires
        occurs(part, line),
        occurs(line, all),
    ensures
        occurs(part, head + all + tail),
{
    lemma_occurs_within(head, all, tail);
    lemma_occurs_through(line, all, head + all + tail);
    lemma_occurs_through(part, line, head + all + tail);
}

/// The summary tells of every success: of the address, by its short form, and of the transaction.
#[verifier::spinoff_prover]
pub proof fn law_summary_tells_of_every_success(response: Response, roles: Seq<Role>, i: int)
    requires
        0 <= i < response.succeeded@.len(),
    ensures
        occurs(response.succeeded@[i].0.short@, response.summary_text(roles)),
        occurs(response.succeeded@[i].1.text@, response.summary_text(roles)),
{
    let item = response.succeeded@[i];
    let line = succeeded_line()(item);
    let all = lines(response.succeeded@, succeeded_line());
    let head = "Successfully sent tokens to the following addresses:"@;
    let tail = failed_text(response.failed@, roles) + unparsed_text(response.unparsed@)
        + remaining_text(response.remaining@, response.succeeded@.len());
    assert(head + all + tail =~= response.summary_text(roles));
    lemma_line_occurs(response.succeeded@, succeeded_line(), i);
    let rest = "`\ntry `pcli v tx "@ + item.1.text@
        + "`\nor visit https://app.testnet.penumbra.zone/#/tx/"@ + item.1.text@;
    lemma_occurs_within("\n`"@, item.0.short@, rest);
    assert("\n`"@ + item.0.short@ + rest =~= line);
    lemma_part_occurs(item.0.short@, line, all, head, tail);
    let front = "\n`"@ + item.0.short@ + "`\ntry `pcli v tx "@ + item.1.text@
        + "`\nor visit https://app.testnet.penumbra.zone/#/tx/"@;
    lemma_occurs_within(front, item.1.text@, Seq::empty());
    assert(front + item.1.text@ + Seq::<char>::empty() =~= line);
    lemma_part_occurs(item.1.text@, line, all, head, tail);
}

/// The summary tells of every failure: of the address, and of the error.
#[verifier::spinoff_prover]
pub proof fn law_summary_tells_of_every_failure(response: Response, roles: Seq<Role>, i: int)
    requires
        0 <= i < response.failed@.len(),
    ensures
        occurs(response.failed@[i].0.encoded@, response.summary_text(roles)),
        occurs(response.failed@[i].1@, response.summary_text(roles)),
{
    let item = response.failed@[i];
    let line = failed_line()(item);
    let all = lines(response.failed@, failed_line());
    let head = succeeded_text(response.succeeded@)
        + "Failed to send tokens to the following addresses:"@;
    let tail = "\n"@ + summoned_admins(roles) + ": you may want to investigate this error :)"@
        + unparsed_text(response.unparsed@) + remaining_text(
        response.remaining@,
        response.succeeded@.len(),
    );
    assert(head + all + tail =~= response.summary_text(roles));
    lemma_line_occurs(response.failed@, failed_line(), i);
    let rest = "` (error: "@ + item.1@ + ")"@;
    lemma_occurs_within("\n`"@, item.0.encoded@, rest);
    assert("\n`"@ + item.0.encoded@ + rest =~= line);
    lemma_part_occurs(item.0.encoded@, line, all, head, tail);
    lemma_occurs_within("\n`"@ + item.0.encoded@ + "` (error: "@, item.1@, ")"@);
    lemma_part_occurs(item.1@, line, all, head, tail);
}

/// The summary tells of every text that is no address.
#[verifier::spinoff_prover]
pub proof fn law_summary_tells_of_every_unparsed_text(response: Response, roles: Seq<Role>, i: int)
    requires
        0 <= i < response.unparsed@.len(),
    ensures
        occurs(response.unparsed@[i]@, response.summary_text(roles)),
{
    let item = response.unparsed@[i];
    let all = lines(response.unparsed@, unparsed_line());
    let head = succeeded_text(response.succeeded@) + failed_text(response.failed@, roles)
        + "\nThe following _look like_ Penumbra addresses, but are invalid (maybe a typo or old address version?):"@;
    let tail = remaining_text(response.remaining@, response.succeeded@.len());
    assert(head + all + tail =~= response.summary_text(roles));
    lemma_line_occurs(response.unparsed@, unparsed_line(), i);
    lemma_occurs_within("\n`"@, item@, "`"@);
    lemma_part_occurs(item@, unparsed_line()(item), all, head, tail);
}

/// The summary tells of every address that is left.
#[verifier::spinoff_prover]
pub proof fn law_summary_tells_of_every_remaining_address(
    response: Response,
    roles: Seq<Role>,
    i: int,
)
    requires
        0 <= i < response.remaining@.len(),
    ensures
        occurs(response.remaining@[i].encoded@, response.summary_text(roles)),
{
    let item = response.remaining@[i];
    let all = lines(response.remaining@, address_line());
    let head = succeeded_text(response.succeeded@) + failed_text(response.failed@, roles)
        + unparsed_text(response.unparsed@) + "\nI'm only allowed to send tokens to addresses "@
        + decimal_text(response.succeeded@.len())
        + " at a time; try again later to get tokens for the following addresses:"@;
    let tail = Seq::<char>::empty();
    assert(head + all + tail =~= response.summary_text(roles));
    lemma_line_occurs(response.remaining@, address_line(), i);
    lemma_occurs_within("\n`"@, item.encoded@, "`"@);
    lemma_part_occurs(item.encoded@, address_line()(item), all, head, tail);
}

/// The summary is empty just when there is nothing to tell: all four lists are.
pub proof fn law_only_nothing_is_summed_up_in_silence(response: Response, roles: Seq<Role>)
    ensures
        response.summary_text(roles).len() == 0 <==> response.succeeded@.len() == 0
            && response.failed@.len() == 0 && response.unparsed@.len() == 0
            && response.remaining@.len() == 0,
{
    reveal_strlit("Successfully sent tokens to the following addresses:");
    reveal_strlit("Failed to send tokens to the following addresses:");
    reveal_strlit(
        "\nThe following _look like_ Penumbra addresses, but are invalid (maybe a typo or old address version?):",
    );
    reveal_strlit("\nI'm only allowed to send tokens to addresses ");
}

/// A response is a complete success just when nothing went wrong, and a complete failure just when
/// something did and nothing succeeded: it is never both, and never a failure if something succeeded.
pub proof fn law_complete_success_and_failure(response: Response)
    ensures
        response.is_complete_success() <==> response.failed@.len() + response.unparsed@.len()
            + response.remaining@.len() == 0,
        response.is_complete_failure() <==> response.succeeded@.len() == 0
            && response.failed@.len() + response.unparsed@.len() + response.remaining@.len() > 0,
{
}

} // verus!
