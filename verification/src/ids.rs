//! The identifiers by which Discord names users, channels, messages, servers and roles.

use vstd::prelude::*;

use crate::text::decimal_text;
use crate::text::is_digit;
use crate::text::law_decimal_is_read_back;
use crate::text::u64_value;

verus! {

/// The identifier of a user.
#[derive(Clone, Copy, Debug, PartialEq, Eq, Hash, Structural)]
pub struct UserId(pub u64);

/// The identifier of a channel.
#[derive(Clone, Copy, Debug, PartialEq, Eq, Hash, Structural)]
pub struct ChannelId(pub u64);

/// The identifier of a message.
#[derive(Clone, Copy, Debug, PartialEq, Eq, Hash, Structural)]
pub struct MessageId(pub u64);

/// The identifier of a guild, which is what Discord calls a server.
#[derive(Clone, Copy, Debug, PartialEq, Eq, Hash, Structural)]
pub struct GuildId(pub u64);

/// The identifier of a role in a guild.
#[derive(Clone, Copy, Debug, PartialEq, Eq, Hash, Structural)]
pub struct RoleId(pub u64);

/// The text that notifies a user when it stands in a message.
pub open spec fn user_mention(user: UserId) -> Seq<char> {
    "<@"@ + decimal_text(user.0 as nat) + ">"@
}

/// The text that notifies everyone who has a role when it stands in a message.
pub open spec fn role_mention(role: RoleId) -> Seq<char> {
    "<@&"@ + decimal_text(role.0 as nat) + ">"@
}

/// The number of the channel that `s` names: either the number alone, or the number inside the
/// text `<#...>` by which a message links to a channel.
pub open spec fn channel_value(s: Seq<char>) -> Option<u64> {
    if s.len() >= 3 && s[0] == '<' && s[1] == '#' && s.last() == '>' {
        u64_value(s.subrange(2, s.len() - 1))
    } else {
        u64_value(s)
    }
}

/// Writes a mention of a user with `serenity`'s `Mentionable::mention` for `UserId`, and claims
/// that it is the user's number in decimal between `<@` and `>`.
#[verifier::external_body]
fn serenity_mention_user(id: u64) -> (text: String)
    ensures
        text@ == user_mention(UserId(id)),
{
    serenity::prelude::Mentionable::mention(&serenity::model::id::UserId(id)).to_string()
}

/// Writes a mention of a role with `serenity`'s `Mentionable::mention` for `RoleId`, and claims
/// that it is the role's number in decimal between `<@&` and `>`.
#[verifier::external_body]
fn serenity_mention_role(id: u64) -> (text: String)
    ensures
        text@ == role_mention(RoleId(id)),
{
    serenity::prelude::Mentionable::mention(&serenity::model::id::RoleId(id)).to_string()
}

/// The error of `serenity` for a text that names no channel. It is carried as it is.
#[verifier::external_type_specification]
#[verifier::external_body]
pub struct ExChannelIdParseError(serenity::model::misc::ChannelIdParseError);

/// Reads a channel's number with the `FromStr` of `serenity`'s `ChannelId`, and claims that it
/// accepts the number alone, or the number between `<#` and `>`, and nothing else.
#[verifier::external_body]
fn serenity_parse_channel(s: &str) -> (id: Result<u64, serenity::model::misc::ChannelIdParseError>)
    ensures
        match channel_value(s@) {
            Some(number) => id == Ok::<u64, serenity::model::misc::ChannelIdParseError>(number),
            None => id is Err,
        },
{
    s.parse::<serenity::model::id::ChannelId>().map(|id| id.0)
}

impl UserId {
    /// Returns the text that notifies this user when it stands in a message.
    pub fn mention(&self) -> (text: String)
        ensures
            text@ == user_mention(*self),
    {
        serenity_mention_user(self.0)
    }
}

impl RoleId {
    /// Returns the text that notifies everyone who has this role when it stands in a message.
    pub fn mention(&self) -> (text: String)
        ensures
            text@ == role_mention(*self),
    {
        serenity_mention_role(self.0)
    }
}

impl ChannelId {
    /// Reads a channel's number, written alone or as a link to the channel.
    pub fn parse(s: &str) -> (id: Option<ChannelId>)
        ensures
            id == (match channel_value(s@) {
                Some(number) => Some(ChannelId(number)),
                None => None,
            }),
    {
        match serenity_parse_channel(s) {
            Ok(number) => Some(ChannelId(number)),
            Err(_) => None,
        }
    }
}

/// A user or a role is mentioned by its number, between `<@`, or `<@&`, and `>`; and the number of a
/// channel is read, alone as between `<#` and `>`.
pub proof fn law_numbers_identify(user: UserId, role: RoleId, channel: u64)
    ensures
        ({
            let mention = user_mention(user);
            &&& mention.take(2) == seq!['<', '@']
            &&& mention.last() == '>'
            &&& u64_value(mention.subrange(2, mention.len() - 1)) == Some(user.0)
        }),
        ({
            let mention = role_mention(role);
            &&& mention.take(3) == seq!['<', '@', '&']
            &&& mention.last() == '>'
            &&& u64_value(mention.subrange(3, mention.len() - 1)) == Some(role.0)
        }),
        channel_value(decimal_text(channel as nat)) == Some(channel),
        channel_value(seq!['<', '#'] + decimal_text(channel as nat) + seq!['>']) == Some(channel),
{
    reveal_strlit("<@");
    reveal_strlit("<@&");
    reveal_strlit(">");
    law_decimal_is_read_back(user.0);
    law_decimal_is_read_back(role.0);
    law_decimal_is_read_back(channel);
    let mention = user_mention(user);
    assert(mention.take(2) =~= seq!['<', '@']);
    assert(mention.subrange(2, mention.len() - 1) =~= decimal_text(user.0 as nat));
    let mention = role_mention(role);
    assert(mention.take(3) =~= seq!['<', '@', '&']);
    assert(mention.subrange(3, mention.len() - 1) =~= decimal_text(role.0 as nat));
    let number = decimal_text(channel as nat);
    assert(is_digit(number[0]));
    let link = seq!['<', '#'] + number + seq!['>'];
    assert(link.subrange(2, link.len() - 1) =~= number);
}

} // verus!
