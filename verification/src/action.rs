//! What a [`Worker`](crate::worker::Worker) is told to do.

use vstd::prelude::*;

use crate::address::AddressOrAlmost;
use crate::ids::ChannelId;
use crate::ids::GuildId;
use crate::ids::MessageId;
use crate::ids::UserId;
use crate::time::Duration;
use crate::time::Moment;

verus! {

/// Key for the queue of actions, under which the Discord client keeps the sending end.
#[derive(Clone, Copy, Debug)]
pub struct ActionQueue;

/// The message that an action goes back to.
#[derive(Clone, Copy, Debug, PartialEq, Eq, Structural)]
pub struct Origin {
    /// The user who posted it.
    pub user_id: UserId,
    /// The guild in which it was posted, if any.
    pub guild_id: Option<GuildId>,
    /// The channel in which it was posted.
    pub channel_id: ChannelId,
    /// Its number.
    pub message_id: MessageId,
}

/// Something to do about a message.
#[derive(Debug)]
pub enum Action {
    /// To dispense tokens.
    Dispense {
        /// The originating message that contained these addresses.
        message: Origin,
        /// The addresses matched in the originating message.
        addresses: Vec<AddressOrAlmost>,
    },
    /// To tell the user of the rate limit.
    RateLimit {
        /// The originating message that resulted in this rate-limit.
        message: Origin,
        /// The last time this request was fulfilled for the user.
        last_fulfilled: Moment,
        /// The rate limit duration.
        rate_limit: Duration,
        /// The addresses matched in the originating message.
        addresses: Vec<AddressOrAlmost>,
    },
}

} // verus!
