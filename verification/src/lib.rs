//! A Discord and gRPC faucet for Penumbra test tokens: the rules by which it decides whom to
//! answer, what to send, and what to say.
//!
//! * [`handler`] reacts to the messages that are posted on Discord, within the rate limits that
//!   [`send_history`] keeps count of and [`rate_limit`] proves.
//! * [`scan`] finds what may be an address in a message.
//! * [`responder`] turns the addresses of a message into requests to send tokens, and the answers
//!   into a response.
//! * [`sender`] gathers such requests into batches, and sees each batch's transaction through.
//! * [`catchup`] answers what was posted while the bot was away.
//! * [`rpc`] answers calls over gRPC.
//! * [`opt`] is what the program can be asked to do, among it to export the requests of a channel.
//! * [`wallet`] reads the wallet file.
//! * [`worker`] carries out the [`action`]s that other parts of a bot queue for it.
//!
//! Nothing here reads or writes anything but the clock: the program around the library does.

pub mod action;
pub mod address;
pub mod catchup;
pub mod handler;
pub mod ids;
pub mod opt;
pub mod rate_limit;
pub mod responder;
pub mod roles;
pub mod rpc;
pub mod scan;
pub mod send_history;
pub mod sender;
pub mod text;
pub mod time;
pub mod wallet;
pub mod worker;

pub use catchup::Catchup;
pub use handler::Handler;
pub use opt::Opt;
pub use responder::Responder;
pub use sender::Sender;
pub use wallet::Wallet;
