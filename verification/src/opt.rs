//! Command-line facilities for running Galileo.
//!
//! See [`Opt`].

use vstd::prelude::*;
use vstd::string::StringExecFns;

use crate::ids::channel_value;
use crate::ids::ChannelId;
use crate::ids::MessageId;
use crate::opt::history::History;
use crate::opt::rpc::ServeRpc;
use crate::opt::serve::Serve;
use crate::text::decimal_text;
use crate::text::is_digit;
use crate::text::join_text;
use crate::text::law_decimal_is_read_back;
use crate::text::law_splitting_loses_nothing;
use crate::text::lemma_occurs_within;
use crate::text::lemma_split_last;
use crate::text::number_error;
use crate::text::occurs;
use crate::text::parse_u64;
use crate::text::split;
use crate::text::split_text;
use crate::text::u64_value;
use crate::text::NumberError;

pub mod history;
pub mod rpc;
pub mod serve;

verus! {

/// What the program was asked to do.
#[derive(Debug)]
pub struct Opt {
    pub command: Command,
}

/// The things that the program can do.
#[derive(Debug)]
pub enum Command {
    /// Run the bot, listening for Discord messages, dispensing tokens, and replying to users.
    Serve(Serve),
    /// Run the bot, listening for RPC calls, and responding as appropriate.
    ServeRpc(ServeRpc),
    /// Export the history of requests from the channel as CSV to stdout.
    History(History),
}

/// A pair of channel id and message id that uniquely identifies a message.
#[derive(Clone, Copy, Debug, PartialEq, Eq, Structural)]
pub struct ChannelIdAndMessageId {
    pub channel_id: ChannelId,
    pub message_id: MessageId,
}

/// Why a text identifies no message.
#[derive(Debug, PartialEq, Eq)]
pub enum IdError {
    /// There are no two parts: this is the text.
    NoPair(String),
    /// The part for the channel is neither a number nor a link to a channel.
    Format,
    /// What should be the number of a channel is not a number.
    Channel,
    /// What should be the number of a message is not a number.
    Message,
    /// The part for the message is not a number, for this reason.
    Number(NumberError),
}

impl IdError {
    /// The text of [`IdError::message`].
    pub open spec fn message_text(self) -> Seq<char> {
        match self {
            IdError::NoPair(text) => "invalid channel/message id: "@ + text@,
            IdError::Format => "invalid id format"@,
            IdError::Channel => "invalid channel id"@,
            IdError::Message => "invalid message id"@,
            IdError::Number(error) => error.message_text(),
        }
    }

    /// Returns a description of the error.
    pub fn message(&self) -> (text: String)
        ensures
            text@ == self.message_text(),
    {
        match self {
            IdError::NoPair(given) => {
                let mut text = String::new();
                text.append("invalid channel/message id: ");
                text.append(given.as_str());
                assert(text@ =~= self.message_text());
                text
            },
            IdError::Format => "invalid id format".to_owned(),
            IdError::Channel => "invalid channel id".to_owned(),
            IdError::Message => "invalid message id".to_owned(),
            IdError::Number(error) => error.message(),
        }
    }
}

impl ChannelIdAndMessageId {
    /// Reads the last two parts of a text that slashes divide, such as the URL of a message: the
    /// channel, and the message.
    pub fn from_str(s: &str) -> (pair: Result<ChannelIdAndMessageId, IdError>)
        ensures
            ({
                let parts = split_text(s@, '/');
                if parts.len() < 2 {
                    pair matches Err(IdError::NoPair(text)) && text@ == s@
                } else {
                    match (channel_value(parts[parts.len() - 2]), u64_value(parts.last())) {
                        (Some(channel), Some(message)) => pair == Ok::<_, IdError>(
                            (ChannelIdAndMessageId {
                                channel_id: ChannelId(channel),
                                message_id: MessageId(message),
                            }),
                        ),
                        (None, _) => pair == Err::<ChannelIdAndMessageId, _>(IdError::Format),
                        (Some(_), None) => pair == Err::<ChannelIdAndMessageId, _>(
                            IdError::Number(number_error(parts.last())),
                        ),
                    }
                }
            }),
    {
        let parts = split(s, '/');
        let count: usize = parts.len();
        assert(split_text(s@, '/').len() == count);
        if count < 2 {
            return Err(IdError::NoPair(s.to_owned()));
        }
        assert(parts@[count - 2]@ == split_text(s@, '/')[count - 2]);
        assert(parts@[count - 1]@ == split_text(s@, '/')[count - 1]);
        match ChannelId::parse(parts[count - 2]) {
            None => Err(IdError::Format),
            Some(channel_id) => match parse_u64(parts[count - 1]) {
                Err(error) => Err(IdError::Number(error)),
                Ok(message) => Ok(
                    ChannelIdAndMessageId { channel_id, message_id: MessageId(message) },
                ),
            },
        }
    }
}

/// The service whose end ends the program.
#[derive(Clone, Copy, Debug, PartialEq, Eq, Structural)]
pub enum Service {
    /// The responder.
    Responder,
    /// The Discord client.
    Discord,
    /// The catching up on channels, if it could not be carried on.
    CatchUp,
    /// One of the channels that are caught up on.
    CaughtUpChannel,
    /// The gRPC server.
    Grpc,
}

impl Service {
    /// What an error in this service is announced by, if by anything.
    pub open spec fn context_text(self) -> Option<Seq<char>> {
        match self {
            Service::Responder => Some("error in responder service"@),
            Service::Discord => Some("error in discord client service"@),
            Service::CatchUp => Some("error in catchup service"@),
            Service::CaughtUpChannel => None,
            Service::Grpc => Some("error in grpc service"@),
        }
    }

    /// What is said of this service if it ends without an error.
    pub open spec fn end_text(self) -> Seq<char> {
        match self {
            Service::Responder => "responder service ended"@,
            Service::Discord => "discord client service ended"@,
            Service::CatchUp => "catchup service ended"@,
            Service::CaughtUpChannel => "catchup service ended"@,
            Service::Grpc => "grpc service ended"@,
        }
    }

    /// Returns what is said of this service if it ends without an error, which it should not: the
    /// bot runs until there is one.
    pub fn end(&self) -> (text: String)
        ensures
            text@ == self.end_text(),
    {
        match self {
            Service::Responder => "responder service ended".to_owned(),
            Service::Discord => "discord client service ended".to_owned(),
            Service::CatchUp => "catchup service ended".to_owned(),
            Service::CaughtUpChannel => "catchup service ended".to_owned(),
            Service::Grpc => "grpc service ended".to_owned(),
        }
    }

    /// Returns what an error in this service is announced by. An error in a channel that is caught
    /// up on is reported as it is.
    pub fn context(&self) -> (context: Option<String>)
        ensures
            match context {
                Some(context) => self.context_text() == Some(context@),
                None => self.context_text() is None,
            },
    {
        match self {
            Service::Responder => Some("error in responder service".to_owned()),
            Service::Discord => Some("error in discord client service".to_owned()),
            Service::CatchUp => Some("error in catchup service".to_owned()),
            Service::CaughtUpChannel => None,
            Service::Grpc => Some("error in grpc service".to_owned()),
        }
    }
}

/// What ends the program.
#[derive(Debug)]
pub enum RunEnd<E> {
    /// A service has ended, with or without an error.
    Ended { service: Service, result: Result<(), E> },
    /// The program was told to stop.
    Cancelled,
}

/// What lies behind the error that the program ends with.
#[derive(Debug)]
pub enum Cause<E> {
    /// The error of a service.
    Failed(E),
    /// Something else, in words.
    Told(String),
}

/// The error that the program ends with.
#[derive(Debug)]
pub struct RunError<E> {
    /// What it is announced by, if by anything.
    pub context: Option<String>,
    /// What lies behind it.
    pub cause: Cause<E>,
}

impl<E> RunEnd<E> {
    /// Returns the error that the program ends with. There is always one: the program runs until
    /// there is an error, so that a service that ends without one is an error, too.
    pub fn error(self) -> (error: RunError<E>)
        ensures
            match self {
                RunEnd::Ended { service, result } => {
                    &&& match error.context {
                        Some(context) => service.context_text() == Some(context@),
                        None => service.context_text() is None,
                    }
                    &&& match result {
                        Ok(()) => error.cause is Told && error.cause->Told_0@ == service.end_text(),
                        Err(failure) => error.cause == Cause::Failed(failure),
                    }
                },
                RunEnd::Cancelled => {
                    &&& error.context is None
                    &&& error.cause is Told
                    &&& error.cause->Told_0@ == "cancellation received"@
                },
            },
    {
        match self {
            RunEnd::Ended { service, result } => {
                let cause = match result {
                    Ok(()) => Cause::Told(service.end()),
                    Err(failure) => Cause::Failed(failure),
                };
                RunError { context: service.context(), cause }
            },
            RunEnd::Cancelled => RunError {
                context: None,
                cause: Cause::Told("cancellation received".to_owned()),
            },
        }
    }
}

/// The address of a message: whatever names its server, then its channel and its number.
pub open spec fn message_url(server: Seq<char>, channel: u64, message: u64) -> Seq<char> {
    channel_url(server, channel).push('/') + decimal_text(message as nat)
}

/// The address of a channel: whatever names its server, then its number.
pub open spec fn channel_url(server: Seq<char>, channel: u64) -> Seq<char> {
    server.push('/') + decimal_text(channel as nat)
}

/// The URL of a message ends with the channel and the message, whatever stands before: the last two
/// parts of it are read as just these, and so are the last parts of the URLs of the channel and the
/// message alone.
pub proof fn law_urls_are_read(server: Seq<char>, channel: u64, message: u64)
    ensures
        ({
            let parts = split_text(message_url(server, channel, message), '/');
            &&& parts.len() >= 2
            &&& channel_value(parts[parts.len() - 2]) == Some(channel)
            &&& u64_value(parts.last()) == Some(message)
            &&& u64_value(split_text(channel_url(server, channel), '/').last()) == Some(channel)
        }),
{
    law_decimal_is_read_back(channel);
    law_decimal_is_read_back(message);
    let channel_text = decimal_text(channel as nat);
    let message_text = decimal_text(message as nat);
    assert(is_digit(channel_text[0]));
    assert(!channel_text.contains('/'));
    assert(!message_text.contains('/'));
    lemma_split_last(server, '/', channel_text);
    lemma_split_last(channel_url(server, channel), '/', message_text);
    let parts = split_text(message_url(server, channel, message), '/');
    assert(parts == split_text(server, '/').push(channel_text).push(message_text));
    assert(parts[parts.len() - 2] == channel_text);
}

/// The URL of a message is read as the channel and the message that it names. A text without a slash
/// names no message, and is told as it is.
pub proof fn law_messages_are_named_by_their_urls(
    server: Seq<char>,
    channel: u64,
    message: u64,
    s: &str,
    pair: Result<ChannelIdAndMessageId, IdError>,
)
    requires
        call_ensures(ChannelIdAndMessageId::from_str, (s,), pair),
    ensures
        s@ == message_url(server, channel, message) ==> pair is Ok && pair->Ok_0.channel_id.0
            == channel && pair->Ok_0.message_id.0 == message,
        !s@.contains('/') ==> (pair matches Err(IdError::NoPair(text)) && text@ == s@),
        s@.contains('/') ==> !(pair matches Err(IdError::NoPair(_))),
{
    law_urls_are_read(server, channel, message);
    law_splitting_loses_nothing(s@, '/');
    let parts = split_text(s@, '/');
    if parts.len() == 1 {
        assert(parts =~= seq![parts[0]]);
        reveal_with_fuel(join_text, 2);
        assert(join_text(parts, seq!['/']) =~= parts[0]);
    } else {
        lemma_two_parts(s@, '/');
    }
}

proof fn lemma_two_parts(s: Seq<char>, separator: char)
    requires
        split_text(s, separator).len() >= 2,
    ensures
        s.contains(separator),
    decreases s.len(),
{
    if s.len() > 0 && s.last() != separator {
        law_splitting_loses_nothing(s.drop_last(), separator);
        lemma_two_parts(s.drop_last(), separator);
        let i = choose|i: int| 0 <= i < s.len() - 1 && s.drop_last()[i] == separator;
        assert(s[i] == separator);
    } else if s.len() > 0 {
        assert(s[s.len() - 1] == separator);
    }
}

/// The description of a text that names no message quotes the text.
pub proof fn law_descriptions_quote_the_text(text: String)
    ensures
        occurs(text@, IdError::NoPair(text).message_text()),
        IdError::NoPair(text).message_text().len() == "invalid channel/message id: "@.len()
            + text@.len(),
{
    lemma_occurs_within("invalid channel/message id: "@, text@, Seq::empty());
    assert("invalid channel/message id: "@ + text@ + Seq::<char>::empty() =~= IdError::NoPair(
        text,
    ).message_text());
}

/// The program ends with the error of the service that failed, as it is.
pub proof fn law_the_error_is_passed_on<E>(
    service: Service,
    failure: E,
    error: RunError<E>,
)
    requires
        call_ensures(
            RunEnd::<E>::error,
            (RunEnd::Ended { service, result: Err(failure) },),
            error,
        ),
    ensures
        error.cause == Cause::Failed(failure),
        error.context is None <==> service == Service::CaughtUpChannel,
{
}

} // verus!
