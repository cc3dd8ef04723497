//! Running the bot on an RPC endpoint.

use vstd::prelude::*;

use crate::address::Value;
use crate::opt::serve::check_values;
use crate::opt::serve::copy_values;
use crate::opt::serve::values_error;
use crate::opt::serve::PreflightError;
use crate::responder::Responder;

verus! {

/// The address of a socket.
#[derive(Clone, Copy, Debug, PartialEq, Eq)]
pub enum Socket {
    /// An IPv4 address and a port.
    V4 { octets: [u8; 4], port: u16 },
    /// An IPv6 address and a port.
    V6 { segments: [u16; 8], port: u16, flowinfo: u32, scope_id: u32 },
}

/// How the bot is to be run on an RPC endpoint.
#[derive(Debug)]
pub struct ServeRpc {
    /// The number of accounts to send funds from. Funds will send from account indices `[0, n-1]`.
    pub account_count: u32,
    /// The path to the directory to use to store data, if it is not the platform's.
    pub data_dir: Option<String>,
    /// The URL of the pd gRPC endpoint on the remote node.
    pub node: String,
    /// Bind the gRPC server to this socket.
    ///
    /// If `grpc_auto_https` is set, this defaults to `0.0.0.0:443` and uses HTTPS.
    ///
    /// If `grpc_auto_https` is not set, this defaults to `127.0.0.1:8080` without HTTPS.
    pub grpc_bind: Option<Socket>,
    /// If set, serve gRPC using auto-managed HTTPS with this domain name.
    pub grpc_auto_https: Option<String>,
    /// Enable use of the LetsEncrypt ACME staging API, which is more forgiving of ratelimits.
    pub acme_staging: bool,
    /// The amounts to send for each response.
    pub values: Vec<Value>,
}

/// How the server gets its certificates.
#[derive(Debug)]
pub struct AutoHttps {
    /// Where the certificates are kept.
    pub data_dir: String,
    /// The domain name that they are for.
    pub domain: String,
    /// Whether they come from the production API.
    pub production: bool,
}

/// The data directory must be set to use auto-https.
#[derive(Clone, Copy, Debug, PartialEq, Eq, Structural)]
pub struct NoDataDir;

impl NoDataDir {
    /// Returns a description of the error.
    pub fn message(&self) -> (text: String)
        ensures
            text@ == "data directory must be set to use auto-https"@,
    {
        "data directory must be set to use auto-https".to_owned()
    }
}

impl ServeRpc {
    /// Perform sanity checks on CLI args prior to running.
    pub fn preflight_checks(&self) -> (checked: Result<(), PreflightError>)
        ensures
            checked == (match values_error(self.values@) {
                Some(error) => Err::<(), _>(error),
                None => Ok(()),
            }),
    {
        check_values(&self.values)
    }

    /// The socket that the server is bound to.
    pub open spec fn socket(self) -> Socket {
        match self.grpc_bind {
            Some(socket) => socket,
            None => if self.grpc_auto_https is Some {
                Socket::V4 { octets: [0u8, 0u8, 0u8, 0u8], port: 443 }
            } else {
                Socket::V4 { octets: [127u8, 0u8, 0u8, 1u8], port: 8080 }
            },
        }
    }

    /// Returns the socket to bind the server to: the one that was given, or a default that depends
    /// on whether the server uses HTTPS.
    pub fn bind(&self) -> (socket: Socket)
        ensures
            socket == self.socket(),
    {
        match self.grpc_bind {
            Some(socket) => socket,
            None => {
                if self.grpc_auto_https.is_some() {
                    Socket::V4 { octets: [0u8, 0u8, 0u8, 0u8], port: 443 }
                } else {
                    Socket::V4 { octets: [127u8, 0u8, 0u8, 1u8], port: 8080 }
                }
            },
        }
    }

    /// Returns how the server gets its certificates, if it uses HTTPS.
    pub fn auto_https(&self) -> (https: Result<Option<AutoHttps>, NoDataDir>)
        ensures
            match (self.grpc_auto_https, self.data_dir) {
                (None, _) => https == Ok::<_, NoDataDir>(None::<AutoHttps>),
                (Some(_), None) => https == Err::<Option<AutoHttps>, _>(NoDataDir),
                (Some(domain), Some(data_dir)) => {
                    &&& https is Ok
                    &&& https->Ok_0 == Some(
                        (AutoHttps { data_dir, domain, production: !self.acme_staging }),
                    )
                },
            },
    {
        match &self.grpc_auto_https {
            None => Ok(None),
            Some(domain) => match &self.data_dir {
                None => Err(NoDataDir),
                Some(data_dir) => Ok(
                    Some(
                        AutoHttps {
                            data_dir: data_dir.clone(),
                            domain: domain.clone(),
                            production: !self.acme_staging,
                        },
                    ),
                ),
            },
        }
    }

    /// Makes the worker that handles the requests, each of which is for one address.
    pub fn responder(&self) -> (responder: Responder)
        ensures
            responder.max_addresses == 1,
            responder.values@ == self.values@,
    {
        Responder::new(1, copy_values(&self.values))
    }
}

/// A socket that was given is used, whatever it is, and otherwise the one for HTTPS if a domain was
/// given.
pub proof fn law_the_given_socket_is_used(options: ServeRpc)
    ensures
        options.grpc_bind matches Some(socket) ==> options.socket() == socket,
        options.grpc_bind is None && options.grpc_auto_https is Some ==> (options.socket() matches Socket::V4 {
            octets,
            port,
        } && octets == [0u8, 0u8, 0u8, 0u8] && port == 443),
        options.grpc_bind is None && options.grpc_auto_https is None ==> (options.socket() matches Socket::V4 {
            octets,
            port,
        } && octets == [127u8, 0u8, 0u8, 1u8] && port == 8080),
{
}

/// A call gets the values that were asked for, and is about one address. Certificates are managed just
/// when a domain is given, for that domain, and from the production API unless the staging one is
/// asked for; and they need somewhere to be kept.
pub proof fn law_rpc_options_are_used(
    options: ServeRpc,
    responder: Responder,
    https: Result<Option<AutoHttps>, NoDataDir>,
    checked: Result<(), PreflightError>,
)
    requires
        call_ensures(ServeRpc::responder, (&options,), responder),
        call_ensures(ServeRpc::auto_https, (&options,), https),
        call_ensures(ServeRpc::preflight_checks, (&options,), checked),
    ensures
        responder.max_addresses == 1,
        responder.values@ == options.values@,
        https is Err <==> options.grpc_auto_https is Some && options.data_dir is None,
        https matches Ok(None) <==> options.grpc_auto_https is None,
        https matches Ok(Some(auto)) ==> {
            &&& options.grpc_auto_https == Some(auto.domain)
            &&& options.data_dir == Some(auto.data_dir)
            &&& auto.production <==> !options.acme_staging
        },
        checked is Ok <==> options.values@.len() > 0 && forall|i: int|
            0 <= i < options.values@.len() ==> (#[trigger] options.values@[i]).amount > 0,
{
}

} // verus!
