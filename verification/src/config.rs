//! Configuration data for the server and the client, with the documented
//! defaults. Reading the environment is left to the surrounding process;
//! this module only holds the values and their defaults.

use vstd::prelude::*;

use crate::shim::{is_ascii_alphanumeric, random_alphanumeric_string};
use crate::text::{spec_decimal, u64_to_decimal};

verus! {

/// Endpoint configuration shared by the server (where to listen) and the
/// client (where to dial).
#[derive(Clone)]
pub struct ServerConfig {
    pub port: u16,
    pub hostname: String,
}

impl ServerConfig {
    /// The address to dial or bind: the hostname, a colon, the port in
    /// decimal.
    pub fn address(&self) -> (r: String)
        ensures
            r@ == self.hostname@ + ":"@ + spec_decimal(self.port as nat),
    {
        let mut s = self.hostname.clone();
        s.append(":");
        let digits = u64_to_decimal(self.port as u64);
        s.append(digits.as_str());
        proof {
            assert(s@ =~= self.hostname@ + ":"@ + spec_decimal(self.port as nat));
        }
        s
    }
}

/// The client's configuration: where the server is, and the display name used
/// in the client's opening greeting.
#[derive(Clone)]
pub struct ClientConfig {
    pub server: ServerConfig,
    pub username: String,
}

/// The server's errors that end the process: a configuration that cannot be
/// read, a listening socket that cannot be bound, and anything else fatal.
#[derive(Debug, PartialEq, Eq)]
pub enum AppError {
    ConfigError(),
    TcpListenerError(String),
    OtherError(String),
}

/// The port used when the environment does not name one.
pub fn server_config_default_port() -> (r: u16)
    ensures
        r == 11111u16,
{
    11111
}

/// The hostname used when the environment does not name one.
pub fn server_config_default_hostname() -> (r: String)
    ensures
        r@ == "localhost"@,
{
    String::from_str("localhost")
}

/// The display name used when the environment does not name one: "user-"
/// followed by five characters drawn at random from the ASCII letters and
/// digits.
pub fn client_config_default_username() -> (r: String)
    ensures
        r@.len() == 10,
        r@.subrange(0, 5) == "user-"@,
        forall|i: int| 5 <= i < 10 ==> is_ascii_alphanumeric(#[trigger] r@[i]),
{
    let suffix = random_alphanumeric_string(5);
    let r = "user-".to_owned().concat(suffix.as_str());
    proof {
        reveal_strlit("user-");
        assert(r@.subrange(0, 5) =~= "user-"@);
        assert forall|i: int| 5 <= i < 10 implies is_ascii_alphanumeric(#[trigger] r@[i]) by {
            assert(r@[i] == suffix@[i - 5]);
        }
    }
    r
}

} // verus!
