//! Environment the server reads. No API key here by design: results go through
//! the backend, which is the only holder.

use vstd::prelude::*;
use crate::text::trim_slashes;
#[allow(unused_imports)]
use crate::text::without_slashes;

verus! {

/// The seed of a match on a clock set before the Unix epoch.
pub const FALLBACK_SEED: u64 = 0x5EED;

#[derive(Debug, Clone, PartialEq, Eq)]
pub struct ServerConfigRes {
    pub backend_url: String,
    pub api_token: String,
    pub match_seed: u64,
}

impl ServerConfigRes {
    /// The configuration for the variables that are set. The clock, in
    /// nanoseconds since the Unix epoch, only varies pellet placement between
    /// matches; it is sent to the clients in the welcome, so it is no secret.
    pub fn from_env(
        backend_url: Option<&str>,
        api_token: Option<&str>,
        clock: Option<u64>,
    ) -> (c: ServerConfigRes)
        ensures
            c.backend_url@ == without_slashes(
                match backend_url {
                    Some(url) => url@,
                    None => "http://127.0.0.1:8080"@,
                },
            ),
            c.api_token@ == (match api_token {
                Some(token) => token@,
                None => Seq::<char>::empty(),
            }),
            c.match_seed == (match clock {
                Some(nanos) => nanos,
                None => FALLBACK_SEED,
            }),
    {
        ServerConfigRes {
            backend_url: trim_slashes(
                match backend_url {
                    Some(url) => url,
                    None => "http://127.0.0.1:8080",
                },
            ),
            api_token: match api_token {
                Some(token) => token.to_owned(),
                None => String::new(),
            },
            match_seed: match clock {
                Some(nanos) => nanos,
                None => FALLBACK_SEED,
            },
        }
    }

    /// Whether clients can be let in at all: without the shared secret every
    /// handshake fails.
    pub fn can_admit(&self) -> (yes: bool)
        ensures
            yes == (self.api_token@.len() > 0),
    {
        !self.api_token.as_str().is_empty()
    }
}

} // verus!
