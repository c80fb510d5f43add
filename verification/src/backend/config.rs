//! Environment configuration.
//!
//! Everything is read once at boot and fails loudly if something required is
//! missing. A backend that starts without its API key would only fail later, in
//! the middle of a player's queue.

use vstd::prelude::*;
use crate::text::{parse_number, same, trim, trim_slashes};
#[allow(unused_imports)]
use crate::text::{
    law_numbers_are_read_digit_by_digit, law_trimming_is_idempotent, number_in, trimmed,
    without_slashes,
};

verus! {

#[derive(Debug, Clone, Copy, PartialEq, Eq)]
pub enum ConfigError {
    Missing(&'static str),
}

impl ConfigError {
    /// The variable that is missing.
    pub open spec fn variable(&self) -> Seq<char> {
        match self {
            ConfigError::Missing(name) => name@,
        }
    }

    /// The error as a line of text.
    pub fn message(&self) -> (line: String)
        ensures
            line@ == "missing required environment variable "@ + self.variable(),
    {
        match self {
            ConfigError::Missing(name) => {
                let mut line = "missing required environment variable ".to_owned();
                line.append(name);
                line
            },
        }
    }
}

#[derive(Debug, Clone, PartialEq, Eq)]
pub struct Config {
    /// The GameFlow gateway, including the `/v1` prefix.
    pub api_url: String,
    /// Never leaves this process.
    pub api_key: String,
    pub game_id: String,
    pub game_mode: String,
    pub region: String,
    /// Shared with the game server. Signs session tokens and guards the
    /// internal result endpoint.
    pub api_token: String,
    /// Signs player tokens. Different from `api_token` on purpose: a leak
    /// of one must not grant the other.
    pub jwt_secret: String,
    pub port: u16,
    /// How long a player waits in the queue before being told nobody was found.
    pub queue_timeout_secs: u64,
}

/// The value of a variable: the first of that name.
pub open spec fn value_in(vars: Seq<(String, String)>, key: Seq<char>) -> Option<Seq<char>>
    decreases vars.len(),
{
    if vars.len() == 0 {
        None
    } else if vars[0].0@ == key {
        Some(vars[0].1@)
    } else {
        value_in(vars.drop_first(), key)
    }
}

/// The trimmed value of a variable that is set to something.
pub open spec fn setting(vars: Seq<(String, String)>, key: Seq<char>) -> Option<Seq<char>> {
    match value_in(vars, key) {
        Some(v) => if trimmed(v).len() > 0 {
            Some(trimmed(v))
        } else {
            None
        },
        None => None,
    }
}

/// The trimmed value of a variable, or a fallback.
pub open spec fn setting_or(
    vars: Seq<(String, String)>,
    key: Seq<char>,
    fallback: Seq<char>,
) -> Seq<char> {
    match setting(vars, key) {
        Some(v) => v,
        None => fallback,
    }
}

/// A numeric setting, or a fallback where it is not a number of at most `max`.
pub open spec fn number_setting(
    vars: Seq<(String, String)>,
    key: Seq<char>,
    written: Seq<char>,
    max: nat,
    fallback: nat,
) -> nat {
    match number_in(setting_or(vars, key, written)) {
        Some(n) => if n <= max {
            n
        } else {
            fallback
        },
        None => fallback,
    }
}

fn lookup(vars: &[(String, String)], key: &str) -> (value: Option<String>)
    ensures
        match value {
            Some(v) => setting(vars@, key@) == Some(v@),
            None => setting(vars@, key@) is None,
        },
{
    assert(vars@.skip(0) =~= vars@);
    for i in 0..vars.len()
        invariant
            value_in(vars@, key@) == value_in(vars@.skip(i as int), key@),
    {
        assert(vars@.skip(i as int).drop_first() =~= vars@.skip(i as int + 1));
        if same(vars[i].0.as_str(), key) {
            let value = trim(vars[i].1.as_str());
            if value.as_str().is_empty() {
                return None;
            }
            return Some(value);
        }
    }
    None
}

/// A variable that has to be set to something.
pub fn required(vars: &[(String, String)], key: &'static str) -> (r: Result<String, ConfigError>)
    ensures
        match r {
            Ok(v) => setting(vars@, key@) == Some(v@),
            Err(e) => setting(vars@, key@) is None && e.variable() == key@,
        },
{
    match lookup(vars, key) {
        Some(v) => Ok(v),
        None => Err(ConfigError::Missing(key)),
    }
}

/// A variable that may be left out.
pub fn optional(vars: &[(String, String)], key: &str, fallback: &str) -> (v: String)
    ensures
        v@ == setting_or(vars@, key@, fallback@),
{
    match lookup(vars, key) {
        Some(v) => v,
        None => fallback.to_owned(),
    }
}

/// The first required variable that is not set.
pub open spec fn first_missing(vars: Seq<(String, String)>) -> Option<Seq<char>> {
    if setting(vars, "GAMEFLOW_API_URL"@) is None {
        Some("GAMEFLOW_API_URL"@)
    } else if setting(vars, "GAMEFLOW_API_KEY"@) is None {
        Some("GAMEFLOW_API_KEY"@)
    } else if setting(vars, "GAMEFLOW_GAME_ID"@) is None {
        Some("GAMEFLOW_GAME_ID"@)
    } else if setting(vars, "GAME_BACKEND_API_TOKEN"@) is None {
        Some("GAME_BACKEND_API_TOKEN"@)
    } else if setting(vars, "JWT_SECRET"@) is None {
        Some("JWT_SECRET"@)
    } else {
        None
    }
}

impl Config {
    /// Whether this is the configuration an environment asks for.
    pub open spec fn reads(&self, vars: Seq<(String, String)>) -> bool {
        &&& setting(vars, "GAMEFLOW_API_URL"@) matches Some(url) && self.api_url@
            == without_slashes(url)
        &&& setting(vars, "GAMEFLOW_API_KEY"@) == Some(self.api_key@)
        &&& setting(vars, "GAMEFLOW_GAME_ID"@) == Some(self.game_id@)
        &&& self.game_mode@ == setting_or(vars, "GAMEFLOW_GAME_MODE"@, "1v1"@)
        &&& self.region@ == setting_or(vars, "GAMEFLOW_REGION"@, "us-east"@)
        &&& setting(vars, "GAME_BACKEND_API_TOKEN"@) == Some(self.api_token@)
        &&& setting(vars, "JWT_SECRET"@) == Some(self.jwt_secret@)
        &&& self.port == number_setting(vars, "PORT"@, "8080"@, u16::MAX as nat, 8080)
        &&& self.queue_timeout_secs == number_setting(
            vars,
            "QUEUE_TIMEOUT_SECONDS"@,
            "90"@,
            u64::MAX as nat,
            90,
        )
    }

    /// Reads the environment, handed over as names and values. Fails on the first
    /// required variable that is not set.
    pub fn from_env(vars: &[(String, String)]) -> (r: Result<Config, ConfigError>)
        ensures
            match r {
                Ok(c) => first_missing(vars@) is None && c.reads(vars@),
                Err(e) => first_missing(vars@) == Some(e.variable()),
            },
    {
        let api_url = match required(vars, "GAMEFLOW_API_URL") {
            Ok(v) => trim_slashes(v.as_str()),
            Err(e) => return Err(e),
        };
        let api_key = match required(vars, "GAMEFLOW_API_KEY") {
            Ok(v) => v,
            Err(e) => return Err(e),
        };
        let game_id = match required(vars, "GAMEFLOW_GAME_ID") {
            Ok(v) => v,
            Err(e) => return Err(e),
        };
        let game_mode = optional(vars, "GAMEFLOW_GAME_MODE", "1v1");
        let region = optional(vars, "GAMEFLOW_REGION", "us-east");
        let api_token = match required(vars, "GAME_BACKEND_API_TOKEN") {
            Ok(v) => v,
            Err(e) => return Err(e),
        };
        let jwt_secret = match required(vars, "JWT_SECRET") {
            Ok(v) => v,
            Err(e) => return Err(e),
        };
        let port: u16 = match parse_number(optional(vars, "PORT", "8080").as_str(), 65_535) {
            Some(n) => n as u16,
            None => 8080,
        };
        let timeout = optional(vars, "QUEUE_TIMEOUT_SECONDS", "90");
        let queue_timeout_secs: u64 = match parse_number(timeout.as_str(), u64::MAX) {
            Some(n) => n,
            None => 90,
        };
        Ok(
            Config {
                api_url,
                api_key,
                game_id,
                game_mode,
                region,
                api_token,
                jwt_secret,
                port,
                queue_timeout_secs,
            },
        )
    }
}

/// A required setting is never empty and never has white space around it.
pub proof fn law_settings_are_trimmed(vars: Seq<(String, String)>, key: Seq<char>)
    ensures
        setting(vars, key) matches Some(v) ==> v.len() > 0 && trimmed(v) == v,
{
    if let Some(v) = value_in(vars, key) {
        law_trimming_is_idempotent(v);
    }
}

/// The first variable of a name is the one that counts.
pub proof fn law_the_first_of_a_name_counts(vars: Seq<(String, String)>, key: Seq<char>)
    ensures
        value_in(vars, key) is None <==> forall|i: int|
            0 <= i < vars.len() ==> (#[trigger] vars[i]).0@ != key,
        value_in(vars, key) is Some ==> exists|i: int|
            {
                &&& 0 <= i < vars.len()
                &&& (#[trigger] vars[i]).0@ == key
                &&& value_in(vars, key) == Some(vars[i].1@)
                &&& forall|j: int| 0 <= j < i ==> (#[trigger] vars[j]).0@ != key
            },
    decreases vars.len(),
{
    if vars.len() > 0 {
        let rest = vars.drop_first();
        law_the_first_of_a_name_counts(rest, key);
        assert forall|i: int| 1 <= i < vars.len() implies #[trigger] vars[i] == rest[i - 1] by {}
        if vars[0].0@ != key && value_in(vars, key) is Some {
            let k = choose|k: int|
                {
                    &&& 0 <= k < rest.len()
                    &&& (#[trigger] rest[k]).0@ == key
                    &&& value_in(rest, key) == Some(rest[k].1@)
                    &&& forall|j: int| 0 <= j < k ==> (#[trigger] rest[j]).0@ != key
                };
            assert(vars[k + 1] == rest[k]);
        }
        if vars[0].0@ != key && value_in(vars, key) is None {
            assert forall|i: int| 0 <= i < vars.len() implies (#[trigger] vars[i]).0@ != key by {
                if i > 0 {
                    assert(vars[i] == rest[i - 1]);
                }
            }
        }
        if forall|i: int| 0 <= i < vars.len() ==> (#[trigger] vars[i]).0@ != key {
            assert(vars[0].0@ != key);
            assert forall|i: int| 0 <= i < rest.len() implies (#[trigger] rest[i]).0@ != key by {
                assert(rest[i] == vars[i + 1]);
            }
        }
    }
}

/// What a configuration holds. The five required settings are there, the address
/// without slashes at its end; the others have their defaults: one against one, in the
/// eastern region, on port 8080, giving up the queue after a minute and a half.
pub proof fn law_a_configuration_holds_its_settings(c: Config, vars: Seq<(String, String)>)
    requires
        c.reads(vars),
    ensures
        setting(vars, "GAMEFLOW_API_URL"@) matches Some(url) && c.api_url@ == without_slashes(url),
        setting(vars, "GAMEFLOW_API_KEY"@) == Some(c.api_key@),
        setting(vars, "GAMEFLOW_GAME_ID"@) == Some(c.game_id@),
        setting(vars, "GAME_BACKEND_API_TOKEN"@) == Some(c.api_token@),
        setting(vars, "JWT_SECRET"@) == Some(c.jwt_secret@),
        setting(vars, "GAMEFLOW_GAME_MODE"@) is None ==> c.game_mode@ == "1v1"@,
        setting(vars, "GAMEFLOW_GAME_MODE"@) matches Some(v) ==> c.game_mode@ == v,
        setting(vars, "GAMEFLOW_REGION"@) is None ==> c.region@ == "us-east"@,
        setting(vars, "GAMEFLOW_REGION"@) matches Some(v) ==> c.region@ == v,
        setting(vars, "PORT"@) is None ==> c.port == 8080,
        setting(vars, "PORT"@) matches Some(v) ==> c.port == (match number_in(v) {
            Some(n) if n <= 65_535 => n as int,
            _ => 8080,
        }),
        setting(vars, "QUEUE_TIMEOUT_SECONDS"@) is None ==> c.queue_timeout_secs == 90,
        setting(vars, "QUEUE_TIMEOUT_SECONDS"@) matches Some(v) ==> c.queue_timeout_secs == (
        match number_in(v) {
            Some(n) if n <= u64::MAX => n as int,
            _ => 90,
        }),
        first_missing(vars) is None,
{
    reveal_strlit("8080");
    reveal_strlit("90");
    law_numbers_are_read_digit_by_digit(Seq::empty(), '8');
    assert("8080"@ =~= seq!['8', '0', '8', '0']);
    assert("90"@ =~= seq!['9', '0']);
    law_numbers_are_read_digit_by_digit(seq!['8'], '0');
    assert(seq!['8'].push('0') =~= seq!['8', '0']);
    law_numbers_are_read_digit_by_digit(seq!['8', '0'], '8');
    assert(seq!['8', '0'].push('8') =~= seq!['8', '0', '8']);
    law_numbers_are_read_digit_by_digit(seq!['8', '0', '8'], '0');
    assert(seq!['8', '0', '8'].push('0') =~= seq!['8', '0', '8', '0']);
    law_numbers_are_read_digit_by_digit(Seq::empty(), '9');
    law_numbers_are_read_digit_by_digit(seq!['9'], '0');
    assert(seq!['9'].push('0') =~= seq!['9', '0']);
}

/// A variable counts as missing exactly when it is one of the required five and set to
/// nothing; of several the first in order is named.
pub proof fn law_the_first_missing_setting_is_named(vars: Seq<(String, String)>)
    ensures
        first_missing(vars) is None <==> setting(vars, "GAMEFLOW_API_URL"@) is Some && setting(
            vars,
            "GAMEFLOW_API_KEY"@,
        ) is Some && setting(vars, "GAMEFLOW_GAME_ID"@) is Some && setting(
            vars,
            "GAME_BACKEND_API_TOKEN"@,
        ) is Some && setting(vars, "JWT_SECRET"@) is Some,
        first_missing(vars) matches Some(name) ==> setting(vars, name) is None,
        setting(vars, "GAMEFLOW_API_URL"@) is None ==> first_missing(vars) == Some(
            "GAMEFLOW_API_URL"@,
        ),
{
}

} // verus!
