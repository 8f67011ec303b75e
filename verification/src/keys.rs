//! The typed cache keyspace and the fixed board names.

use vstd::prelude::*;
use crate::num::{dec_str, u32_to_string};

verus! {

pub const BOARD_TOTAL_POINTS_ERAS: &'static str = "total:points:era";

pub const BOARD_MAX_POINTS_ERAS: &'static str = "max:points:era";

pub const BOARD_MIN_POINTS_ERAS: &'static str = "min:points:era";

pub const BOARD_AVG_POINTS_ERAS: &'static str = "avg:points:era";

pub const BOARD_ACTIVE_VALIDATORS: &'static str = "active:val";

pub const BOARD_ALL_VALIDATORS: &'static str = "all:val";

pub const BOARD_POINTS_VALIDATORS: &'static str = "points:val";

pub const BOARD_OWN_STAKE_VALIDATORS: &'static str = "own:stake:val";

pub const BOARD_TOTAL_STAKE_VALIDATORS: &'static str = "total:stake:val";

pub const BOARD_JUDGEMENTS_VALIDATORS: &'static str = "judgements:val";

pub const BOARD_SUB_ACCOUNTS_VALIDATORS: &'static str = "sub:accounts:val";

/// A typed cache key.  Rendered to the flat string keyspace by
/// [`Key::to_key_string`].
pub enum Key {
    Network,
    Info,
    Stats,
    ActiveEra,
    Era(u32),
    ValidatorAtEra(u32, String),
    BoardAtEra(u32, String),
    ValidatorAtEraScan(String),
    Validator(String),
    ActiveErasByValidator(String),
}

/// The key string of a board, used to key its generation counter.
pub open spec fn board_key_str(era: u32, name: Seq<char>) -> Seq<char> {
    dec_str(era as int) + ":era:"@ + name + ":board"@
}

/// The string a key renders to.
pub open spec fn key_str(k: Key) -> Seq<char> {
    match k {
        Key::Network => "network"@,
        Key::Info => "info"@,
        Key::Stats => "stats"@,
        Key::ActiveEra => "era:active"@,
        Key::Era(e) => dec_str(e as int) + ":era"@,
        Key::ValidatorAtEra(e, stash) => dec_str(e as int) + ":era:"@ + stash@ + ":val"@,
        Key::ValidatorAtEraScan(stash) => "*:era:"@ + stash@ + ":val"@,
        Key::BoardAtEra(e, name) => dec_str(e as int) + ":era:"@ + name@ + ":board"@,
        Key::Validator(stash) => stash@ + ":val"@,
        Key::ActiveErasByValidator(stash) => stash@ + ":val:eras:active"@,
    }
}

impl Key {
    /// Renders the key into the cache's flat string keyspace.
    pub fn to_key_string(&self) -> (s: String)
        ensures
            s@ == key_str(*self),
    {
        match self {
            Key::Network => String::from_str("network"),
            Key::Info => String::from_str("info"),
            Key::Stats => String::from_str("stats"),
            Key::ActiveEra => String::from_str("era:active"),
            Key::Era(e) => {
                let mut s = u32_to_string(*e);
                s.append(":era");
                s
            },
            Key::ValidatorAtEra(e, stash) => {
                let mut s = u32_to_string(*e);
                s.append(":era:");
                s.append(stash.as_str());
                s.append(":val");
                s
            },
            Key::ValidatorAtEraScan(stash) => {
                let mut s = String::from_str("*:era:");
                s.append(stash.as_str());
                s.append(":val");
                s
            },
            Key::BoardAtEra(e, name) => {
                let mut s = u32_to_string(*e);
                s.append(":era:");
                s.append(name.as_str());
                s.append(":board");
                s
            },
            Key::Validator(stash) => {
                let mut s = stash.clone();
                s.append(":val");
                s
            },
            Key::ActiveErasByValidator(stash) => {
                let mut s = stash.clone();
                s.append(":val:eras:active");
                s
            },
        }
    }
}

} // verus!
