//! The typed records the cache holds, and the two error domains.
//!
//! Fractional attributes (inclusion rate, average reward points) are stored
//! in fixed point with nine decimal places, written `_scaled`.

use vstd::prelude::*;

verus! {

/// Service configuration, loaded from the environment by the caller.
#[derive(Clone)]
pub struct Config {
    pub turboflakes_host: String,
    pub turboflakes_port: u16,
    pub rust_backtrace: u8,
    pub rust_log: String,
    pub substrate_ws_url: String,
    pub redis_hostname: String,
    pub redis_password: String,
    pub redis_database: u8,
}

/// Chain metadata cached under the `network` key.
pub struct NetworkRecord {
    pub name: String,
    pub token_symbol: String,
    pub token_decimals: u8,
    pub ss58_format: u8,
    pub substrate_node_url: String,
}

/// View of a network record, strings as character sequences.
pub struct NetworkRecordV {
    pub name: Seq<char>,
    pub token_symbol: Seq<char>,
    pub token_decimals: u8,
    pub ss58_format: u8,
    pub substrate_node_url: Seq<char>,
}

impl View for NetworkRecord {
    type V = NetworkRecordV;

    open spec fn view(&self) -> NetworkRecordV {
        NetworkRecordV {
            name: self.name@,
            token_symbol: self.token_symbol@,
            token_decimals: self.token_decimals,
            ss58_format: self.ss58_format,
            substrate_node_url: self.substrate_node_url@,
        }
    }
}

/// Synchronisation status and population counts, under the `info` key.
#[derive(Clone, Copy)]
pub struct InfoRecord {
    pub syncing: bool,
    pub syncing_started_at: u64,
    pub syncing_finished_at: u64,
    pub validators: u32,
    pub nominators: u32,
}

/// Per-era summary, under `{era}:era`.  `synced_at` is present once the
/// era's history has been fetched and stamped.
#[derive(Clone, Copy)]
pub struct EraRecord {
    pub total_reward: u128,
    pub total_stake: u128,
    pub total_reward_points: u32,
    pub min_reward_points: u32,
    pub max_reward_points: u32,
    pub avg_reward_points_scaled: u64,
    pub median_reward_points: u32,
    pub synced_at: Option<u64>,
}

impl View for EraRecord {
    type V = EraRecord;

    open spec fn view(&self) -> EraRecord {
        *self
    }
}

impl Default for EraRecord {
    fn default() -> (r: EraRecord)
        ensures
            r == (EraRecord {
                total_reward: 0,
                total_stake: 0,
                total_reward_points: 0,
                min_reward_points: 0,
                max_reward_points: 0,
                avg_reward_points_scaled: 0,
                median_reward_points: 0,
                synced_at: None::<u64>,
            }),
    {
        EraRecord {
            total_reward: 0,
            total_stake: 0,
            total_reward_points: 0,
            min_reward_points: 0,
            max_reward_points: 0,
            avg_reward_points_scaled: 0,
            median_reward_points: 0,
            synced_at: None,
        }
    }
}

/// Current snapshot of a validator, under `{stash}:val`.
pub struct ValidatorRecord {
    pub active: bool,
    pub commission: u32,
    pub blocked: bool,
    pub controller: String,
    pub own_stake: u128,
    pub reward_staked: bool,
    pub inclusion_rate_scaled: u64,
    pub avg_reward_points_scaled: u64,
    pub name: String,
    pub judgements: u32,
    pub sub_accounts: u32,
    pub nominators: u32,
    pub nominators_stake: u128,
}

/// View of a validator record.
pub struct ValidatorRecordV {
    pub active: bool,
    pub commission: u32,
    pub blocked: bool,
    pub controller: Seq<char>,
    pub own_stake: u128,
    pub reward_staked: bool,
    pub inclusion_rate_scaled: u64,
    pub avg_reward_points_scaled: u64,
    pub name: Seq<char>,
    pub judgements: u32,
    pub sub_accounts: u32,
    pub nominators: u32,
    pub nominators_stake: u128,
}

impl View for ValidatorRecord {
    type V = ValidatorRecordV;

    open spec fn view(&self) -> ValidatorRecordV {
        ValidatorRecordV {
            active: self.active,
            commission: self.commission,
            blocked: self.blocked,
            controller: self.controller@,
            own_stake: self.own_stake,
            reward_staked: self.reward_staked,
            inclusion_rate_scaled: self.inclusion_rate_scaled,
            avg_reward_points_scaled: self.avg_reward_points_scaled,
            name: self.name@,
            judgements: self.judgements,
            sub_accounts: self.sub_accounts,
            nominators: self.nominators,
            nominators_stake: self.nominators_stake,
        }
    }
}

/// A validator record as a hash with only `active` set, everything else at
/// its parsing default: what reading back a hash created by the active-set
/// pass alone yields.
pub fn default_validator_record(active: bool) -> (r: ValidatorRecord)
    ensures
        r@ == (ValidatorRecordV {
            active: active,
            commission: 0,
            blocked: false,
            controller: Seq::<char>::empty(),
            own_stake: 0,
            reward_staked: false,
            inclusion_rate_scaled: 0,
            avg_reward_points_scaled: 0,
            name: Seq::<char>::empty(),
            judgements: 0,
            sub_accounts: 0,
            nominators: 0,
            nominators_stake: 0,
        }),
{
    let r = ValidatorRecord {
        active: active,
        commission: 0,
        blocked: false,
        controller: String::new(),
        own_stake: 0,
        reward_staked: false,
        inclusion_rate_scaled: 0,
        avg_reward_points_scaled: 0,
        name: String::new(),
        judgements: 0,
        sub_accounts: 0,
        nominators: 0,
        nominators_stake: 0,
    };
    proof {
        assert(r.controller@ =~= Seq::<char>::empty());
        assert(r.name@ =~= Seq::<char>::empty());
    }
    r
}

impl ValidatorRecord {
    /// A copy of the record.
    pub fn clone_record(&self) -> (r: ValidatorRecord)
        ensures
            r@ == self@,
    {
        ValidatorRecord {
            active: self.active,
            commission: self.commission,
            blocked: self.blocked,
            controller: self.controller.clone(),
            own_stake: self.own_stake,
            reward_staked: self.reward_staked,
            inclusion_rate_scaled: self.inclusion_rate_scaled,
            avg_reward_points_scaled: self.avg_reward_points_scaled,
            name: self.name.clone(),
            judgements: self.judgements,
            sub_accounts: self.sub_accounts,
            nominators: self.nominators,
            nominators_stake: self.nominators_stake,
        }
    }
}

/// Per-era snapshot of a validator, under `{era}:era:{stash}:val`.
#[derive(Clone, Copy)]
pub struct ValidatorEraRecord {
    pub active: bool,
    pub reward_points: u32,
    pub commission: u32,
    pub blocked: bool,
    pub own_stake: u128,
    pub total_stake: u128,
    pub others_stake: u128,
    pub stakers: u32,
    pub others_stake_clipped: u128,
    pub stakers_clipped: u32,
}

impl View for ValidatorEraRecord {
    type V = ValidatorEraRecord;

    open spec fn view(&self) -> ValidatorEraRecord {
        *self
    }
}

/// Errors surfaced to HTTP clients.
#[derive(Debug)]
pub enum ApiError {
    BadRequest(String),
    NotFound(String),
    InternalServerError(String),
}

/// User-facing error body: a list of messages.
pub struct ErrorResponse {
    pub errors: Vec<String>,
}

impl ErrorResponse {
    /// Wraps one message as an error body.
    pub fn from(error: &String) -> (r: ErrorResponse)
        ensures
            r.errors@.len() == 1,
            r.errors@[0]@ == error@,
    {
        let mut errors: Vec<String> = Vec::new();
        errors.push(error.clone());
        ErrorResponse { errors }
    }
}

/// Cache-side failures; the payload carries the underlying message.
#[derive(Debug)]
pub enum CacheError {
    RedisPoolError(String),
    RedisTypeError(String),
    RedisCMDError(String),
    RedisClientError(String),
    RedisPongError,
    Other(String),
}

/// Synchroniser failures.
#[derive(Debug)]
pub enum SyncError {
    CacheError(CacheError),
    SubscriptionFinished,
    Other(String),
}

/// The message a cache error renders to.
pub open spec fn cache_error_message(e: CacheError) -> Seq<char> {
    match e {
        CacheError::RedisPoolError(m) => "could not get redis connection from pool : "@ + m@,
        CacheError::RedisTypeError(m) => "error parsing string from redis result: "@ + m@,
        CacheError::RedisCMDError(m) => "error executing redis command: "@ + m@,
        CacheError::RedisClientError(m) => "error creating redis client: "@ + m@,
        CacheError::RedisPongError => "pong response error"@,
        CacheError::Other(m) => "Other error: "@ + m@,
    }
}

impl CacheError {
    /// Renders the error as its message.
    pub fn message(&self) -> (r: String)
        ensures
            r@ == cache_error_message(*self),
    {
        match self {
            CacheError::RedisPoolError(m) => {
                let mut s = String::from_str("could not get redis connection from pool : ");
                s.append(m.as_str());
                s
            },
            CacheError::RedisTypeError(m) => {
                let mut s = String::from_str("error parsing string from redis result: ");
                s.append(m.as_str());
                s
            },
            CacheError::RedisCMDError(m) => {
                let mut s = String::from_str("error executing redis command: ");
                s.append(m.as_str());
                s
            },
            CacheError::RedisClientError(m) => {
                let mut s = String::from_str("error creating redis client: ");
                s.append(m.as_str());
                s
            },
            CacheError::RedisPongError => String::from_str("pong response error"),
            CacheError::Other(m) => {
                let mut s = String::from_str("Other error: ");
                s.append(m.as_str());
                s
            },
        }
    }
}

impl ApiError {
    /// Turns a cache failure into the server-error response it surfaces as.
    pub fn from(error: CacheError) -> (r: ApiError)
        ensures
            match r {
                ApiError::InternalServerError(m) => m@ == cache_error_message(error),
                _ => false,
            },
    {
        ApiError::InternalServerError(error.message())
    }
}

/// The cache connection string: the password, host and database joined in
/// the `redis` URL shape.
pub fn get_redis_url(config: Config) -> (r: String)
    ensures
        r@ == "redis://:"@ + config.redis_password@ + "@"@ + config.redis_hostname@ + "/"@
            + crate::num::dec_str(config.redis_database as int),
{
    let mut s = String::from_str("redis://:");
    s.append(config.redis_password.as_str());
    s.append("@");
    s.append(config.redis_hostname.as_str());
    s.append("/");
    let db = crate::num::u32_to_string(config.redis_database as u32);
    s.append(db.as_str());
    proof {
        assert(s@ =~= "redis://:"@ + config.redis_password@ + "@"@ + config.redis_hostname@
            + "/"@ + crate::num::dec_str(config.redis_database as int));
    }
    s
}

} // verus!
