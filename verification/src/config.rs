//! Settings, and the bounds of what is held in memory.
use crate::text::parse_u16;
use crate::text::parse_u64;
use crate::text::parsed;
use vstd::prelude::*;

verus! {

/// How long a verified token is remembered, in seconds.
pub const TOKEN_TTL_SECONDS: u64 = 900;

/// How many verified tokens are remembered at most.
pub const TOKEN_CAPACITY: u64 = 10_000;

/// How long the answer to a search is remembered, in seconds.
pub const SEARCH_TTL_SECONDS: u64 = 3600;

/// How many answers to searches are remembered at most.
pub const SEARCH_CAPACITY: u64 = 1_000;

/// How many url records are held in memory at most.
pub const URL_CAPACITY: u64 = 50_000;

/// The variables of the environment that settings are read from, where they are
/// set and are text.
pub struct Environment {
    pub giphy_api_key: Option<String>,
    pub openid_verify_url: Option<String>,
    pub port: Option<String>,
    pub cache_dir: Option<String>,
    pub cache_max_bytes: Option<String>,
}

/// The settings.
pub struct Config {
    pub giphy_api_key: String,
    pub openid_verify_base: String,
    pub port: u16,
    pub cache_dir: String,
    pub cache_max_bytes: u64,
}

/// The text of a variable, or what stands for it if it is not set.
pub open spec fn text_or(var: Option<String>, default: Seq<char>) -> Seq<char> {
    match var {
        Some(s) => s@,
        None => default,
    }
}

/// The number in a variable, or what stands for it if it is not set or holds no
/// number up to `max`.
pub open spec fn number_or(var: Option<String>, max: nat, default: nat) -> nat {
    match var {
        Some(s) => match parsed(s@, max) {
            Some(n) => n,
            None => default,
        },
        None => default,
    }
}

/// Reads the settings. There are none without an API key; everything else has a
/// default.
pub fn configure(env: Environment) -> (config: Option<Config>)
    ensures
        config is Some <==> env.giphy_api_key is Some,
        config matches Some(c) ==> {
            &&& c.giphy_api_key@ == env.giphy_api_key->0@
            &&& c.openid_verify_base@ == text_or(
                env.openid_verify_url,
                "https://matrix.loaf.moe/_matrix/federation/v1/openid/userinfo"@,
            )
            &&& c.port == number_or(env.port, u16::MAX as nat, 8080)
            &&& c.cache_dir@ == text_or(env.cache_dir, "./cache"@)
            &&& c.cache_max_bytes == number_or(env.cache_max_bytes, u64::MAX as nat, 2147483648)
        },
{
    let giphy_api_key = match env.giphy_api_key {
        Some(key) => key,
        None => return None,
    };
    let openid_verify_base = match env.openid_verify_url {
        Some(url) => url,
        None => "https://matrix.loaf.moe/_matrix/federation/v1/openid/userinfo".to_owned(),
    };
    let port: u16 = match &env.port {
        Some(s) => match parse_u16(s.as_str()) {
            Some(n) => n,
            None => 8080,
        },
        None => 8080,
    };
    let cache_dir = match env.cache_dir {
        Some(dir) => dir,
        None => "./cache".to_owned(),
    };
    let cache_max_bytes: u64 = match &env.cache_max_bytes {
        Some(s) => match parse_u64(s.as_str()) {
            Some(n) => n,
            None => 2147483648,
        },
        None => 2147483648,
    };
    Some(Config { giphy_api_key, openid_verify_base, port, cache_dir, cache_max_bytes })
}

/// There are settings exactly if there is an API key. Every setting is what its
/// variable says, as it stands, or reads as a number that fits; and else what is
/// given here.
pub proof fn settings_are_those_of_the_environment(env: Environment, config: Option<Config>)
    requires
        call_ensures(configure, (env,), config),
    ensures
        config is Some <==> env.giphy_api_key is Some,
        config is Some ==> {
            let c = config->0;
            &&& c.giphy_api_key@ == env.giphy_api_key->0@
            &&& env.openid_verify_url is Some ==> c.openid_verify_base@ == env.openid_verify_url->0@
            &&& env.openid_verify_url is None ==> c.openid_verify_base@
                == "https://matrix.loaf.moe/_matrix/federation/v1/openid/userinfo"@
            &&& env.cache_dir is Some ==> c.cache_dir@ == env.cache_dir->0@
            &&& env.cache_dir is None ==> c.cache_dir@ == "./cache"@
            &&& env.port is Some && parsed(env.port->0@, 0xffff) is Some ==> c.port == parsed(
                env.port->0@,
                0xffff,
            )->0
            &&& env.port is None || parsed(env.port->0@, 0xffff) is None ==> c.port == 8080
            &&& env.cache_max_bytes is Some && parsed(
                env.cache_max_bytes->0@,
                0xffff_ffff_ffff_ffff,
            ) is Some ==> c.cache_max_bytes == parsed(
                env.cache_max_bytes->0@,
                0xffff_ffff_ffff_ffff,
            )->0
            &&& env.cache_max_bytes is None || parsed(
                env.cache_max_bytes->0@,
                0xffff_ffff_ffff_ffff,
            ) is None ==> c.cache_max_bytes == 2 * 1024 * 1024 * 1024
        },
        TOKEN_TTL_SECONDS == 15 * 60,
        TOKEN_CAPACITY == 10_000,
        SEARCH_TTL_SECONDS == 60 * 60,
        SEARCH_CAPACITY == 1_000,
        URL_CAPACITY == 50_000,
{
}

} // verus!
