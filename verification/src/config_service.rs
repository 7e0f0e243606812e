use vstd::prelude::*;

verus! {

/// The connection configuration for the store. Reading it from the
/// environment, and opening the client from it, is the caller's business;
/// queue semantics never depend on it.
#[derive(Clone, Debug)]
pub struct ConfigService {
    pub redis_url: String,
}

impl ConfigService {
    /// The connection string used when the environment names none: the local
    /// loopback at the store's standard port.
    pub fn default_url() -> (r: String)
        ensures
            r@ == "redis://127.0.0.1:6379"@,
    {
        String::from_str("redis://127.0.0.1:6379")
    }

    /// A configuration around a given connection string.
    pub fn with_url(redis_url: String) -> (r: ConfigService)
        ensures
            r.redis_url@ == redis_url@,
    {
        ConfigService { redis_url }
    }
}

} // verus!
