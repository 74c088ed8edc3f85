//! brave-rotator: the verified core of a rate-limit-aware reverse proxy that spreads Brave Search
//! API traffic over several subscription keys.

pub mod text;
pub mod clock;
pub mod header;
pub mod ratelimit;
pub mod key;
pub mod outcome;
pub mod pool;
pub mod snapshot;
pub mod laws;
pub mod key_laws;
pub mod pool_laws;
pub mod runs;
pub mod config;
pub mod upstream;
pub mod query;
pub mod proxy;
pub mod reply;
pub mod exchange;
pub mod report;
pub mod notes;
