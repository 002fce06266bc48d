//! What the engine is started with.

use crate::models::models::Product;
use vstd::prelude::*;

verus! {

/// Where the snapshot store is.
#[derive(Debug, Clone)]
pub struct RedisConfig {
    pub ip: String,
    pub port: u16,
}

/// Where the logs of orders and of events are, and the timeouts, in
/// seconds, of writing to and reading from them.
#[derive(Debug, Clone)]
pub struct KafkaConfig {
    pub brokers: Vec<String>,
    pub message_timeout: u64,
    pub session_timeout: u64,
}

/// How much is logged.
#[derive(Debug, Clone)]
pub struct LogConfig {
    pub level: String,
}

/// All that the engine is started with.
#[derive(Debug, Clone)]
pub struct Config {
    pub product: Product,
    pub redis: RedisConfig,
    pub kafka: KafkaConfig,
    pub log: LogConfig,
}

/// The name of the file that holds the configuration.
pub const CONFIG_FILE_NAME: &'static str = "config.json";

/// A timeout of so many seconds in milliseconds, or `None` where that does
/// not fit.
pub fn timeout_millis(seconds: u64) -> (r: Option<u64>)
    ensures
        r is Some <==> seconds * 1000 <= u64::MAX,
        r matches Some(ms) ==> ms == seconds * 1000,
{
    if seconds <= u64::MAX / 1000 {
        Some(seconds * 1000)
    } else {
        None
    }
}

} // verus!
