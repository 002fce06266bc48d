//! The names under which a product's snapshots, orders and events are kept
//! outside the engine.

use vstd::prelude::*;
use vstd::string::StringExecFns;

verus! {

/// With what the key of a product's snapshot begins.
pub const TOPIC_SNAPSHOT_PREFIX: &'static str = "matching_snapshot_";

/// With what the name of a product's log of orders begins.
pub const TOPIC_ORDER_PREFIX: &'static str = "matching_order_";

/// With what the name of a product's log of events begins.
pub const TOPIC_BOOK_MESSAGE_PREFIX: &'static str = "matching_order_";

/// `prefix` followed by `product_id`.
fn prefixed(prefix: &str, product_id: &str) -> (name: String)
    ensures
        name@ == prefix@ + product_id@,
{
    let name: String = prefix.to_owned();
    let whole = name.concat(product_id);
    whole
}

/// The key under which the snapshot of a product is stored.
pub fn snapshot_key(product_id: &str) -> (key: String)
    ensures
        key@ == TOPIC_SNAPSHOT_PREFIX@ + product_id@,
{
    prefixed(TOPIC_SNAPSHOT_PREFIX, product_id)
}

/// The name of the log from which the orders of a product are read.
pub fn order_topic(product_id: &str) -> (topic: String)
    ensures
        topic@ == TOPIC_ORDER_PREFIX@ + product_id@,
{
    prefixed(TOPIC_ORDER_PREFIX, product_id)
}

/// The name of the log to which the events of a product are written.
pub fn log_topic(product_id: &str) -> (topic: String)
    ensures
        topic@ == TOPIC_BOOK_MESSAGE_PREFIX@ + product_id@,
{
    prefixed(TOPIC_BOOK_MESSAGE_PREFIX, product_id)
}

} // verus!
