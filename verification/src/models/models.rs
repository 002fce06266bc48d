//! The product that is traded and the orders that arrive for it.

use crate::models::decimal::Decimal;
use crate::models::types::{OrderStatus, OrderType, Side, TimeInForceType};
use vstd::prelude::*;

verus! {

/// The one product of an engine. `base_scale` is the number of decimal places
/// of a quantity, `quote_scale` that of a price.
#[derive(Debug, Clone)]
pub struct Product {
    pub id: String,
    pub base_currency: String,
    pub quote_currency: String,
    pub base_scale: i32,
    pub quote_scale: i32,
}

impl Product {
    /// A copy with the same contents.
    pub fn duplicate(&self) -> (p: Product)
        ensures
            p == *self,
    {
        Product {
            id: self.id.clone(),
            base_currency: self.base_currency.clone(),
            quote_currency: self.quote_currency.clone(),
            base_scale: self.base_scale,
            quote_scale: self.quote_scale,
        }
    }
}

/// An order as it arrives. `created_at` is in nanoseconds.
#[derive(Debug, Clone)]
pub struct Order {
    pub id: u64,
    pub created_at: u64,
    pub product_id: String,
    pub user_id: u64,
    pub client_oid: String,
    pub price: Decimal,
    pub size: Decimal,
    pub funds: Decimal,
    pub order_type: OrderType,
    pub side: Side,
    pub time_in_force: TimeInForceType,
    pub status: OrderStatus,
}

} // verus!
