//! Price-time priority: the key by which resting orders are ranked, in two
//! orderings. Asks rank by ascending price, bids by descending price; within
//! a price both rank by ascending order id.

use crate::models::decimal::{relation, Decimal, Relation};
use vstd::prelude::*;

verus! {

/// A key made of a price and an order id, with the rank of a price in the
/// ordering that the key stands for. A smaller rank comes first.
pub trait OrderingTrait: Sized {
    /// The price of the key.
    spec fn key_price(&self) -> Decimal;

    /// The order id of the key.
    spec fn key_order_id(&self) -> u64;

    /// The rank of a price: its value for ascending keys, the negated value
    /// for descending keys.
    spec fn price_rank(price: Decimal) -> int;

    /// The key of an order with this price and id.
    fn new(price: &Decimal, order_id: u64) -> (k: Self)
        ensures
            k.key_price() == *price,
            k.key_order_id() == order_id,
    ;

    /// The order id of the key.
    fn order_id(&self) -> (id: u64)
        ensures
            id == self.key_order_id(),
    ;

    /// How this key stands to `other`: by rank of price first, by order id
    /// among keys of equal price.
    fn relation_to(&self, other: &Self) -> (r: Relation)
        ensures
            r == rank_relation(
                Self::price_rank(self.key_price()),
                self.key_order_id(),
                Self::price_rank(other.key_price()),
                other.key_order_id(),
            ),
    ;
}

/// How a key of the given rank and id stands to another: by rank first, by
/// order id among keys of equal rank.
pub open spec fn rank_relation(rank: int, id: u64, other_rank: int, other_id: u64) -> Relation {
    if rank < other_rank {
        Relation::Less
    } else if rank > other_rank {
        Relation::Greater
    } else {
        relation(id as int, other_id as int)
    }
}

/// How the key `(price, id)` stands to the key `(other_price, other_id)`.
pub open spec fn key_relation<T: OrderingTrait>(
    price: Decimal,
    id: u64,
    other_price: Decimal,
    other_id: u64,
) -> Relation {
    rank_relation(T::price_rank(price), id, T::price_rank(other_price), other_id)
}

/// The key `(price, id)` comes strictly before `(other_price, other_id)`.
pub open spec fn key_precedes<T: OrderingTrait>(
    price: Decimal,
    id: u64,
    other_price: Decimal,
    other_id: u64,
) -> bool {
    key_relation::<T>(price, id, other_price, other_id) == Relation::Less
}

/// Key of the ask side: ascending price, then ascending order id.
#[derive(Debug, Clone, Copy)]
pub struct PriceOrderIdKeyAsc {
    pub price: Decimal,
    pub order_id: u64,
}

/// Key of the bid side: descending price, then ascending order id.
#[derive(Debug, Clone, Copy)]
pub struct PriceOrderIdKeyDesc {
    pub price: Decimal,
    pub order_id: u64,
}

impl OrderingTrait for PriceOrderIdKeyAsc {
    open spec fn key_price(&self) -> Decimal {
        self.price
    }

    open spec fn key_order_id(&self) -> u64 {
        self.order_id
    }

    open spec fn price_rank(price: Decimal) -> int {
        price.units()
    }

    fn new(price: &Decimal, order_id: u64) -> (k: Self) {
        PriceOrderIdKeyAsc { price: *price, order_id }
    }

    fn order_id(&self) -> (id: u64) {
        self.order_id
    }

    fn relation_to(&self, other: &Self) -> (r: Relation) {
        match self.price.relation_to(other.price) {
            Relation::Less => Relation::Less,
            Relation::Greater => Relation::Greater,
            Relation::Equal => if self.order_id < other.order_id {
                Relation::Less
            } else if self.order_id > other.order_id {
                Relation::Greater
            } else {
                Relation::Equal
            },
        }
    }
}

impl OrderingTrait for PriceOrderIdKeyDesc {
    open spec fn key_price(&self) -> Decimal {
        self.price
    }

    open spec fn key_order_id(&self) -> u64 {
        self.order_id
    }

    open spec fn price_rank(price: Decimal) -> int {
        -price.units()
    }

    fn new(price: &Decimal, order_id: u64) -> (k: Self) {
        PriceOrderIdKeyDesc { price: *price, order_id }
    }

    fn order_id(&self) -> (id: u64) {
        self.order_id
    }

    fn relation_to(&self, other: &Self) -> (r: Relation) {
        match self.price.relation_to(other.price) {
            Relation::Less => Relation::Greater,
            Relation::Greater => Relation::Less,
            Relation::Equal => if self.order_id < other.order_id {
                Relation::Less
            } else if self.order_id > other.order_id {
                Relation::Greater
            } else {
                Relation::Equal
            },
        }
    }
}

/// Priority is a strict order: nothing precedes itself, precedence carries
/// over a middle key, and of two keys with different ids one precedes the
/// other.
pub proof fn lemma_priority_is_strict_order<T: OrderingTrait>(
    a: (Decimal, u64),
    b: (Decimal, u64),
    c: (Decimal, u64),
)
    ensures
        !key_precedes::<T>(a.0, a.1, a.0, a.1),
        key_precedes::<T>(a.0, a.1, b.0, b.1) && key_precedes::<T>(b.0, b.1, c.0, c.1)
            ==> key_precedes::<T>(a.0, a.1, c.0, c.1),
        a.1 != b.1 ==> key_precedes::<T>(a.0, a.1, b.0, b.1) || key_precedes::<T>(
            b.0,
            b.1,
            a.0,
            a.1,
        ),
        !(key_precedes::<T>(a.0, a.1, b.0, b.1) && key_precedes::<T>(b.0, b.1, a.0, a.1)),
{
}

/// Among asks a lower price comes first, among bids a higher price; at one
/// price the lower order id comes first on both sides.
pub proof fn lemma_best_price_first(
    price: Decimal,
    id: u64,
    other_price: Decimal,
    other_id: u64,
)
    ensures
        key_precedes::<PriceOrderIdKeyAsc>(price, id, other_price, other_id) <==> price.units()
            < other_price.units() || (price.units() == other_price.units() && id < other_id),
        key_precedes::<PriceOrderIdKeyDesc>(price, id, other_price, other_id) <==> price.units()
            > other_price.units() || (price.units() == other_price.units() && id < other_id),
{
}

} // verus!
