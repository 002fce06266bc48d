//! The order book: two sides of resting orders, the sequences of trades and
//! of events, and the window over order ids.

use crate::matching::crossing::{
    dry_run, dry_walk, lemma_decr_shrinks, lemma_self_shrunk, lemma_shrunk, match_against,
    only_spent, plain_walk, positive_matches, shrunk_from, spends_funds, walk, walk_state, Walk,
};
use crate::matching::depth::{
    all_positive, decr_answer, decr_side, distinct_ids, has_order, in_priority_order,
    lemma_insert_positive, lemma_place_exists, place, position, AskDepth, BidDepth, Depth,
    DepthError,
};
use crate::matching::laws::{
    lemma_apply_matches, lemma_apply_numbers, lemma_cancel_numbers, lemma_nullify_numbers,
    numbered, sound_events,
};
use crate::matching::log::{events_of, new_done_log, new_open_log, Event, Log};
use crate::matching::ordering::{OrderingTrait, PriceOrderIdKeyAsc, PriceOrderIdKeyDesc};
use crate::models::decimal::{Decimal, Relation};
use crate::models::models::{Order, Product};
use crate::models::types::{DoneReason, OrderType, Side, TimeInForceType};
use crate::utils::window::{
    lemma_accepted_was_unseen, lemma_clear_window_sees_nothing, lemma_put_keeps_all_seen,
    lemma_put_records, lemma_rejected_put, Window, WindowView,
};
use std::collections::HashSet;
use vstd::prelude::*;

verus! {

/// What the book keeps of an order. Only `size` changes while the order
/// rests.
#[derive(Debug, Clone, Copy)]
pub struct BookOrder {
    pub order_id: u64,
    pub user_id: u64,
    pub size: Decimal,
    pub funds: Decimal,
    pub price: Decimal,
    pub side: Side,
    pub order_type: OrderType,
    pub time_in_force: TimeInForceType,
}

impl BookOrder {
    /// What the book keeps of `order`.
    pub open spec fn of(order: Order) -> BookOrder {
        BookOrder {
            order_id: order.id,
            user_id: order.user_id,
            size: order.size,
            funds: order.funds,
            price: order.price,
            side: order.side,
            order_type: order.order_type,
            time_in_force: order.time_in_force,
        }
    }

    /// What the book keeps of `order`.
    pub fn new_book_order(order: &Order) -> (b: Self)
        ensures
            b == BookOrder::of(*order),
    {
        BookOrder {
            order_id: order.id,
            user_id: order.user_id,
            size: order.size,
            funds: order.funds,
            price: order.price,
            side: order.side,
            order_type: order.order_type,
            time_in_force: order.time_in_force,
        }
    }

    /// The same order with another size.
    pub open spec fn with_size(self, size: Decimal) -> BookOrder {
        BookOrder { size, ..self }
    }
}

impl Default for BookOrder {
    /// A limit buy order, good till cancelled, with every number zero.
    fn default() -> (b: Self)
        ensures
            b.order_id == 0,
            b.user_id == 0,
            b.size == Decimal::spec_zero(),
            b.funds == Decimal::spec_zero(),
            b.price == Decimal::spec_zero(),
            b.side == Side::SideBuy,
            b.order_type == OrderType::OrderTypeLimit,
            b.time_in_force == TimeInForceType::GoodTillCanceled,
    {
        BookOrder {
            order_id: 0,
            user_id: 0,
            size: Decimal::zero(),
            funds: Decimal::zero(),
            price: Decimal::zero(),
            side: Side::SideBuy,
            order_type: OrderType::OrderTypeLimit,
            time_in_force: TimeInForceType::GoodTillCanceled,
        }
    }
}

/// The width of the window over order ids of a new book.
pub const ORDER_ID_WINDOW_CAP: u64 = 10000;

/// Why the book could not go on. The book may have changed before it failed:
/// whoever drives it has to stop.
#[derive(Clone, Copy, Debug, PartialEq, Eq, Structural)]
pub enum BookError {
    /// A size, a product or a quotient cannot be represented, or a price to
    /// divide by is zero.
    Arithmetic,
    /// A resting order could not be reduced.
    Depth(DepthError),
}

/// All that a book holds, for saving and restoring it.
#[derive(Debug, Clone)]
pub struct OrderBookSnapshot {
    pub product_id: String,
    pub orders: Vec<BookOrder>,
    pub trade_seq: u64,
    pub log_seq: u64,
    pub order_id_window: Window,
}

/// A snapshot as plain values.
pub struct SnapshotView {
    pub product_id: Seq<char>,
    pub orders: Seq<BookOrder>,
    pub trade_seq: u64,
    pub log_seq: u64,
    pub window: WindowView,
}

impl View for OrderBookSnapshot {
    type V = SnapshotView;

    open spec fn view(&self) -> SnapshotView {
        SnapshotView {
            product_id: self.product_id@,
            orders: self.orders@,
            trade_seq: self.trade_seq,
            log_seq: self.log_seq,
            window: self.order_id_window@,
        }
    }
}

impl SnapshotView {
    /// A book without resting orders takes the snapshot, see
    /// [`BookState::takes`]: the saved window has no width or is
    /// well-formed, and the saved orders have ids that differ from each
    /// other and that the window of the restored book has seen.
    pub open spec fn restorable(self) -> bool {
        (BookState {
            asks: Seq::empty(),
            bids: Seq::empty(),
            trade_seq: 0,
            log_seq: 0,
            window: self.window,
        }).takes(self)
    }
}

impl OrderBookSnapshot {
    /// Whether a book without resting orders takes the snapshot, see
    /// [`SnapshotView::restorable`].
    pub fn is_restorable(&self) -> (r: bool)
        ensures
            r == self@.restorable(),
    {
        broadcast use vstd::std_specs::hash::group_hash_axioms;

        let ghost empty = BookState {
            asks: Seq::empty(),
            bids: Seq::empty(),
            trade_seq: 0,
            log_seq: 0,
            window: self@.window,
        };
        let ghost base = empty.reset_to(self@);
        let ghost orders = self.orders@;
        proof {
            reveal(BookState::sides_wf);
            assert(base.sides_wf());
        }
        let n: usize = self.orders.len();
        if self.order_id_window.cap == 0 {
            proof {
                if n > 0 {
                    lemma_clear_window_sees_nothing(
                        restored_window(self@.window),
                        orders[0].order_id,
                    );
                }
            }
            return n == 0;
        }
        if !self.order_id_window.is_valid() {
            return false;
        }
        let mut ids: HashSet<u64> = HashSet::new();
        let mut i: usize = 0;
        while i < n
            invariant
                i <= n,
                n == orders.len(),
                orders == self.orders@,
                self.order_id_window@.wf(),
                self.order_id_window@ == restored_window(self@.window),
                forall|j: int| 0 <= j < i ==> self.order_id_window@.seen((#[trigger] orders[j]).order_id),
                forall|j: int| 0 <= j < i ==> ids@.contains((#[trigger] orders[j]).order_id),
                forall|id: u64|
                    ids@.contains(id) ==> exists|j: int|
                        0 <= j < i && (#[trigger] orders[j]).order_id == id,
                forall|a: int, b: int|
                    0 <= a < i && 0 <= b < i && a != b ==> (#[trigger] orders[a]).order_id != (
                    #[trigger] orders[b]).order_id,
            decreases n - i,
        {
            let id: u64 = self.orders[i].order_id;
            if !self.order_id_window.has_seen(id) {
                assert(orders[i as int].order_id == id);
                return false;
            }
            if !ids.insert(id) {
                proof {
                    let j = choose|j: int| 0 <= j < i && (#[trigger] orders[j]).order_id == id;
                    assert(orders[j].order_id == orders[i as int].order_id);
                }
                return false;
            }
            i = i + 1;
        }
        proof {
            assert forall|k: int| 0 <= k < orders.len() implies {
                let id = (#[trigger] orders[k]).order_id;
                &&& restored_window(self@.window).seen(id)
                &&& !has_order(empty.asks, id)
                &&& !has_order(empty.bids, id)
            } by {}
        }
        true
    }

    /// A snapshot that holds the same.
    pub fn duplicate(&self) -> (s: Self)
        ensures
            s@ == self@,
    {
        let n: usize = self.orders.len();
        let mut orders: Vec<BookOrder> = Vec::new();
        let mut i: usize = 0;
        while i < n
            invariant
                n == self.orders@.len(),
                i <= n,
                orders@ == self.orders@.take(i as int),
            decreases n - i,
        {
            orders.push(self.orders[i]);
            i = i + 1;
            assert(orders@ =~= self.orders@.take(i as int));
        }
        assert(self.orders@.take(n as int) =~= self.orders@);
        OrderBookSnapshot {
            product_id: self.product_id.clone(),
            orders,
            trade_seq: self.trade_seq,
            log_seq: self.log_seq,
            order_id_window: self.order_id_window.duplicate(),
        }
    }
}

/// The book of one product.
pub struct OrderBook {
    pub product: Product,
    pub ask_depths: AskDepth,
    pub bid_depths: BidDepth,
    pub trade_seq: u64,
    pub log_seq: u64,
    pub order_id_window: Window,
}

/// A book as plain values: each side in priority order, the two sequences and
/// the window.
pub struct BookState {
    pub asks: Seq<BookOrder>,
    pub bids: Seq<BookOrder>,
    pub trade_seq: u64,
    pub log_seq: u64,
    pub window: WindowView,
}

impl BookState {
    /// Both sides are in priority order, asks hold sell orders and bids buy
    /// orders, no id rests twice, and the window has seen every resting id.
    pub open spec fn wf(self) -> bool {
        self.window.wf() && self.sides_wf()
    }

    /// What [`BookState::wf`] asks of the two sides.
    #[verifier::opaque]
    pub open spec fn sides_wf(self) -> bool {
        &&& in_priority_order::<PriceOrderIdKeyAsc>(self.asks)
        &&& in_priority_order::<PriceOrderIdKeyDesc>(self.bids)
        &&& distinct_ids(self.asks)
        &&& distinct_ids(self.bids)
        &&& forall|i: int| 0 <= i < self.asks.len() ==> (#[trigger] self.asks[i]).side == Side::SideSell
        &&& forall|i: int| 0 <= i < self.bids.len() ==> (#[trigger] self.bids[i]).side == Side::SideBuy
        &&& forall|id: u64| !(has_order(self.asks, id) && has_order(self.bids, id))
        &&& forall|id: u64|
            has_order(self.asks, id) || has_order(self.bids, id) ==> #[trigger] self.window.seen(id)
    }

    /// The side that an order of the given side trades against.
    pub open spec fn opposite(self, side: Side) -> Seq<BookOrder> {
        match side {
            Side::SideBuy => self.asks,
            Side::SideSell => self.bids,
        }
    }

    /// The side that an order of the given side rests on.
    pub open spec fn own(self, side: Side) -> Seq<BookOrder> {
        match side {
            Side::SideBuy => self.bids,
            Side::SideSell => self.asks,
        }
    }

    /// Every resting order has a positive size.
    pub open spec fn sizes_positive(self) -> bool {
        all_positive(self.asks) && all_positive(self.bids)
    }

    /// The number of resting orders.
    pub open spec fn resting(self) -> nat {
        self.asks.len() + self.bids.len()
    }

    /// The sequences can still grow by what one call may add to them.
    pub open spec fn has_room(self) -> bool {
        &&& self.log_seq + 2 * self.resting() + 2 <= u64::MAX
        &&& self.trade_seq + self.resting() <= u64::MAX
    }
}

/// `order` as a taker: what the book keeps of it, with the price of a market
/// order set so that it crosses every price (the largest number for a buy,
/// zero for a sell).
pub open spec fn taker_of(order: Order) -> BookOrder {
    let taker = BookOrder::of(order);
    match taker.order_type {
        OrderType::OrderTypeMarket => match taker.side {
            Side::SideBuy => BookOrder { price: Decimal::spec_max(), ..taker },
            Side::SideSell => BookOrder { price: Decimal::spec_zero(), ..taker },
        },
        OrderType::OrderTypeLimit => taker,
    }
}

/// The taker's price does not reach the maker's: a buy below it, a sell above
/// it.
pub open spec fn misses(taker: BookOrder, maker: BookOrder) -> bool {
    match taker.side {
        Side::SideBuy => taker.price.units() < maker.price.units(),
        Side::SideSell => taker.price.units() > maker.price.units(),
    }
}

/// A book and what a call on it gave.
pub struct Applied {
    pub book: BookState,
    pub outcome: Result<Seq<Event>, BookError>,
}

/// The taker goes on the book after its walk: a limit order with something
/// left.
pub open spec fn rests(taker: BookOrder) -> bool {
    taker.order_type == OrderType::OrderTypeLimit && taker.size.units() > 0
}

/// The done event of a taker that does not rest. A limit order is filled and
/// reports what is left of its size. A market order reports price and
/// remaining size as zero; it is cancelled where a sell has size left or a
/// buy has funds left, and filled otherwise.
pub open spec fn taker_done(seq: u64, product_id: Seq<char>, taker: BookOrder) -> Event {
    match taker.order_type {
        OrderType::OrderTypeLimit => Event::done(
            seq,
            product_id,
            taker,
            taker.size,
            DoneReason::DoneReasonFilled,
        ),
        OrderType::OrderTypeMarket => {
            let unfilled = match taker.side {
                Side::SideSell => taker.size.units() > 0,
                Side::SideBuy => taker.funds.units() > 0,
            };
            Event::done(
                seq,
                product_id,
                BookOrder { price: Decimal::spec_zero(), ..taker },
                Decimal::spec_zero(),
                if unfilled {
                    DoneReason::DoneReasonCancelled
                } else {
                    DoneReason::DoneReasonFilled
                },
            )
        },
    }
}

impl BookState {
    /// The book with `makers` as the side opposite to `side`.
    pub open spec fn with_opposite(self, side: Side, makers: Seq<BookOrder>) -> BookState {
        match side {
            Side::SideBuy => BookState { asks: makers, ..self },
            Side::SideSell => BookState { bids: makers, ..self },
        }
    }

    /// The book with `order` resting on its own side, at its place.
    pub open spec fn with_resting(self, order: BookOrder) -> BookState {
        match order.side {
            Side::SideBuy => BookState {
                bids: self.bids.insert(place::<PriceOrderIdKeyDesc>(self.bids, order), order),
                ..self
            },
            Side::SideSell => BookState {
                asks: self.asks.insert(place::<PriceOrderIdKeyAsc>(self.asks, order), order),
                ..self
            },
        }
    }

    /// The walk of `order` through the opposite side of this book.
    pub open spec fn walk_of(self, product_id: Seq<char>, base_scale: i32, order: Order) -> Walk {
        walk(
            product_id,
            base_scale,
            Walk {
                taker: taker_of(order),
                makers: self.opposite(order.side),
                log_seq: self.log_seq,
                trade_seq: self.trade_seq,
                events: Seq::empty(),
                failure: None,
            },
            0,
        )
    }

    /// What `apply_order` does to the book and what it gives.
    ///
    /// An order whose id the window turns away changes nothing and gives no
    /// event. Any other order is recorded in the window and walks through the
    /// opposite side. Where the walk breaks off, the call fails with the book
    /// as the walk left it. Otherwise a taker that rests goes on its own side
    /// and an open event follows the events of the walk; one that does not
    /// rest is followed by its done event.
    pub open spec fn apply(self, product_id: Seq<char>, base_scale: i32, order: Order) -> Applied {
        if !self.window.accepts(order.id) {
            Applied { book: self, outcome: Ok(Seq::empty()) }
        } else {
            let w = self.walk_of(product_id, base_scale, order);
            let walked = BookState {
                log_seq: w.log_seq,
                trade_seq: w.trade_seq,
                window: self.window.put(order.id),
                ..self.with_opposite(order.side, w.makers)
            };
            let seq = (w.log_seq + 1) as u64;
            match w.failure {
                Some(e) => Applied { book: walked, outcome: Err(e) },
                None => if rests(w.taker) {
                    Applied {
                        book: (BookState { log_seq: seq, ..walked }).with_resting(w.taker),
                        outcome: Ok(w.events.push(Event::open(seq, product_id, w.taker))),
                    }
                } else {
                    Applied {
                        book: BookState { log_seq: seq, ..walked },
                        outcome: Ok(w.events.push(taker_done(seq, product_id, w.taker))),
                    }
                },
            }
        }
    }
}

/// No id rests on both sides of a well-formed book.
pub proof fn lemma_rests_once(book: BookState, id: u64)
    requires
        book.wf(),
    ensures
        !(has_order(book.asks, id) && has_order(book.bids, id)),
{
    reveal(BookState::sides_wf);
}

/// Well-formedness does not depend on the two sequences.
pub proof fn lemma_wf_ignores_sequences(book: BookState, other: BookState)
    requires
        book.wf(),
        other.asks == book.asks,
        other.bids == book.bids,
        other.window == book.window,
    ensures
        other.wf(),
{
    reveal(BookState::sides_wf);
}

/// A book stays well-formed when its sides shrink and the window takes
/// `id`. If the window accepts `id`, no order with that id rests.
pub proof fn lemma_shrink_keeps_wf(before: BookState, after: BookState, id: u64)
    requires
        before.wf(),
        in_priority_order::<PriceOrderIdKeyAsc>(after.asks),
        in_priority_order::<PriceOrderIdKeyDesc>(after.bids),
        distinct_ids(after.asks),
        distinct_ids(after.bids),
        shrunk_from(after.asks, before.asks),
        shrunk_from(after.bids, before.bids),
        after.window == before.window.put(id) || after.window == before.window,
    ensures
        after.wf(),
        before.window.accepts(id) ==> !has_order(after.asks, id) && !has_order(after.bids, id),
        before.window.accepts(id) && after.window == before.window.put(id)
            ==> after.window.seen(id),
{
    reveal(BookState::sides_wf);
    lemma_put_keeps_all_seen(before.window, id);
    lemma_shrunk(after.asks, before.asks, Side::SideSell);
    lemma_shrunk(after.bids, before.bids, Side::SideBuy);
    assert forall|x: u64|
        has_order(after.asks, x) || has_order(after.bids, x) implies #[trigger] after.window.seen(
        x,
    ) by {
        assert(has_order(before.asks, x) || has_order(before.bids, x));
        assert(before.window.seen(x));
    }
    assert forall|x: u64| !(has_order(after.asks, x) && has_order(after.bids, x)) by {
        if has_order(after.asks, x) && has_order(after.bids, x) {
            assert(has_order(before.asks, x) && has_order(before.bids, x));
        }
    }
    if before.window.accepts(id) {
        lemma_accepted_was_unseen(before.window, id);
        lemma_put_records(before.window, id);
        if has_order(after.asks, id) || has_order(after.bids, id) {
            assert(has_order(before.asks, id) || has_order(before.bids, id));
        }
    }
}

/// A book stays well-formed when an order that rests nowhere, and that the
/// window has seen, goes on its own side at its place.
pub proof fn lemma_rest_keeps_wf(book: BookState, order: BookOrder)
    requires
        book.wf(),
        !has_order(book.asks, order.order_id),
        !has_order(book.bids, order.order_id),
        book.window.seen(order.order_id),
    ensures
        book.with_resting(order).wf(),
{
    reveal(BookState::sides_wf);
    let after = book.with_resting(order);
    let own_before = book.own(order.side);
    let own_after = after.own(order.side);
    let k = match order.side {
        Side::SideBuy => place::<PriceOrderIdKeyDesc>(own_before, order),
        Side::SideSell => place::<PriceOrderIdKeyAsc>(own_before, order),
    };
    lemma_place_in_range(book, order);
    assert(own_after == own_before.insert(k, order));
    assert forall|i: int| 0 <= i < own_after.len() implies (#[trigger] own_after[i]).side
        == order.side by {
        if i < k {
            assert(own_after[i] == own_before[i]);
        } else if i > k {
            assert(own_after[i] == own_before[i - 1]);
        }
    }
    assert forall|id: u64| has_order(own_after, id) implies id == order.order_id || has_order(
        own_before,
        id,
    ) by {
        let i = position(own_after, id);
        if i < k {
            assert(own_after[i] == own_before[i]);
        } else if i > k {
            assert(own_after[i] == own_before[i - 1]);
        }
    }
    assert(after.opposite(order.side) == book.opposite(order.side));
    assert(distinct_ids(own_after)) by {
        assert forall|i: int, j: int| 0 <= i < j < own_after.len() implies (
        #[trigger] own_after[i]).order_id != (#[trigger] own_after[j]).order_id by {
            let oi = if i < k { i } else { i - 1 };
            let oj = if j < k { j } else { j - 1 };
            if i != k && j != k {
                assert(own_after[i] == own_before[oi] && own_after[j] == own_before[oj]);
            } else if i == k {
                assert(own_after[j] == own_before[oj]);
            } else {
                assert(own_after[i] == own_before[oi]);
            }
        }
    }
    assert forall|id: u64| !(has_order(after.asks, id) && has_order(after.bids, id)) by {
        if has_order(after.asks, id) && has_order(after.bids, id) {
            if id != order.order_id {
                assert(has_order(book.asks, id) && has_order(book.bids, id));
            }
        }
    }
    assert forall|id: u64|
        has_order(after.asks, id) || has_order(after.bids, id) implies #[trigger] after.window.seen(
        id,
    ) by {
        if id != order.order_id {
            assert(has_order(book.asks, id) || has_order(book.bids, id));
        }
    }
}

/// Resting sizes stay positive when an order of positive size goes on the
/// book.
pub proof fn lemma_rest_keeps_positive(book: BookState, order: BookOrder)
    requires
        book.wf(),
        book.sizes_positive(),
        order.size.units() > 0,
        !has_order(book.asks, order.order_id),
        !has_order(book.bids, order.order_id),
    ensures
        book.with_resting(order).sizes_positive(),
{
    reveal(BookState::sides_wf);
    lemma_place_in_range(book, order);
    match order.side {
        Side::SideBuy => {
            lemma_insert_positive(
                book.bids,
                place::<PriceOrderIdKeyDesc>(book.bids, order),
                order,
            );
        },
        Side::SideSell => {
            lemma_insert_positive(
                book.asks,
                place::<PriceOrderIdKeyAsc>(book.asks, order),
                order,
            );
        },
    }
}

/// An order that goes on the book brings its own id and no other.
pub proof fn lemma_resting_ids(book: BookState, order: BookOrder)
    requires
        book.wf(),
        !has_order(book.asks, order.order_id),
        !has_order(book.bids, order.order_id),
    ensures
        forall|id: u64|
            has_order(book.with_resting(order).asks, id) ==> id == order.order_id || has_order(
                book.asks,
                id,
            ),
        forall|id: u64|
            has_order(book.with_resting(order).bids, id) ==> id == order.order_id || has_order(
                book.bids,
                id,
            ),
{
    reveal(BookState::sides_wf);
    lemma_place_in_range(book, order);
    let after = book.with_resting(order);
    let own_before = book.own(order.side);
    let own_after = after.own(order.side);
    let k = match order.side {
        Side::SideBuy => place::<PriceOrderIdKeyDesc>(own_before, order),
        Side::SideSell => place::<PriceOrderIdKeyAsc>(own_before, order),
    };
    assert(own_after == own_before.insert(k, order));
    assert forall|id: u64| has_order(own_after, id) implies id == order.order_id || has_order(
        own_before,
        id,
    ) by {
        let i = position(own_after, id);
        if i < k {
            assert(own_after[i] == own_before[i]);
        } else if i > k {
            assert(own_after[i] == own_before[i - 1]);
        }
    }
    assert(after.opposite(order.side) == book.opposite(order.side));
}

/// The place of a resting order is a place of its side.
pub proof fn lemma_place_in_range(book: BookState, order: BookOrder)
    requires
        in_priority_order::<PriceOrderIdKeyAsc>(book.asks),
        in_priority_order::<PriceOrderIdKeyDesc>(book.bids),
        !has_order(book.asks, order.order_id),
        !has_order(book.bids, order.order_id),
    ensures
        order.side == Side::SideBuy ==> 0 <= place::<PriceOrderIdKeyDesc>(book.bids, order)
            <= book.bids.len(),
        order.side == Side::SideSell ==> 0 <= place::<PriceOrderIdKeyAsc>(book.asks, order)
            <= book.asks.len(),
        in_priority_order::<PriceOrderIdKeyAsc>(book.with_resting(order).asks),
        in_priority_order::<PriceOrderIdKeyDesc>(book.with_resting(order).bids),
{
    match order.side {
        Side::SideBuy => {
            lemma_place_exists::<PriceOrderIdKeyDesc>(book.bids, order);
        },
        Side::SideSell => {
            lemma_place_exists::<PriceOrderIdKeyAsc>(book.asks, order);
        },
    }
}

/// The window that a restored book gets: the saved one, or a new window of
/// [`ORDER_ID_WINDOW_CAP`] ids above zero where the saved one has no width.
pub open spec fn restored_window(saved: WindowView) -> WindowView {
    if saved.cap == 0 {
        WindowView {
            min: 0,
            max: ORDER_ID_WINDOW_CAP,
            cap: ORDER_ID_WINDOW_CAP,
            bits: Seq::new(ORDER_ID_WINDOW_CAP as nat, |k: int| false),
        }
    } else {
        saved
    }
}

impl BookState {
    /// The book after the orders from place `from` on have each gone on
    /// their side.
    pub open spec fn rest_all(self, orders: Seq<BookOrder>, from: int) -> BookState
        decreases orders.len() - from,
    {
        if from < 0 || from >= orders.len() {
            self
        } else {
            self.with_resting(orders[from]).rest_all(orders, from + 1)
        }
    }

    /// The book before the saved orders go on it: the saved sequences and
    /// window, the sides as they are.
    pub open spec fn reset_to(self, snap: SnapshotView) -> BookState {
        BookState {
            trade_seq: snap.trade_seq,
            log_seq: snap.log_seq,
            window: restored_window(snap.window),
            ..self
        }
    }

    /// What `restore` makes of the book.
    pub open spec fn restore(self, snap: SnapshotView) -> BookState {
        self.reset_to(snap).rest_all(snap.orders, 0)
    }

    /// The snapshot can be restored on this book: with the saved window the
    /// book is well-formed, and the saved orders have ids that differ from
    /// each other, rest nowhere yet, and are seen by the window.
    pub open spec fn takes(self, snap: SnapshotView) -> bool {
        &&& self.reset_to(snap).wf()
        &&& forall|i: int|
            0 <= i < snap.orders.len() ==> {
                let id = (#[trigger] snap.orders[i]).order_id;
                &&& restored_window(snap.window).seen(id)
                &&& !has_order(self.asks, id)
                &&& !has_order(self.bids, id)
            }
        &&& forall|i: int, j: int|
            0 <= i < snap.orders.len() && 0 <= j < snap.orders.len() && i != j ==> (
            #[trigger] snap.orders[i]).order_id != (#[trigger] snap.orders[j]).order_id
    }

    /// What a snapshot of the book holds.
    pub open spec fn snapshot(self, product_id: Seq<char>) -> SnapshotView {
        SnapshotView {
            product_id,
            orders: self.asks + self.bids,
            trade_seq: self.trade_seq,
            log_seq: self.log_seq,
            window: self.window,
        }
    }

    /// The side that holds the resting orders of the given side.
    pub open spec fn side_of(self, side: Side) -> Seq<BookOrder> {
        self.own(side)
    }

    /// The book with `orders` as the side that holds orders of `side`.
    pub open spec fn with_side(self, side: Side, orders: Seq<BookOrder>) -> BookState {
        match side {
            Side::SideSell => BookState { asks: orders, ..self },
            Side::SideBuy => BookState { bids: orders, ..self },
        }
    }

    /// The side on which a cancellation finds the order with the id of
    /// `order`: the side opposite to `order.side` is searched first, then its
    /// own side.
    pub open spec fn found_on(self, order: Order) -> Option<Side> {
        if has_order(self.opposite(order.side), order.id) {
            Some(order.side.spec_opposite())
        } else if has_order(self.own(order.side), order.id) {
            Some(order.side)
        } else {
            None
        }
    }

    /// What `cancel_order` does to the book and what it gives.
    ///
    /// The window takes the id. Where no order with the id rests, nothing
    /// else happens. Otherwise the order's whole size is taken from it and a
    /// done event says that it is cancelled, with the size it rested with.
    pub open spec fn cancel(self, product_id: Seq<char>, order: Order) -> Applied {
        let noted = BookState { window: self.window.put(order.id), ..self };
        match self.found_on(order) {
            None => Applied { book: noted, outcome: Ok(Seq::empty()) },
            Some(side) => {
                let orders = self.side_of(side);
                let resting = orders[position(orders, order.id)];
                match decr_answer(orders, order.id, resting.size) {
                    Err(e) => Applied { book: noted, outcome: Err(BookError::Depth(e)) },
                    Ok(_) => {
                        let seq = (self.log_seq + 1) as u64;
                        Applied {
                            book: BookState {
                                log_seq: seq,
                                ..noted.with_side(side, decr_side(orders, order.id, resting.size))
                            },
                            outcome: Ok(
                                seq![
                                    Event::done(
                                        seq,
                                        product_id,
                                        resting,
                                        resting.size,
                                        DoneReason::DoneReasonCancelled,
                                    ),
                                ],
                            ),
                        }
                    },
                }
            },
        }
    }

    /// What `nullify_order` does to the book and the one event it gives: the
    /// window takes the id, and the order is done, cancelled, with its whole
    /// size remaining.
    pub open spec fn nullify(self, product_id: Seq<char>, order: Order) -> (BookState, Event) {
        let seq = (self.log_seq + 1) as u64;
        (
            BookState { window: self.window.put(order.id), log_seq: seq, ..self },
            Event::done(
                seq,
                product_id,
                BookOrder::of(order),
                order.size,
                DoneReason::DoneReasonCancelled,
            ),
        )
    }

    /// Whether `order` would be filled in full on arrival, or `None` where a
    /// number cannot be computed. The taker meets the opposite side without
    /// trading; a limit order is filled in full when nothing of its size is
    /// left, a market order always.
    pub open spec fn will_full_match(self, base_scale: i32, order: Order) -> Option<bool> {
        match dry_walk(taker_of(order), self.opposite(order.side), base_scale, 0) {
            None => None,
            Some(taker) => Some(!rests(taker)),
        }
    }
}

/// Takes from the order with the id its whole size, if it rests on `depth`,
/// and tells which order it was.
fn cancel_on<T: OrderingTrait>(depth: &mut Depth<T>, order_id: u64) -> (r: Result<
    Option<BookOrder>,
    DepthError,
>)
    requires
        old(depth).wf(),
    ensures
        final(depth).wf(),
        shrunk_from(final(depth)@, old(depth)@),
        !has_order(old(depth)@, order_id) ==> r == Ok::<Option<BookOrder>, DepthError>(None)
            && final(depth)@ == old(depth)@,
        has_order(old(depth)@, order_id) ==> {
            let resting = old(depth)@[position(old(depth)@, order_id)];
            &&& final(depth)@ == decr_side(old(depth)@, order_id, resting.size)
            &&& match decr_answer(old(depth)@, order_id, resting.size) {
                Ok(_) => r == Ok::<Option<BookOrder>, DepthError>(Some(resting)),
                Err(e) => r == Err::<Option<BookOrder>, DepthError>(e),
            }
        },
        all_positive(old(depth)@) ==> r is Ok && all_positive(final(depth)@) && !has_order(
            final(depth)@,
            order_id,
        ),
{
    proof {
        lemma_self_shrunk(depth@);
        depth.lemma_wf();
    }
    let ghost before = depth@;
    match depth.get(order_id) {
        None => Ok(None),
        Some(resting) => {
            proof {
                lemma_decr_shrinks(depth@, order_id, resting.size);
            }
            match depth.reduce(order_id, &resting.size) {
                Ok(_) => {
                    proof {
                        if all_positive(before) {
                            let k = position(before, order_id);
                            assert(before[k].size.units() > 0);
                            assert(depth@ == before.remove(k));
                            assert forall|i: int| 0 <= i < depth@.len() implies (
                            #[trigger] depth@[i]).size.units() > 0 && depth@[i].order_id
                                != order_id by {
                                let o = if i < k { i } else { i + 1 };
                                assert(depth@[i] == before[o]);
                                if o < k {
                                    assert(before[o].order_id != before[k].order_id);
                                } else {
                                    assert(before[k].order_id != before[o].order_id);
                                }
                            }
                        }
                    }
                    Ok(Some(resting))
                },
                Err(e) => {
                    proof {
                        if all_positive(before) {
                            assert(before[position(before, order_id)].size.units() > 0);
                        }
                    }
                    Err(e)
                },
            }
        },
    }
}

/// Every resting order has a positive size, and `order` is not a market
/// order to buy and asks for no negative size. Such an arrival never fails,
/// trades only positive sizes, and leaves every resting size positive.
pub open spec fn plain_arrival(book: BookState, order: Order) -> bool {
    &&& book.sizes_positive()
    &&& !spends_funds(taker_of(order))
    &&& order.size.units() >= 0
}

/// The outcome says what the call gave.
pub open spec fn gave(outcome: Result<Seq<Event>, BookError>, r: Result<Vec<Log>, BookError>) -> bool {
    match r {
        Ok(logs) => outcome == Ok::<Seq<Event>, BookError>(events_of(logs@)),
        Err(e) => outcome == Err::<Seq<Event>, BookError>(e),
    }
}

impl View for OrderBook {
    type V = BookState;

    open spec fn view(&self) -> BookState {
        BookState {
            asks: self.ask_depths@,
            bids: self.bid_depths@,
            trade_seq: self.trade_seq,
            log_seq: self.log_seq,
            window: self.order_id_window@,
        }
    }
}

/// `order` as a taker, see [`taker_of`].
pub fn new_taker(order: &Order) -> (taker: BookOrder)
    ensures
        taker == taker_of(*order),
{
    let mut taker = BookOrder::new_book_order(order);
    match taker.order_type {
        OrderType::OrderTypeMarket => {
            taker.price = match taker.side {
                Side::SideBuy => Decimal::max(),
                Side::SideSell => Decimal::zero(),
            };
        },
        OrderType::OrderTypeLimit => {},
    }
    taker
}

/// Whether `taker` misses `maker`, see [`misses`].
pub fn taker_misses(taker: &BookOrder, maker: &BookOrder) -> (r: bool)
    ensures
        r == misses(*taker, *maker),
{
    match taker.side {
        Side::SideBuy => taker.price.relation_to(maker.price) == Relation::Less,
        Side::SideSell => taker.price.relation_to(maker.price) == Relation::Greater,
    }
}

impl OrderBook {
    /// Each side is well-formed and so is the book as a whole.
    pub open spec fn wf(&self) -> bool {
        &&& self.ask_depths.wf()
        &&& self.bid_depths.wf()
        &&& self@.wf()
    }

    /// An empty book for `product`, both sequences at zero, with a window of
    /// [`ORDER_ID_WINDOW_CAP`] ids above zero.
    pub fn new_order_book(product: &Product) -> (book: Self)
        ensures
            book.wf(),
            book.product == *product,
            book@.asks.len() == 0,
            book@.bids.len() == 0,
            book@.trade_seq == 0,
            book@.log_seq == 0,
            book@.window.min == 0,
            book@.window.max == ORDER_ID_WINDOW_CAP,
            book@.window.cap == ORDER_ID_WINDOW_CAP,
            forall|k: int| 0 <= k < book@.window.bits.len() ==> !book@.window.bits[k],
    {
        proof {
            reveal(BookState::sides_wf);
        }
        OrderBook {
            product: product.duplicate(),
            ask_depths: Depth::new(),
            bid_depths: Depth::new(),
            trade_seq: 0,
            log_seq: 0,
            order_id_window: Window::new(0, ORDER_ID_WINDOW_CAP),
        }
    }

    /// Moves the event sequence on by one and returns it.
    pub fn next_log_seq(&mut self) -> (seq: u64)
        requires
            old(self).log_seq < u64::MAX,
        ensures
            seq == old(self).log_seq + 1,
            *final(self) == (OrderBook { log_seq: seq, ..*old(self) }),
    {
        self.log_seq = self.log_seq + 1;
        self.log_seq
    }

    /// Moves the trade sequence on by one and returns it.
    pub fn next_trade_seq(&mut self) -> (seq: u64)
        requires
            old(self).trade_seq < u64::MAX,
        ensures
            seq == old(self).trade_seq + 1,
            *final(self) == (OrderBook { trade_seq: seq, ..*old(self) }),
    {
        self.trade_seq = self.trade_seq + 1;
        self.trade_seq
    }

    /// Whether the sequences can still grow by what one call may add.
    pub fn has_room(&self) -> (r: bool)
        ensures
            r == self@.has_room(),
    {
        let n: u128 = self.ask_depths.len() as u128 + self.bid_depths.len() as u128;
        self.log_seq as u128 + 2 * n + 2 <= u64::MAX as u128 && self.trade_seq as u128 + n
            <= u64::MAX as u128
    }

    /// Applies `order` to the book, see [`BookState::apply`]: the book becomes
    /// what `apply` says, and the records returned say what its events say.
    /// Where the call fails the book is as the walk left it, and whoever
    /// drives the book has to stop.
    ///
    /// The events continue the book's numbering, see [`numbered`], and every
    /// match among them is sound, see [`sound_events`]. A plain arrival, see
    /// [`plain_arrival`], never fails, trades only positive sizes, and leaves
    /// every resting size positive.
    ///
    /// The sequences need room for the events of the call: at most two for
    /// each resting order and one for the taker.
    pub fn apply_order(&mut self, order: &Order) -> (r: Result<Vec<Log>, BookError>)
        requires
            old(self).wf(),
            old(self)@.has_room(),
        ensures
            final(self).wf(),
            final(self).product == old(self).product,
            final(self)@ == old(self)@.apply(
                old(self).product.id@,
                old(self).product.base_scale,
                *order,
            ).book,
            gave(
                old(self)@.apply(
                    old(self).product.id@,
                    old(self).product.base_scale,
                    *order,
                ).outcome,
                r,
            ),
            r matches Ok(logs) ==> numbered(old(self)@, final(self)@, events_of(logs@)),
            r matches Ok(logs) ==> sound_events(
                events_of(logs@),
                order.id,
                old(self)@.opposite(order.side),
                final(self)@.opposite(order.side),
            ),
            plain_arrival(old(self)@, *order) ==> r is Ok && final(self)@.sizes_positive(),
            plain_arrival(old(self)@, *order) ==> (r matches Ok(logs) ==> positive_matches(
                logs@,
                0,
            )),
    {
        let mut logs: Vec<Log> = Vec::new();
        let ghost before = self@;
        proof {
            assert(events_of(logs@) =~= Seq::<Event>::empty());
            lemma_apply_numbers(before, self.product.id@, self.product.base_scale, *order);
            lemma_apply_matches(before, self.product.id@, self.product.base_scale, *order);
        }
        if self.order_id_window.put(order.id).is_err() {
            proof {
                lemma_rejected_put(before.window, order.id);
            }
            return Ok(logs);
        }
        let mut taker = new_taker(order);
        let walked = self.cross(&mut taker, &mut logs);
        proof {
            self.ask_depths.lemma_wf();
            self.bid_depths.lemma_wf();
            lemma_self_shrunk(before.own(order.side));
            lemma_shrink_keeps_wf(before, self@, order.id);
        }
        match walked {
            Err(e) => {
                return Err(e);
            },
            Ok(_) => {},
        }
        self.settle(taker, &mut logs);
        Ok(logs)
    }

    /// Walks `taker` through the side opposite to it.
    fn cross(&mut self, taker: &mut BookOrder, logs: &mut Vec<Log>) -> (r: Result<(), BookError>)
        requires
            old(self).ask_depths.wf(),
            old(self).bid_depths.wf(),
            old(self).log_seq + 2 * old(self)@.resting() <= u64::MAX,
            old(self).trade_seq + old(self)@.resting() <= u64::MAX,
        ensures
            final(self).ask_depths.wf(),
            final(self).bid_depths.wf(),
            final(self).product == old(self).product,
            final(self)@.window == old(self)@.window,
            final(self).log_seq <= old(self).log_seq + 2 * old(self)@.resting(),
            final(self)@.own(old(taker).side) == old(self)@.own(old(taker).side),
            shrunk_from(
                final(self)@.opposite(old(taker).side),
                old(self)@.opposite(old(taker).side),
            ),
            only_spent(*final(taker), *old(taker)),
            old(self)@.sizes_positive() && plain_walk(
                *old(taker),
                old(self)@.opposite(old(taker).side),
            ) ==> r is Ok && final(self)@.sizes_positive() && final(taker).size.units() >= 0
                && positive_matches(final(logs)@, old(logs)@.len() as int),
            final(logs)@.len() >= old(logs)@.len(),
            walk(
                old(self).product.id@,
                old(self).product.base_scale,
                walk_state(
                    *old(taker),
                    old(self)@.opposite(old(taker).side),
                    old(self).log_seq,
                    old(self).trade_seq,
                    old(logs)@,
                ),
                0,
            ) == (Walk {
                failure: match r {
                    Ok(_) => None,
                    Err(e) => Some(e),
                },
                ..walk_state(
                    *final(taker),
                    final(self)@.opposite(old(taker).side),
                    final(self).log_seq,
                    final(self).trade_seq,
                    final(logs)@,
                )
            }),
    {
        match taker.side {
            Side::SideBuy => match_against(
                &mut self.ask_depths,
                taker,
                self.product.id.as_str(),
                self.product.base_scale,
                &mut self.log_seq,
                &mut self.trade_seq,
                logs,
            ),
            Side::SideSell => match_against(
                &mut self.bid_depths,
                taker,
                self.product.id.as_str(),
                self.product.base_scale,
                &mut self.log_seq,
                &mut self.trade_seq,
                logs,
            ),
        }
    }

    /// Ends the arrival of `taker` after its walk: it goes on its own side
    /// with an open event, or is done.
    fn settle(&mut self, taker: BookOrder, logs: &mut Vec<Log>)
        requires
            old(self).wf(),
            old(self).log_seq < u64::MAX,
            !has_order(old(self)@.asks, taker.order_id),
            !has_order(old(self)@.bids, taker.order_id),
            old(self)@.window.seen(taker.order_id),
        ensures
            final(self).wf(),
            final(self).product == old(self).product,
            old(self)@.sizes_positive() ==> final(self)@.sizes_positive(),
            final(logs)@.len() == old(logs)@.len() + 1,
            forall|i: int| 0 <= i < old(logs)@.len() ==> final(logs)@[i] == old(logs)@[i],
            !(final(logs)@[old(logs)@.len() as int] is Match),
            rests(taker) ==> final(self)@ == (BookState {
                log_seq: (old(self).log_seq + 1) as u64,
                ..old(self)@
            }).with_resting(taker) && events_of(final(logs)@) == events_of(old(logs)@).push(
                Event::open((old(self).log_seq + 1) as u64, old(self).product.id@, taker),
            ),
            !rests(taker) ==> final(self)@ == (BookState {
                log_seq: (old(self).log_seq + 1) as u64,
                ..old(self)@
            }) && events_of(final(logs)@) == events_of(old(logs)@).push(
                taker_done((old(self).log_seq + 1) as u64, old(self).product.id@, taker),
            ),
    {
        let resting: bool = match taker.order_type {
            OrderType::OrderTypeLimit => taker.size.relation_to(Decimal::zero())
                == Relation::Greater,
            OrderType::OrderTypeMarket => false,
        };
        let ghost before = self@;
        let ghost before_logs = logs@;
        let seq: u64 = self.next_log_seq();
        proof {
            lemma_wf_ignores_sequences(before, BookState { log_seq: seq, ..before });
        }
        if resting {
            match taker.side {
                Side::SideBuy => {
                    self.bid_depths.add(&taker);
                },
                Side::SideSell => {
                    self.ask_depths.add(&taker);
                },
            }
            let opened = new_open_log(seq, self.product.id.as_str(), &taker);
            logs.push(Log::Open(opened));
            proof {
                assert(events_of(logs@) =~= events_of(before_logs).push(opened@));
                lemma_rest_keeps_wf(BookState { log_seq: seq, ..before }, taker);
                if before.sizes_positive() {
                    lemma_rest_keeps_positive(before, taker);
                }
            }
        } else {
            let done = match taker.order_type {
                OrderType::OrderTypeLimit => new_done_log(
                    seq,
                    self.product.id.as_str(),
                    &taker,
                    &taker.size,
                    &DoneReason::DoneReasonFilled,
                ),
                OrderType::OrderTypeMarket => {
                    let unfilled: bool = match taker.side {
                        Side::SideSell => taker.size.relation_to(Decimal::zero())
                            == Relation::Greater,
                        Side::SideBuy => taker.funds.relation_to(Decimal::zero())
                            == Relation::Greater,
                    };
                    let reason = if unfilled {
                        DoneReason::DoneReasonCancelled
                    } else {
                        DoneReason::DoneReasonFilled
                    };
                    let mut priceless = taker;
                    priceless.price = Decimal::zero();
                    new_done_log(
                        seq,
                        self.product.id.as_str(),
                        &priceless,
                        &Decimal::zero(),
                        &reason,
                    )
                },
            };
            logs.push(Log::Done(done));
            proof {
                assert(events_of(logs@) =~= events_of(before_logs).push(done@));
            }
        }
    }

    /// Cancels the resting order with the id of `order`, see
    /// [`BookState::cancel`]. The order is looked for on both sides, first
    /// on the side opposite to the one that `order` names. Cancelling an
    /// order that does not rest changes nothing but the window.
    ///
    /// The event, if there is one, continues the book's numbering. Where
    /// every resting size is positive the call does not fail, and no order
    /// with the id rests afterwards.
    pub fn cancel_order(&mut self, order: &Order) -> (r: Result<Vec<Log>, BookError>)
        requires
            old(self).wf(),
            old(self).log_seq < u64::MAX,
        ensures
            final(self).wf(),
            final(self).product == old(self).product,
            final(self)@ == old(self)@.cancel(old(self).product.id@, *order).book,
            gave(old(self)@.cancel(old(self).product.id@, *order).outcome, r),
            r matches Ok(logs) ==> numbered(old(self)@, final(self)@, events_of(logs@)),
            old(self)@.sizes_positive() ==> r is Ok && final(self)@.sizes_positive()
                && !has_order(final(self)@.asks, order.id) && !has_order(
                final(self)@.bids,
                order.id,
            ),
    {
        let mut logs: Vec<Log> = Vec::new();
        proof {
            assert(events_of(logs@) =~= Seq::<Event>::empty());
            lemma_cancel_numbers(self@, self.product.id@, *order);
        }
        let found = match self.take_resting(order) {
            Err(e) => {
                return Err(BookError::Depth(e));
            },
            Ok(found) => found,
        };
        match found {
            None => {},
            Some(resting) => {
                let ghost taken = self@;
                let seq: u64 = self.next_log_seq();
                let done = new_done_log(
                    seq,
                    self.product.id.as_str(),
                    &resting,
                    &resting.size,
                    &DoneReason::DoneReasonCancelled,
                );
                logs.push(Log::Done(done));
                proof {
                    lemma_wf_ignores_sequences(taken, self@);
                    assert(events_of(logs@) =~= seq![done@]);
                }
            },
        }
        Ok(logs)
    }

    /// Notes the id of `order` in the window and takes from the resting
    /// order with that id its whole size; tells which order it was.
    fn take_resting(&mut self, order: &Order) -> (r: Result<Option<BookOrder>, DepthError>)
        requires
            old(self).wf(),
        ensures
            final(self).wf(),
            final(self).product == old(self).product,
            final(self).log_seq == old(self).log_seq,
            final(self).trade_seq == old(self).trade_seq,
            final(self)@.window == old(self)@.window.put(order.id),
            old(self)@.sizes_positive() ==> r is Ok && final(self)@.sizes_positive()
                && !has_order(final(self)@.asks, order.id) && !has_order(
                final(self)@.bids,
                order.id,
            ),
            match old(self)@.found_on(*order) {
                None => r == Ok::<Option<BookOrder>, DepthError>(None) && final(self)@.asks == old(
                    self,
                )@.asks && final(self)@.bids == old(self)@.bids,
                Some(side) => {
                    let orders = old(self)@.side_of(side);
                    let resting = orders[position(orders, order.id)];
                    &&& final(self)@.side_of(side) == decr_side(orders, order.id, resting.size)
                    &&& final(self)@.side_of(side.spec_opposite()) == old(self)@.side_of(
                        side.spec_opposite(),
                    )
                    &&& match decr_answer(orders, order.id, resting.size) {
                        Ok(_) => r == Ok::<Option<BookOrder>, DepthError>(Some(resting)),
                        Err(e) => r == Err::<Option<BookOrder>, DepthError>(e),
                    }
                },
            },
    {
        let ghost before = self@;
        let _ = self.order_id_window.put(order.id);
        assert(self@.asks == before.asks && self@.bids == before.bids);
        let first = match order.side {
            Side::SideBuy => cancel_on(&mut self.ask_depths, order.id),
            Side::SideSell => cancel_on(&mut self.bid_depths, order.id),
        };
        assert(before.sizes_positive() ==> first is Ok && self@.sizes_positive() && !has_order(
            self@.opposite(order.side),
            order.id,
        ));
        proof {
            self.ask_depths.lemma_wf();
            self.bid_depths.lemma_wf();
            lemma_self_shrunk(before.asks);
            lemma_self_shrunk(before.bids);
            lemma_shrink_keeps_wf(before, self@, order.id);
            lemma_rests_once(before, order.id);
        }
        match first {
            Err(e) => Err(e),
            Ok(Some(resting)) => Ok(Some(resting)),
            Ok(None) => {
                let ghost noted = self@;
                let second = match order.side {
                    Side::SideBuy => cancel_on(&mut self.bid_depths, order.id),
                    Side::SideSell => cancel_on(&mut self.ask_depths, order.id),
                };
                proof {
                    self.ask_depths.lemma_wf();
                    self.bid_depths.lemma_wf();
                    lemma_self_shrunk(noted.asks);
                    lemma_self_shrunk(noted.bids);
                    lemma_shrink_keeps_wf(noted, self@, order.id);
                }
                second
            },
        }
    }

    /// Turns `order` away without touching the book's sides, see
    /// [`BookState::nullify`].
    pub fn nullify_order(&mut self, order: &Order) -> (logs: Vec<Log>)
        requires
            old(self).wf(),
            old(self).log_seq < u64::MAX,
        ensures
            final(self).wf(),
            final(self).product == old(self).product,
            final(self)@ == old(self)@.nullify(old(self).product.id@, *order).0,
            events_of(logs@) == seq![old(self)@.nullify(old(self).product.id@, *order).1],
            numbered(old(self)@, final(self)@, events_of(logs@)),
    {
        let mut logs: Vec<Log> = Vec::new();
        let ghost before = self@;
        proof {
            lemma_nullify_numbers(before, self.product.id@, *order);
        }
        let _ = self.order_id_window.put(order.id);
        let book_order = BookOrder::new_book_order(order);
        let seq: u64 = self.next_log_seq();
        let done = new_done_log(
            seq,
            self.product.id.as_str(),
            &book_order,
            &order.size,
            &DoneReason::DoneReasonCancelled,
        );
        logs.push(Log::Done(done));
        proof {
            assert(events_of(logs@) =~= seq![done@]);
            self.ask_depths.lemma_wf();
            self.bid_depths.lemma_wf();
            lemma_self_shrunk(before.asks);
            lemma_self_shrunk(before.bids);
            lemma_shrink_keeps_wf(before, self@, order.id);
        }
        logs
    }

    /// Whether `order` would be filled in full on arrival, see
    /// [`BookState::will_full_match`]; an error where a number cannot be
    /// computed. The book is not changed.
    pub fn is_order_will_full_match(&self, order: &Order) -> (r: Result<bool, BookError>)
        requires
            self.wf(),
        ensures
            match self@.will_full_match(self.product.base_scale, *order) {
                Some(full) => r == Ok::<bool, BookError>(full),
                None => r == Err::<bool, BookError>(BookError::Arithmetic),
            },
    {
        let taker = new_taker(order);
        let walked = match taker.side {
            Side::SideBuy => dry_run(&self.ask_depths, taker, self.product.base_scale),
            Side::SideSell => dry_run(&self.bid_depths, taker, self.product.base_scale),
        };
        match walked {
            None => Err(BookError::Arithmetic),
            Some(left) => {
                let resting: bool = match left.order_type {
                    OrderType::OrderTypeLimit => left.size.relation_to(Decimal::zero())
                        == Relation::Greater,
                    OrderType::OrderTypeMarket => false,
                };
                Ok(!resting)
            },
        }
    }

    /// All that the book holds: the asks in priority order, then the bids,
    /// the two sequences, and a copy of the window.
    pub fn snapshot(&self) -> (snap: OrderBookSnapshot)
        requires
            self.wf(),
        ensures
            snap@ == self@.snapshot(self.product.id@),
    {
        let mut orders: Vec<BookOrder> = self.ask_depths.orders();
        let mut bids: Vec<BookOrder> = self.bid_depths.orders();
        orders.append(&mut bids);
        OrderBookSnapshot {
            product_id: self.product.id.clone(),
            orders,
            trade_seq: self.trade_seq,
            log_seq: self.log_seq,
            order_id_window: self.order_id_window.duplicate(),
        }
    }

    /// Makes the book what `snapshot` holds, see [`BookState::restore`]: the
    /// sequences and the window are those of the snapshot, with a new window
    /// of [`ORDER_ID_WINDOW_CAP`] ids above zero where the saved one has no
    /// width, and each saved order goes on its side.
    pub fn restore(&mut self, snapshot: &OrderBookSnapshot)
        requires
            old(self).ask_depths.wf(),
            old(self).bid_depths.wf(),
            old(self)@.takes(snapshot@),
        ensures
            final(self).wf(),
            final(self).product == old(self).product,
            final(self)@ == old(self)@.restore(snapshot@),
    {
        self.log_seq = snapshot.log_seq;
        self.trade_seq = snapshot.trade_seq;
        self.order_id_window = snapshot.order_id_window.duplicate();
        if self.order_id_window.cap == 0 {
            self.order_id_window = Window::new(0, ORDER_ID_WINDOW_CAP);
            assert(self.order_id_window@.bits =~= Seq::new(
                ORDER_ID_WINDOW_CAP as nat,
                |k: int| false,
            ));
        }
        let ghost base = self@;
        let ghost orders = snapshot.orders@;
        assert(base == old(self)@.reset_to(snapshot@));
        let n: usize = snapshot.orders.len();
        let mut i: usize = 0;
        while i < n
            invariant
                i <= n,
                n == orders.len(),
                orders == snapshot.orders@,
                self.product == old(self).product,
                self.ask_depths.wf(),
                self.bid_depths.wf(),
                self@.wf(),
                base.rest_all(orders, 0) == self@.rest_all(orders, i as int),
                forall|j: int|
                    i <= j < n ==> {
                        let id = (#[trigger] orders[j]).order_id;
                        &&& self@.window.seen(id)
                        &&& !has_order(self@.asks, id)
                        &&& !has_order(self@.bids, id)
                    },
                forall|a: int, b: int|
                    0 <= a < n && 0 <= b < n && a != b ==> (#[trigger] orders[a]).order_id != (
                    #[trigger] orders[b]).order_id,
            decreases n - i,
        {
            let order = snapshot.orders[i];
            let ghost before = self@;
            proof {
                assert(orders[i as int] == order);
                lemma_rest_keeps_wf(before, order);
                lemma_resting_ids(before, order);
            }
            match order.side {
                Side::SideBuy => {
                    self.bid_depths.add(&order);
                },
                Side::SideSell => {
                    self.ask_depths.add(&order);
                },
            }
            proof {
                assert(self@ == before.with_resting(order));
                assert forall|j: int| i + 1 <= j < n implies {
                    let id = (#[trigger] orders[j]).order_id;
                    &&& self@.window.seen(id)
                    &&& !has_order(self@.asks, id)
                    &&& !has_order(self@.bids, id)
                } by {
                    assert(orders[j].order_id != orders[i as int].order_id);
                }
            }
            i = i + 1;
        }
    }

    /// `order` would not trade on arrival: the opposite side is empty, or the
    /// taker's price misses the best order there.
    pub open spec fn will_not_match(book: BookState, order: Order) -> bool {
        let opposite = book.opposite(order.side);
        opposite.len() == 0 || misses(taker_of(order), opposite[0])
    }

    /// True exactly when `order` cannot trade against the best order of the
    /// opposite side. A market order is taken at the price that crosses
    /// everything.
    pub fn is_order_will_not_match(&self, order: &Order) -> (r: bool)
        requires
            self.wf(),
        ensures
            r == Self::will_not_match(self@, *order),
    {
        let taker = new_taker(order);
        let best: Option<BookOrder> = match taker.side {
            Side::SideBuy => self.ask_depths.first(),
            Side::SideSell => self.bid_depths.first(),
        };
        match best {
            None => true,
            Some(maker) => taker_misses(&taker, &maker),
        }
    }
}

} // verus!
