//! One side of the book: the resting orders by id, and the queue of their
//! keys in priority order. An order is found by its id in the map and by its
//! key in the queue, the latter by halving; putting a key into the queue or
//! taking it out moves the keys behind it.

use crate::matching::order_book::BookOrder;
use crate::matching::ordering::{
    key_precedes, lemma_priority_is_strict_order, OrderingTrait, PriceOrderIdKeyAsc,
    PriceOrderIdKeyDesc,
};
use crate::models::decimal::{Decimal, Relation};
use std::collections::HashMap;
use vstd::prelude::*;

verus! {

broadcast use vstd::std_specs::hash::group_hash_axioms;

/// Why the size of a resting order could not be reduced.
#[derive(Clone, Copy, Debug, PartialEq, Eq, Structural)]
pub enum DepthError {
    /// No order with this id rests on the side.
    NotFound { order_id: u64 },
    /// The order rests with less than was to be taken from it.
    InsufficientSize { order_id: u64 },
    /// The remaining size cannot be represented.
    Overflow { order_id: u64 },
}

/// Every order on the side has a positive size.
pub open spec fn all_positive(s: Seq<BookOrder>) -> bool {
    forall|i: int| 0 <= i < s.len() ==> (#[trigger] s[i]).size.units() > 0
}

/// A side with positive sizes keeps them when an order of positive size goes
/// in.
pub proof fn lemma_insert_positive(s: Seq<BookOrder>, k: int, order: BookOrder)
    requires
        all_positive(s),
        0 <= k <= s.len(),
        order.size.units() > 0,
    ensures
        all_positive(s.insert(k, order)),
{
    let a = s.insert(k, order);
    assert forall|i: int| 0 <= i < a.len() implies (#[trigger] a[i]).size.units() > 0 by {
        if i < k {
            assert(a[i] == s[i]);
        } else if i > k {
            assert(a[i] == s[i - 1]);
        }
    }
}

/// No id occurs twice.
pub open spec fn distinct_ids(s: Seq<BookOrder>) -> bool {
    forall|i: int, j: int|
        0 <= i < j < s.len() ==> (#[trigger] s[i]).order_id != (#[trigger] s[j]).order_id
}

/// Where no id occurs twice, an order stands at the position of its id.
pub proof fn lemma_position(s: Seq<BookOrder>, k: int)
    requires
        distinct_ids(s),
        0 <= k < s.len(),
    ensures
        has_order(s, s[k].order_id),
        position(s, s[k].order_id) == k,
{
    let p = position(s, s[k].order_id);
    if p < k {
        assert(s[p].order_id != s[k].order_id);
    } else if k < p {
        assert(s[k].order_id != s[p].order_id);
    }
}

/// Some order in `s` has the id.
pub open spec fn has_order(s: Seq<BookOrder>, id: u64) -> bool {
    exists|k: int| 0 <= k < s.len() && (#[trigger] s[k]).order_id == id
}

/// Where the order with the id stands in `s`.
pub open spec fn position(s: Seq<BookOrder>, id: u64) -> int {
    choose|k: int| 0 <= k < s.len() && (#[trigger] s[k]).order_id == id
}

/// Every order in `s` comes strictly before those behind it in the ordering
/// `T`: best price first and, within a price, lowest order id first.
pub open spec fn in_priority_order<T: OrderingTrait>(s: Seq<BookOrder>) -> bool {
    forall|i: int, j: int|
        0 <= i < j < s.len() ==> key_precedes::<T>(
            (#[trigger] s[i]).price,
            s[i].order_id,
            (#[trigger] s[j]).price,
            s[j].order_id,
        )
}

/// The place at which `order` goes into `s` so that the side stays in
/// priority order.
pub open spec fn place<T: OrderingTrait>(s: Seq<BookOrder>, order: BookOrder) -> int {
    choose|k: int| 0 <= k <= s.len() && in_priority_order::<T>(#[trigger] s.insert(k, order))
}

/// There is only one place at which an order keeps a side in priority order.
pub proof fn lemma_place_is_unique<T: OrderingTrait>(s: Seq<BookOrder>, order: BookOrder, k: int)
    requires
        0 <= k <= s.len(),
        in_priority_order::<T>(s.insert(k, order)),
    ensures
        place::<T>(s, order) == k,
{
    let p = place::<T>(s, order);
    let a = s.insert(k, order);
    let b = s.insert(p, order);
    if p < k {
        // s[p] stands before the order in `a` and behind it in `b`
        assert(a[p] == s[p] && a[k] == order);
        assert(b[p] == order && b[p + 1] == s[p]);
        assert(key_precedes::<T>(a[p].price, a[p].order_id, a[k].price, a[k].order_id));
        assert(key_precedes::<T>(b[p].price, b[p].order_id, b[p + 1].price, b[p + 1].order_id));
        lemma_priority_is_strict_order::<T>(
            (order.price, order.order_id),
            (s[p].price, s[p].order_id),
            (s[p].price, s[p].order_id),
        );
    } else if k < p {
        assert(b[k] == s[k] && b[p] == order);
        assert(a[k] == order && a[k + 1] == s[k]);
        assert(key_precedes::<T>(b[k].price, b[k].order_id, b[p].price, b[p].order_id));
        assert(key_precedes::<T>(a[k].price, a[k].order_id, a[k + 1].price, a[k + 1].order_id));
        lemma_priority_is_strict_order::<T>(
            (order.price, order.order_id),
            (s[k].price, s[k].order_id),
            (s[k].price, s[k].order_id),
        );
    }
}

/// A place at or behind `from` at which `order` keeps `s` in priority order,
/// given that everything before `from` precedes the order.
proof fn lemma_find_place<T: OrderingTrait>(s: Seq<BookOrder>, order: BookOrder, from: int) -> (k:
    int)
    requires
        in_priority_order::<T>(s),
        !has_order(s, order.order_id),
        0 <= from <= s.len(),
        forall|i: int|
            0 <= i < from ==> key_precedes::<T>(
                (#[trigger] s[i]).price,
                s[i].order_id,
                order.price,
                order.order_id,
            ),
    ensures
        from <= k <= s.len(),
        in_priority_order::<T>(s.insert(k, order)),
    decreases s.len() - from,
{
    if from < s.len() && key_precedes::<T>(
        s[from].price,
        s[from].order_id,
        order.price,
        order.order_id,
    ) {
        lemma_find_place::<T>(s, order, from + 1)
    } else {
        let a = s.insert(from, order);
        assert forall|i: int, j: int| 0 <= i < j < a.len() implies key_precedes::<T>(
            (#[trigger] a[i]).price,
            a[i].order_id,
            (#[trigger] a[j]).price,
            a[j].order_id,
        ) by {
            if i != from && j != from {
                let oi = if i < from { i } else { i - 1 };
                let oj = if j < from { j } else { j - 1 };
                assert(a[i] == s[oi] && a[j] == s[oj]);
            } else if j == from {
                assert(a[i] == s[i]);
            } else {
                assert(a[j] == s[j - 1]);
                assert(s[from].order_id != order.order_id);
                lemma_priority_is_strict_order::<T>(
                    (order.price, order.order_id),
                    (s[from].price, s[from].order_id),
                    (a[j].price, a[j].order_id),
                );
                if j - 1 > from {
                    assert(key_precedes::<T>(
                        s[from].price,
                        s[from].order_id,
                        s[j - 1].price,
                        s[j - 1].order_id,
                    ));
                }
            }
        }
        from
    }
}

/// An order whose id is not on a side has a place there.
pub proof fn lemma_place_exists<T: OrderingTrait>(s: Seq<BookOrder>, order: BookOrder)
    requires
        in_priority_order::<T>(s),
        !has_order(s, order.order_id),
    ensures
        0 <= place::<T>(s, order) <= s.len(),
        in_priority_order::<T>(s.insert(place::<T>(s, order), order)),
{
    let k = lemma_find_place::<T>(s, order, 0);
    lemma_place_is_unique::<T>(s, order, k);
}

/// What `decr_size` answers on the side `s`.
pub open spec fn decr_answer(s: Seq<BookOrder>, id: u64, size: Decimal) -> Result<
    (),
    DepthError,
> {
    if !has_order(s, id) {
        Err(DepthError::NotFound { order_id: id })
    } else if s[position(s, id)].size.units() < size.units() {
        Err(DepthError::InsufficientSize { order_id: id })
    } else if s[position(s, id)].size.spec_sub(size) is None {
        Err(DepthError::Overflow { order_id: id })
    } else {
        Ok(())
    }
}

/// The side `s` after `decr_size`: unchanged where it fails; otherwise the
/// order has the difference as its size, or is gone where that is zero.
pub open spec fn decr_side(s: Seq<BookOrder>, id: u64, size: Decimal) -> Seq<BookOrder> {
    if decr_answer(s, id, size) is Err {
        s
    } else {
        let k = position(s, id);
        let left = s[k].size.spec_sub(size)->Some_0;
        if left.units() == 0 {
            s.remove(k)
        } else {
            s.update(k, s[k].with_size(left))
        }
    }
}

/// One side of the book.
pub struct Depth<T: OrderingTrait> {
    orders: HashMap<u64, BookOrder>,
    queue: Vec<T>,
}

/// The ask side: ascending price, then ascending order id.
pub type AskDepth = Depth<PriceOrderIdKeyAsc>;

/// The bid side: descending price, then ascending order id.
pub type BidDepth = Depth<PriceOrderIdKeyDesc>;

impl<T: OrderingTrait> View for Depth<T> {
    type V = Seq<BookOrder>;

    /// The resting orders as the queue ranks them, best first.
    closed spec fn view(&self) -> Seq<BookOrder> {
        Seq::new(self.queue@.len(), |i: int| self.orders@[self.queue@[i].key_order_id()])
    }
}

impl<T: OrderingTrait> Depth<T> {
    /// The resting orders by id.
    pub closed spec fn orders_map(&self) -> Map<u64, BookOrder> {
        self.orders@
    }

    /// The keys of the queue in order, each as price and order id.
    pub closed spec fn queue_keys(&self) -> Seq<(Decimal, u64)> {
        Seq::new(
            self.queue@.len(),
            |i: int| (self.queue@[i].key_price(), self.queue@[i].key_order_id()),
        )
    }

    /// The map and the queue hold the same orders, each under its own id and
    /// price, and the queue is in priority order.
    pub closed spec fn wf(&self) -> bool {
        &&& forall|i: int|
            0 <= i < self.queue@.len() ==> {
                let id = (#[trigger] self.queue@[i]).key_order_id();
                &&& self.orders@.contains_key(id)
                &&& self.orders@[id].order_id == id
                &&& self.orders@[id].price == self.queue@[i].key_price()
            }
        &&& forall|id: u64| #[trigger]
            self.orders@.contains_key(id) ==> exists|i: int|
                0 <= i < self.queue@.len() && (#[trigger] self.queue@[i]).key_order_id() == id
        &&& in_priority_order::<T>(self@)
    }

    /// A side with no orders.
    pub fn new() -> (d: Self)
        ensures
            d.wf(),
            d@.len() == 0,
            d.orders_map() == Map::<u64, BookOrder>::empty(),
    {
        Depth { orders: HashMap::new(), queue: Vec::new() }
    }

    /// The number of resting orders.
    pub fn len(&self) -> (n: usize)
        ensures
            n == self@.len(),
    {
        self.queue.len()
    }

    /// The order with the id, if it rests here.
    pub fn get(&self, order_id: u64) -> (r: Option<BookOrder>)
        requires
            self.wf(),
        ensures
            r is Some <==> has_order(self@, order_id),
            r matches Some(o) ==> o == self@[position(self@, order_id)] && o.order_id == order_id,
    {
        proof {
            self.lemma_wf();
        }
        match self.orders.get(&order_id) {
            Some(o) => {
                proof {
                    assert(self.orders_map().contains_key(order_id));
                    assert(has_order(self@, order_id));
                    let k = position(self@, order_id);
                    assert(self.orders_map()[self@[k].order_id] == self@[k]);
                }
                Some(*o)
            },
            None => {
                proof {
                    assert(!self.orders_map().contains_key(order_id));
                }
                None
            },
        }
    }

    /// The order at place `i` of the queue; place 0 is the best.
    pub fn nth(&self, i: usize) -> (o: BookOrder)
        requires
            self.wf(),
            i < self@.len(),
        ensures
            o == self@[i as int],
    {
        let id: u64 = self.queue[i].order_id();
        proof {
            let _ = self.queue@[i as int];
        }
        match self.orders.get(&id) {
            Some(o) => *o,
            None => BookOrder::default(),
        }
    }

    /// The resting orders, best first.
    pub fn orders(&self) -> (v: Vec<BookOrder>)
        requires
            self.wf(),
        ensures
            v@ == self@,
    {
        let n: usize = self.len();
        let mut v: Vec<BookOrder> = Vec::new();
        let mut i: usize = 0;
        while i < n
            invariant
                self.wf(),
                n == self@.len(),
                i <= n,
                v@ == self@.take(i as int),
            decreases n - i,
        {
            v.push(self.nth(i));
            i = i + 1;
            assert(v@ =~= self@.take(i as int));
        }
        assert(self@.take(n as int) =~= self@);
        v
    }

    /// The best order, if there is any.
    pub fn first(&self) -> (r: Option<BookOrder>)
        requires
            self.wf(),
        ensures
            r is Some <==> self@.len() > 0,
            r matches Some(o) ==> o == self@[0],
    {
        if self.queue.len() == 0 {
            None
        } else {
            Some(self.nth(0))
        }
    }

    /// The first place of the queue whose key does not come before `key`:
    /// every key before that place does, and none from it on. Found by
    /// halving the queue.
    fn lower_bound(&self, key: &T) -> (p: usize)
        requires
            self.wf(),
        ensures
            p <= self@.len(),
            forall|i: int|
                0 <= i < p ==> key_precedes::<T>(
                    (#[trigger] self@[i]).price,
                    self@[i].order_id,
                    key.key_price(),
                    key.key_order_id(),
                ),
            forall|i: int|
                p <= i < self@.len() ==> !key_precedes::<T>(
                    (#[trigger] self@[i]).price,
                    self@[i].order_id,
                    key.key_price(),
                    key.key_order_id(),
                ),
    {
        proof {
            self.lemma_wf();
        }
        let ghost s = self@;
        let mut lo: usize = 0;
        let mut hi: usize = self.queue.len();
        while lo < hi
            invariant
                self.wf(),
                s == self@,
                hi <= s.len(),
                s.len() == self.queue@.len(),
                lo <= hi,
                in_priority_order::<T>(s),
                forall|i: int|
                    0 <= i < s.len() ==> (#[trigger] self.queue@[i]).key_price() == s[i].price
                        && self.queue@[i].key_order_id() == s[i].order_id,
                forall|i: int|
                    0 <= i < lo ==> key_precedes::<T>(
                        (#[trigger] s[i]).price,
                        s[i].order_id,
                        key.key_price(),
                        key.key_order_id(),
                    ),
                forall|i: int|
                    hi <= i < s.len() ==> !key_precedes::<T>(
                        (#[trigger] s[i]).price,
                        s[i].order_id,
                        key.key_price(),
                        key.key_order_id(),
                    ),
            decreases hi - lo,
        {
            let mid: usize = lo + (hi - lo) / 2;
            proof {
                let _ = self.queue@[mid as int];
            }
            if self.queue[mid].relation_to(key) == Relation::Less {
                proof {
                    assert forall|i: int| 0 <= i < mid + 1 implies key_precedes::<T>(
                        (#[trigger] s[i]).price,
                        s[i].order_id,
                        key.key_price(),
                        key.key_order_id(),
                    ) by {
                        if i < mid {
                            assert(key_precedes::<T>(
                                s[i].price,
                                s[i].order_id,
                                s[mid as int].price,
                                s[mid as int].order_id,
                            ));
                            lemma_priority_is_strict_order::<T>(
                                (s[i].price, s[i].order_id),
                                (s[mid as int].price, s[mid as int].order_id),
                                (key.key_price(), key.key_order_id()),
                            );
                        }
                    }
                }
                lo = mid + 1;
            } else {
                proof {
                    assert forall|i: int| mid <= i < s.len() implies !key_precedes::<T>(
                        (#[trigger] s[i]).price,
                        s[i].order_id,
                        key.key_price(),
                        key.key_order_id(),
                    ) by {
                        if i > mid {
                            assert(key_precedes::<T>(
                                s[mid as int].price,
                                s[mid as int].order_id,
                                s[i].price,
                                s[i].order_id,
                            ));
                            lemma_priority_is_strict_order::<T>(
                                (s[mid as int].price, s[mid as int].order_id),
                                (s[i].price, s[i].order_id),
                                (key.key_price(), key.key_order_id()),
                            );
                        }
                    }
                }
                hi = mid;
            }
        }
        lo
    }

    /// The place in the queue of a resting order.
    fn index_of(&self, order: &BookOrder) -> (k: usize)
        requires
            self.wf(),
            has_order(self@, order.order_id),
            *order == self@[position(self@, order.order_id)],
        ensures
            k == position(self@, order.order_id),
            k < self@.len(),
    {
        proof {
            self.lemma_wf();
        }
        let key = T::new(&order.price, order.order_id);
        let k: usize = self.lower_bound(&key);
        proof {
            let s = self@;
            let at = position(s, order.order_id);
            lemma_priority_is_strict_order::<T>(
                (s[at].price, s[at].order_id),
                (s[at].price, s[at].order_id),
                (s[at].price, s[at].order_id),
            );
            if k < at {
                assert(key_precedes::<T>(
                    s[k as int].price,
                    s[k as int].order_id,
                    s[at].price,
                    s[at].order_id,
                ));
            }
            if at < k {
                assert(key_precedes::<T>(
                    s[at].price,
                    s[at].order_id,
                    key.key_price(),
                    key.key_order_id(),
                ));
            }
        }
        k
    }

    /// Puts `order` on the side: into the map under its id, and into the
    /// queue at the place that its price and id give it.
    pub fn add(&mut self, order: &BookOrder)
        requires
            old(self).wf(),
            !has_order(old(self)@, order.order_id),
        ensures
            final(self).wf(),
            final(self)@ == old(self)@.insert(place::<T>(old(self)@, *order), *order),
            final(self).orders_map() == old(self).orders_map().insert(order.order_id, *order),
    {
        proof {
            self.lemma_wf();
        }
        let key = T::new(&order.price, order.order_id);
        let p: usize = self.lower_bound(&key);
        let ghost before = self@;
        let ghost old_queue = self.queue@;
        let ghost old_orders = self.orders@;
        self.queue.insert(p, key);
        self.orders.insert(order.order_id, *order);
        proof {
            let q = self.queue@;
            let m = self.orders@;
            assert(q == old_queue.insert(p as int, key));
            assert(m == old_orders.insert(order.order_id, *order));
            assert forall|i: int| 0 <= i < old_queue.len() implies (#[trigger] old_queue[i]).key_order_id()
                != order.order_id && old_queue[i].key_order_id() == before[i].order_id
                && old_queue[i].key_price() == before[i].price by {
                assert(before[i].order_id == old_queue[i].key_order_id());
            }
            assert(self@ =~= before.insert(p as int, *order)) by {
                assert forall|i: int| 0 <= i < q.len() implies self@[i] == before.insert(
                    p as int,
                    *order,
                )[i] by {
                    if i < p {
                        let _ = old_queue[i];
                    } else if i > p {
                        let _ = old_queue[i - 1];
                    }
                }
            }
            assert forall|i: int| 0 <= i < q.len() implies {
                let id = (#[trigger] q[i]).key_order_id();
                &&& m.contains_key(id)
                &&& m[id].order_id == id
                &&& m[id].price == q[i].key_price()
            } by {
                if i < p {
                    let _ = old_queue[i];
                } else if i > p {
                    let _ = old_queue[i - 1];
                }
            }
            assert forall|id: u64| #[trigger] m.contains_key(id) implies exists|i: int|
                0 <= i < q.len() && (#[trigger] q[i]).key_order_id() == id by {
                if id == order.order_id {
                    assert(q[p as int].key_order_id() == id);
                } else {
                    let i = choose|i: int|
                        0 <= i < old_queue.len() && (#[trigger] old_queue[i]).key_order_id() == id;
                    if i < p {
                        assert(q[i].key_order_id() == id);
                    } else {
                        assert(q[i + 1] == old_queue[i]);
                        assert(q[i + 1].key_order_id() == id);
                    }
                }
            }
            let s = self@;
            assert forall|i: int, j: int| 0 <= i < j < s.len() implies key_precedes::<T>(
                (#[trigger] s[i]).price,
                s[i].order_id,
                (#[trigger] s[j]).price,
                s[j].order_id,
            ) by {
                let oi = if i < p { i } else { i - 1 };
                let oj = if j < p { j } else { j - 1 };
                if i != p && j != p {
                    assert(s[i] == before[oi] && s[j] == before[oj]);
                } else if j == p {
                    let _ = old_queue[i];
                    assert(s[i] == before[i]);
                } else {
                    // i == p: the new order stands before everything behind it
                    assert(s[j] == before[j - 1]);
                    let _ = old_queue[p as int];
                    assert(before[p as int].order_id != order.order_id);
                    lemma_priority_is_strict_order::<T>(
                        (order.price, order.order_id),
                        (before[p as int].price, before[p as int].order_id),
                        (s[j].price, s[j].order_id),
                    );
                    if j - 1 > p {
                        assert(key_precedes::<T>(
                            before[p as int].price,
                            before[p as int].order_id,
                            before[j - 1].price,
                            before[j - 1].order_id,
                        ));
                    }
                }
            }
            lemma_place_is_unique::<T>(before, *order, p as int);
        }
    }

    /// Takes `size` from the order with the id. Fails, and changes nothing,
    /// where no such order rests here, where it rests with less than `size`,
    /// or where the difference cannot be represented. An order left with
    /// nothing is removed from the map and from the queue.
    pub fn decr_size(&mut self, order_id: u64, size: &Decimal) -> (r: Result<(), DepthError>)
        requires
            old(self).wf(),
        ensures
            final(self).wf(),
            r == decr_answer(old(self)@, order_id, *size),
            final(self)@ == decr_side(old(self)@, order_id, *size),
            has_order(old(self)@, order_id) && 0 <= size.units() <= old(self)@[position(
                old(self)@,
                order_id,
            )].size.units() ==> r is Ok,
    {
        match self.reduce(order_id, size) {
            Ok(_) => Ok(()),
            Err(e) => Err(e),
        }
    }

    /// Does what [`Depth::decr_size`] does and also tells what the order is
    /// left with.
    pub fn reduce(&mut self, order_id: u64, size: &Decimal) -> (r: Result<Decimal, DepthError>)
        requires
            old(self).wf(),
        ensures
            final(self).wf(),
            r is Ok <==> decr_answer(old(self)@, order_id, *size) is Ok,
            r matches Err(e) ==> decr_answer(old(self)@, order_id, *size) == Err::<(), DepthError>(e),
            r matches Ok(left) ==> Some(left) == old(self)@[position(
                old(self)@,
                order_id,
            )].size.spec_sub(*size),
            final(self)@ == decr_side(old(self)@, order_id, *size),
            has_order(old(self)@, order_id) ==> old(self)@[position(
                old(self)@,
                order_id,
            )].size.minus_of_no_larger(
                *size,
                match r {
                    Ok(left) => Some(left),
                    Err(_) => None,
                },
            ),
    {
        let found: Option<BookOrder> = self.get(order_id);
        match found {
            None => Err(DepthError::NotFound { order_id }),
            Some(order) => {
                if order.size.relation_to(*size) == Relation::Less {
                    return Err(DepthError::InsufficientSize { order_id });
                }
                match order.size.minus(*size) {
                    None => Err(DepthError::Overflow { order_id }),
                    Some(left) => {
                        let k: usize = self.index_of(&order);
                        let ghost before = self@;
                        let ghost old_queue = self.queue@;
                        let ghost old_orders = self.orders@;
                        proof {
                            self.lemma_wf();
                        }
                        if left.is_zero() {
                            self.queue.remove(k);
                            self.orders.remove(&order_id);
                            proof {
                                let q = self.queue@;
                                let m = self.orders@;
                                assert(q == old_queue.remove(k as int));
                                assert(m == old_orders.remove(order_id));
                                assert forall|i: int| 0 <= i < old_queue.len() implies (
                                #[trigger] old_queue[i]).key_order_id() == before[i].order_id
                                    && old_queue[i].key_price() == before[i].price by {}
                                assert(self@ =~= before.remove(k as int)) by {
                                    assert forall|i: int| 0 <= i < q.len() implies self@[i]
                                        == before.remove(k as int)[i] by {
                                        if i < k {
                                            let _ = old_queue[i];
                                            assert(before[i].order_id != before[k as int].order_id);
                                        } else {
                                            let _ = old_queue[i + 1];
                                            assert(before[i + 1].order_id != before[k as int].order_id);
                                        }
                                    }
                                }
                                assert forall|i: int| 0 <= i < q.len() implies {
                                    let id = (#[trigger] q[i]).key_order_id();
                                    &&& m.contains_key(id)
                                    &&& m[id].order_id == id
                                    &&& m[id].price == q[i].key_price()
                                } by {
                                    if i < k {
                                        let _ = old_queue[i];
                                        assert(before[i].order_id != before[k as int].order_id);
                                    } else {
                                        let _ = old_queue[i + 1];
                                        assert(before[i + 1].order_id != before[k as int].order_id);
                                    }
                                }
                                assert forall|id: u64| #[trigger] m.contains_key(id) implies exists|
                                    i: int,
                                |
                                    0 <= i < q.len() && (#[trigger] q[i]).key_order_id() == id by {
                                    let i = choose|i: int|
                                        0 <= i < old_queue.len() && (
                                        #[trigger] old_queue[i]).key_order_id() == id;
                                    if i < k {
                                        assert(q[i].key_order_id() == id);
                                    } else {
                                        assert(i != k);
                                        assert(q[i - 1] == old_queue[i]);
                                        assert(q[i - 1].key_order_id() == id);
                                    }
                                }
                                let s = self@;
                                assert forall|i: int, j: int|
                                    0 <= i < j < s.len() implies key_precedes::<T>(
                                    (#[trigger] s[i]).price,
                                    s[i].order_id,
                                    (#[trigger] s[j]).price,
                                    s[j].order_id,
                                ) by {
                                    let oi = if i < k { i } else { i + 1 };
                                    let oj = if j < k { j } else { j + 1 };
                                    assert(s[i] == before[oi] && s[j] == before[oj]);
                                }
                            }
                        } else {
                            let updated = BookOrder {
                                order_id: order.order_id,
                                user_id: order.user_id,
                                size: left,
                                funds: order.funds,
                                price: order.price,
                                side: order.side,
                                order_type: order.order_type,
                                time_in_force: order.time_in_force,
                            };
                            self.orders.insert(order_id, updated);
                            proof {
                                let q = self.queue@;
                                let m = self.orders@;
                                assert(m == old_orders.insert(order_id, updated));
                                assert forall|i: int| 0 <= i < old_queue.len() implies (
                                #[trigger] old_queue[i]).key_order_id() == before[i].order_id
                                    && old_queue[i].key_price() == before[i].price by {}
                                assert(self@ =~= before.update(k as int, updated)) by {
                                    assert forall|i: int| 0 <= i < q.len() implies self@[i]
                                        == before.update(k as int, updated)[i] by {
                                        let _ = old_queue[i];
                                        if i != k {
                                            assert(before[i].order_id != before[k as int].order_id);
                                        }
                                    }
                                }
                                assert forall|i: int| 0 <= i < q.len() implies {
                                    let id = (#[trigger] q[i]).key_order_id();
                                    &&& m.contains_key(id)
                                    &&& m[id].order_id == id
                                    &&& m[id].price == q[i].key_price()
                                } by {
                                    let _ = old_queue[i];
                                }
                                assert forall|id: u64| #[trigger] m.contains_key(id) implies exists|
                                    i: int,
                                |
                                    0 <= i < q.len() && (#[trigger] q[i]).key_order_id() == id by {
                                    if id == order_id {
                                        assert(q[k as int].key_order_id() == id);
                                    } else {
                                        let i = choose|i: int|
                                            0 <= i < old_queue.len() && (
                                            #[trigger] old_queue[i]).key_order_id() == id;
                                        assert(q[i].key_order_id() == id);
                                    }
                                }
                                let s = self@;
                                assert forall|i: int, j: int|
                                    0 <= i < j < s.len() implies key_precedes::<T>(
                                    (#[trigger] s[i]).price,
                                    s[i].order_id,
                                    (#[trigger] s[j]).price,
                                    s[j].order_id,
                                ) by {
                                    assert(s[i].price == before[i].price && s[i].order_id
                                        == before[i].order_id);
                                    assert(s[j].price == before[j].price && s[j].order_id
                                        == before[j].order_id);
                                    assert(key_precedes::<T>(
                                        before[i].price,
                                        before[i].order_id,
                                        before[j].price,
                                        before[j].order_id,
                                    ));
                                }
                            }
                        }
                        Ok(left)
                    },
                }
            },
        }
    }

    /// What a well-formed side is: map and queue have the same ids, the
    /// queue's keys are those of the orders, and going through the queue gives
    /// the orders in priority order, no id twice.
    pub proof fn lemma_wf(&self)
        requires
            self.wf(),
        ensures
            in_priority_order::<T>(self@),
            self.queue_keys().len() == self@.len(),
            self.orders_map().dom().finite(),
            forall|i: int|
                0 <= i < self@.len() ==> self.queue_keys()[i] == (
                    (#[trigger] self@[i]).price,
                    self@[i].order_id,
                ),
            forall|i: int|
                0 <= i < self@.len() ==> self.orders_map().contains_key((#[trigger] self@[i]).order_id)
                    && self.orders_map()[self@[i].order_id] == self@[i],
            forall|id: u64| self.orders_map().contains_key(id) <==> has_order(self@, id),
            forall|i: int, j: int|
                0 <= i < self@.len() && 0 <= j < self@.len() && i != j ==> (#[trigger] self@[i]).order_id
                    != (#[trigger] self@[j]).order_id,
            distinct_ids(self@),
    {
        let s = self@;
        assert forall|i: int| 0 <= i < s.len() implies self.orders_map().contains_key(
            (#[trigger] s[i]).order_id,
        ) && self.orders_map()[s[i].order_id] == s[i] && self.queue_keys()[i] == (
            s[i].price,
            s[i].order_id,
        ) by {
            let _ = self.queue@[i];
        }
        assert forall|id: u64| self.orders_map().contains_key(id) <==> has_order(s, id) by {
            if self.orders_map().contains_key(id) {
                let i = choose|i: int|
                    0 <= i < self.queue@.len() && (#[trigger] self.queue@[i]).key_order_id() == id;
                assert(s[i].order_id == id);
            }
            if has_order(s, id) {
                let k = position(s, id);
                let _ = self.queue@[k];
            }
        }
        lemma_distinct_ids::<T>(s);
    }
}

/// No id occurs twice on a side that is in priority order.
pub proof fn lemma_distinct_ids<T: OrderingTrait>(s: Seq<BookOrder>)
    requires
        in_priority_order::<T>(s),
        forall|i: int, j: int|
            0 <= i < s.len() && 0 <= j < s.len() && (#[trigger] s[i]).order_id == (
            #[trigger] s[j]).order_id ==> s[i].price == s[j].price,
    ensures
        forall|i: int, j: int|
            0 <= i < s.len() && 0 <= j < s.len() && i != j ==> (#[trigger] s[i]).order_id != (
            #[trigger] s[j]).order_id,
{
    assert forall|i: int, j: int| 0 <= i < s.len() && 0 <= j < s.len() && i != j implies (
    #[trigger] s[i]).order_id != (#[trigger] s[j]).order_id by {
        lemma_priority_is_strict_order::<T>(
            (s[i].price, s[i].order_id),
            (s[j].price, s[j].order_id),
            (s[j].price, s[j].order_id),
        );
        if i < j {
            assert(key_precedes::<T>(s[i].price, s[i].order_id, s[j].price, s[j].order_id));
        } else {
            assert(key_precedes::<T>(s[j].price, s[j].order_id, s[i].price, s[i].order_id));
        }
    }
}

} // verus!
