//! How a taker trades its way through the opposite side of the book.

use crate::matching::depth::{
    all_positive, decr_answer, decr_side, has_order, position, Depth, DepthError,
};
use crate::matching::log::{events_of, new_done_log, new_match_log, Event, Log};
use crate::matching::order_book::{misses, taker_misses, BookError, BookOrder};
use crate::matching::ordering::OrderingTrait;
use crate::models::decimal::Decimal;
use crate::models::types::{DoneReason, OrderType, Side};
use vstd::prelude::*;

verus! {

/// What a taker does on meeting a maker.
pub enum Step {
    /// The taker goes no further.
    Stop,
    /// The numbers of the trade cannot be computed.
    Fail,
    /// They trade `size`, after which the taker is `taker`.
    Trade { size: Decimal, taker: BookOrder },
}

/// The number of decimal places that a scale asks for; a negative scale is
/// read as the unsigned number with the same 32 bits.
pub open spec fn places(scale: i32) -> u32 {
    if scale >= 0 {
        scale as u32
    } else {
        (scale + 0x1_0000_0000) as u32
    }
}

/// The taker spends funds rather than size: a market order to buy.
pub open spec fn spends_funds(taker: BookOrder) -> bool {
    taker.side == Side::SideBuy && taker.order_type == OrderType::OrderTypeMarket
}

/// What `taker` does on meeting `maker`.
///
/// It stops where its price misses the maker's. A taker that spends funds
/// stops when the funds are zero or buy nothing at the maker's price, cut to
/// the product's base scale; otherwise it trades the smaller of what the
/// funds buy and what the maker has, and pays size times price. Any other
/// taker stops when its size is zero and otherwise trades the smaller of its
/// size and the maker's. The step fails where one of these numbers cannot
/// be computed.
pub open spec fn trade_step(taker: BookOrder, maker: BookOrder, base_scale: i32) -> Step {
    if misses(taker, maker) {
        Step::Stop
    } else if spends_funds(taker) {
        if taker.funds.units() == 0 {
            Step::Stop
        } else {
            match taker.funds.spec_div(maker.price) {
                None => Step::Fail,
                Some(quotient) => match quotient.spec_trunc(places(base_scale)) {
                    None => Step::Fail,
                    Some(affordable) => if affordable.units() == 0 {
                        Step::Stop
                    } else {
                        let size = affordable.spec_min(maker.size);
                        match size.spec_mul(maker.price) {
                            None => Step::Fail,
                            Some(cost) => match taker.funds.spec_sub(cost) {
                                None => Step::Fail,
                                Some(rest) => Step::Trade {
                                    size,
                                    taker: BookOrder { funds: rest, ..taker },
                                },
                            },
                        }
                    },
                },
            }
        }
    } else if taker.size.units() == 0 {
        Step::Stop
    } else {
        let size = taker.size.spec_min(maker.size);
        match taker.size.spec_sub(size) {
            None => Step::Fail,
            Some(rest) => Step::Trade { size, taker: taker.with_size(rest) },
        }
    }
}

/// The decimal places for `scale`, see [`places`].
pub fn places_of(scale: i32) -> (p: u32)
    ensures
        p == places(scale),
{
    if scale >= 0 {
        scale as u32
    } else {
        (scale as i64 + 0x1_0000_0000) as u32
    }
}

/// The taker spends size, has none owing, and the maker has some: then the
/// step does not fail, and a trade is of a positive size no larger than the
/// maker's and leaves the taker with no size owing, and with none at all
/// exactly when the trade was of its whole size.
pub open spec fn plain_step(taker: BookOrder, maker: BookOrder, s: Step) -> bool {
    !spends_funds(taker) && taker.size.units() >= 0 && maker.size.units() > 0 ==> {
        &&& !(s is Fail)
        &&& s matches Step::Trade { size, taker: next } ==> {
            &&& 0 < size.units() <= maker.size.units()
            &&& next.size.units() >= 0
            &&& (next.size.units() == 0 <==> size.units() == taker.size.units())
        }
    }
}

/// What `taker` does on meeting `maker`, see [`trade_step`] and
/// [`plain_step`].
pub fn compute_step(taker: &BookOrder, maker: &BookOrder, base_scale: i32) -> (s: Step)
    ensures
        s == trade_step(*taker, *maker, base_scale),
        plain_step(*taker, *maker, s),
{
    if taker_misses(taker, maker) {
        return Step::Stop;
    }
    let by_funds: bool = match (taker.side, taker.order_type) {
        (Side::SideBuy, OrderType::OrderTypeMarket) => true,
        _ => false,
    };
    if by_funds {
        if taker.funds.is_zero() {
            return Step::Stop;
        }
        let quotient = match taker.funds.divided_by(maker.price) {
            None => { return Step::Fail; },
            Some(q) => q,
        };
        let affordable = match quotient.truncated(places_of(base_scale)) {
            None => { return Step::Fail; },
            Some(a) => a,
        };
        if affordable.is_zero() {
            return Step::Stop;
        }
        let size = affordable.min(maker.size);
        let cost = match size.times(maker.price) {
            None => { return Step::Fail; },
            Some(c) => c,
        };
        match taker.funds.minus(cost) {
            None => Step::Fail,
            Some(rest) => Step::Trade {
                size,
                taker: BookOrder {
                    order_id: taker.order_id,
                    user_id: taker.user_id,
                    size: taker.size,
                    funds: rest,
                    price: taker.price,
                    side: taker.side,
                    order_type: taker.order_type,
                    time_in_force: taker.time_in_force,
                },
            },
        }
    } else {
        if taker.size.is_zero() {
            return Step::Stop;
        }
        let size = taker.size.min(maker.size);
        match taker.size.minus(size) {
            None => Step::Fail,
            Some(rest) => Step::Trade {
                size,
                taker: BookOrder {
                    order_id: taker.order_id,
                    user_id: taker.user_id,
                    size: rest,
                    funds: taker.funds,
                    price: taker.price,
                    side: taker.side,
                    order_type: taker.order_type,
                    time_in_force: taker.time_in_force,
                },
            },
        }
    }
}

/// A taker on its way through the opposite side.
pub struct Walk {
    /// The taker with what it still has.
    pub taker: BookOrder,
    /// The opposite side as it now is.
    pub makers: Seq<BookOrder>,
    pub log_seq: u64,
    pub trade_seq: u64,
    /// The events so far.
    pub events: Seq<Event>,
    /// Why the walk broke off, if it did.
    pub failure: Option<BookError>,
}

/// The walk from the maker at place `at` on, to its end.
///
/// The taker meets the makers in priority order. Each trade takes the size
/// from the maker and emits a match at the maker's price under the next
/// event and trade numbers; a maker left with nothing leaves the side and a
/// done event says that it is filled. The walk ends at the first maker that
/// the taker stops at, at the end of the side, or where a number cannot be
/// computed.
#[verifier::opaque]
pub open spec fn walk(product_id: Seq<char>, base_scale: i32, w: Walk, at: int) -> Walk
    decreases w.makers.len() - at,
{
    if w.failure is Some || at < 0 || at >= w.makers.len() {
        w
    } else {
        let maker = w.makers[at];
        match trade_step(w.taker, maker, base_scale) {
            Step::Stop => w,
            Step::Fail => Walk { failure: Some(BookError::Arithmetic), ..w },
            Step::Trade { size, taker } => {
                if maker.size.units() < size.units() {
                    Walk {
                        failure: Some(
                            BookError::Depth(
                                DepthError::InsufficientSize { order_id: maker.order_id },
                            ),
                        ),
                        ..w
                    }
                } else {
                    match maker.size.spec_sub(size) {
                        None => Walk {
                            failure: Some(
                                BookError::Depth(DepthError::Overflow { order_id: maker.order_id }),
                            ),
                            ..w
                        },
                        Some(left) => {
                            let seq = (w.log_seq + 1) as u64;
                            let trade = (w.trade_seq + 1) as u64;
                            let matched = Event::matched(
                                seq,
                                product_id,
                                trade,
                                taker,
                                maker,
                                maker.price,
                                size,
                            );
                            if left.units() == 0 {
                                let done = Event::done(
                                    (seq + 1) as u64,
                                    product_id,
                                    maker,
                                    left,
                                    DoneReason::DoneReasonFilled,
                                );
                                walk(
                                    product_id,
                                    base_scale,
                                    Walk {
                                        taker,
                                        makers: w.makers.remove(at),
                                        log_seq: (seq + 1) as u64,
                                        trade_seq: trade,
                                        events: w.events.push(matched).push(done),
                                        failure: None,
                                    },
                                    at,
                                )
                            } else {
                                walk(
                                    product_id,
                                    base_scale,
                                    Walk {
                                        taker,
                                        makers: w.makers.update(at, maker.with_size(left)),
                                        log_seq: seq,
                                        trade_seq: trade,
                                        events: w.events.push(matched),
                                        failure: None,
                                    },
                                    at + 1,
                                )
                            }
                        },
                    }
                }
            },
        }
    }
}

/// Every order of `after` is an order of `before` with, at most, another
/// size.
#[verifier::opaque]
pub open spec fn shrunk_from(after: Seq<BookOrder>, before: Seq<BookOrder>) -> bool {
    forall|i: int|
        0 <= i < after.len() ==> exists|j: int|
            0 <= j < before.len() && (#[trigger] after[i]) == (#[trigger] before[j]).with_size(
                after[i].size,
            )
}

/// What shrinking keeps: no new id, and the side that all orders are on.
pub proof fn lemma_shrunk(after: Seq<BookOrder>, before: Seq<BookOrder>, side: Side)
    requires
        shrunk_from(after, before),
    ensures
        forall|id: u64| has_order(after, id) ==> has_order(before, id),
        (forall|i: int| 0 <= i < before.len() ==> (#[trigger] before[i]).side == side) ==> (forall|
            i: int,
        |
            0 <= i < after.len() ==> (#[trigger] after[i]).side == side),
{
    reveal(shrunk_from);
    assert forall|id: u64| has_order(after, id) implies has_order(before, id) by {
        let i = position(after, id);
        let j = choose|j: int|
            0 <= j < before.len() && after[i] == (#[trigger] before[j]).with_size(after[i].size);
        assert(before[j].order_id == id);
    }
    if forall|i: int| 0 <= i < before.len() ==> (#[trigger] before[i]).side == side {
        assert forall|i: int| 0 <= i < after.len() implies (#[trigger] after[i]).side == side by {
            let j = choose|j: int|
                0 <= j < before.len() && after[i] == (#[trigger] before[j]).with_size(
                    after[i].size,
                );
            assert(before[j].side == side);
        }
    }
}

/// What the taker has left after meeting, without trading, the makers from
/// place `at` on; `None` where a number cannot be computed. The makers stay
/// as they are.
pub open spec fn dry_walk(taker: BookOrder, makers: Seq<BookOrder>, base_scale: i32, at: int) -> Option<
    BookOrder,
>
    decreases makers.len() - at,
{
    if at < 0 || at >= makers.len() {
        Some(taker)
    } else {
        match trade_step(taker, makers[at], base_scale) {
            Step::Stop => Some(taker),
            Step::Fail => None,
            Step::Trade { size, taker: next } => dry_walk(next, makers, base_scale, at + 1),
        }
    }
}

/// Lets `taker` meet the makers of `depth` without trading, see
/// [`dry_walk`].
pub fn dry_run<T: OrderingTrait>(depth: &Depth<T>, taker: BookOrder, base_scale: i32) -> (r: Option<
    BookOrder,
>)
    requires
        depth.wf(),
    ensures
        r == dry_walk(taker, depth@, base_scale, 0),
{
    let n: usize = depth.len();
    let mut now = taker;
    let mut at: usize = 0;
    let mut stopped: bool = false;
    while !stopped && at < n
        invariant
            depth.wf(),
            n == depth@.len(),
            at <= n,
            dry_walk(taker, depth@, base_scale, 0) == dry_walk(now, depth@, base_scale, at as int),
            stopped ==> dry_walk(now, depth@, base_scale, at as int) == Some(now),
        decreases
                n - at + (if stopped {
                    0int
                } else {
                    1int
                }),
    {
        let maker = depth.nth(at);
        match compute_step(&now, &maker, base_scale) {
            Step::Stop => {
                stopped = true;
            },
            Step::Fail => {
                return None;
            },
            Step::Trade { size, taker: next } => {
                now = next;
                at = at + 1;
            },
        }
    }
    Some(now)
}

/// A side is shrunk from itself.
pub proof fn lemma_self_shrunk(s: Seq<BookOrder>)
    ensures
        shrunk_from(s, s),
{
    reveal(shrunk_from);
    assert forall|i: int| 0 <= i < s.len() implies exists|j: int|
        0 <= j < s.len() && (#[trigger] s[i]) == (#[trigger] s[j]).with_size(s[i].size) by {
        assert(s[i] == s[i].with_size(s[i].size));
    }
}

/// Shrinking twice is shrinking.
pub proof fn lemma_shrunk_twice(a: Seq<BookOrder>, b: Seq<BookOrder>, c: Seq<BookOrder>)
    requires
        shrunk_from(a, b),
        shrunk_from(b, c),
    ensures
        shrunk_from(a, c),
{
    reveal(shrunk_from);
    assert forall|i: int| 0 <= i < a.len() implies exists|j: int|
        0 <= j < c.len() && (#[trigger] a[i]) == (#[trigger] c[j]).with_size(a[i].size) by {
        let m = choose|m: int|
            0 <= m < b.len() && a[i] == (#[trigger] b[m]).with_size(a[i].size);
        let j = choose|j: int|
            0 <= j < c.len() && b[m] == (#[trigger] c[j]).with_size(b[m].size);
        assert(a[i] == c[j].with_size(a[i].size));
    }
}

/// Reducing an order on a side only shrinks the side.
pub proof fn lemma_decr_shrinks(s: Seq<BookOrder>, id: u64, size: Decimal)
    ensures
        shrunk_from(decr_side(s, id, size), s),
{
    reveal(shrunk_from);
    let after = decr_side(s, id, size);
    assert forall|i: int| 0 <= i < after.len() implies exists|j: int|
        0 <= j < s.len() && (#[trigger] after[i]) == (#[trigger] s[j]).with_size(after[i].size) by {
        if decr_answer(s, id, size) is Err {
            assert(after[i] == s[i].with_size(after[i].size));
        } else {
            let k = position(s, id);
            let left = s[k].size.spec_sub(size)->Some_0;
            if left.units() == 0 {
                let j = if i < k { i } else { i + 1 };
                assert(after[i] == s[j].with_size(after[i].size));
            } else {
                assert(after[i] == s[i].with_size(after[i].size));
            }
        }
    }
}

/// `after` is `before` but for its size and funds.
pub open spec fn only_spent(after: BookOrder, before: BookOrder) -> bool {
    after == (BookOrder { size: after.size, funds: after.funds, ..before })
}

/// The taker spends size and has none owing, and every maker has some.
pub open spec fn plain_walk(taker: BookOrder, makers: Seq<BookOrder>) -> bool {
    !spends_funds(taker) && taker.size.units() >= 0 && all_positive(makers)
}

/// Every match among the records from place `from` on is of a positive
/// size.
pub open spec fn positive_matches(logs: Seq<Log>, from: int) -> bool {
    forall|i: int|
        from <= i < logs.len() ==> ((#[trigger] logs[i]) matches Log::Match(m)
            ==> m.size.units() > 0)
}

/// The walk that starts with these values and no failure.
pub open spec fn walk_state(
    taker: BookOrder,
    makers: Seq<BookOrder>,
    log_seq: u64,
    trade_seq: u64,
    logs: Seq<Log>,
) -> Walk {
    Walk { taker, makers, log_seq, trade_seq, events: events_of(logs), failure: None }
}

/// Walks `taker` through `depth`, see [`walk`]. The events are added to
/// `logs`. Where the walk breaks off, everything is left as it was before
/// the step that failed.
pub fn match_against<T: OrderingTrait>(
    depth: &mut Depth<T>,
    taker: &mut BookOrder,
    product_id: &str,
    base_scale: i32,
    log_seq: &mut u64,
    trade_seq: &mut u64,
    logs: &mut Vec<Log>,
) -> (r: Result<(), BookError>)
    requires
        old(depth).wf(),
        *old(log_seq) + 2 * old(depth)@.len() <= u64::MAX,
        *old(trade_seq) + old(depth)@.len() <= u64::MAX,
    ensures
        final(depth).wf(),
        shrunk_from(final(depth)@, old(depth)@),
        only_spent(*final(taker), *old(taker)),
        plain_walk(*old(taker), old(depth)@) ==> r is Ok && plain_walk(
            *final(taker),
            final(depth)@,
        ) && positive_matches(final(logs)@, old(logs)@.len() as int),
        final(logs)@.len() >= old(logs)@.len(),
        *final(log_seq) <= *old(log_seq) + 2 * old(depth)@.len(),
        *final(trade_seq) <= *old(trade_seq) + old(depth)@.len(),
        walk(
            product_id@,
            base_scale,
            walk_state(*old(taker), old(depth)@, *old(log_seq), *old(trade_seq), old(logs)@),
            0,
        ) == (Walk {
            failure: match r {
                Ok(_) => None,
                Err(e) => Some(e),
            },
            ..walk_state(
                *final(taker),
                final(depth)@,
                *final(log_seq),
                *final(trade_seq),
                final(logs)@,
            )
        }),
{
    let ghost start = walk_state(*taker, depth@, *log_seq, *trade_seq, logs@);
    let ghost first = depth@;
    let mut at: usize = 0;
    let mut stopped: bool = false;
    proof {
        lemma_self_shrunk(first);
    }
    while !stopped && at < depth.len()
        invariant
            first == old(depth)@,
            start == walk_state(
                *old(taker),
                old(depth)@,
                *old(log_seq),
                *old(trade_seq),
                old(logs)@,
            ),
            depth.wf(),
            only_spent(*taker, *old(taker)),
            plain_walk(*old(taker), old(depth)@) ==> plain_walk(*taker, depth@)
                && positive_matches(logs@, old(logs)@.len() as int),
            logs@.len() >= old(logs)@.len(),
            at <= depth@.len(),
            *old(log_seq) + 2 * old(depth)@.len() <= u64::MAX,
            *old(trade_seq) + old(depth)@.len() <= u64::MAX,
            *log_seq + 2 * (depth@.len() - at) <= *old(log_seq) + 2 * old(depth)@.len(),
            *trade_seq + (depth@.len() - at) <= *old(trade_seq) + old(depth)@.len(),
            shrunk_from(depth@, first),
            walk(product_id@, base_scale, start, 0) == walk(
                product_id@,
                base_scale,
                walk_state(*taker, depth@, *log_seq, *trade_seq, logs@),
                at as int,
            ),
            stopped ==> walk(
                product_id@,
                base_scale,
                walk_state(*taker, depth@, *log_seq, *trade_seq, logs@),
                at as int,
            ) == walk_state(*taker, depth@, *log_seq, *trade_seq, logs@),
        decreases
                depth@.len() - at + (if stopped {
                    0int
                } else {
                    1int
                }),
    {
        let maker = depth.nth(at);
        let ghost makers = depth@;
        proof {
            reveal(walk);
        }
        let ghost now = walk_state(*taker, depth@, *log_seq, *trade_seq, logs@);
        proof {
            depth.lemma_wf();
            assert(makers[at as int].order_id == maker.order_id);
            assert(has_order(makers, maker.order_id));
            assert(position(makers, maker.order_id) == at);
        }
        match compute_step(taker, &maker, base_scale) {
            Step::Stop => {
                stopped = true;
            },
            Step::Fail => {
                return Err(BookError::Arithmetic);
            },
            Step::Trade { size, taker: next } => {
                proof {
                    lemma_decr_shrinks(makers, maker.order_id, size);
                    lemma_shrunk_twice(decr_side(makers, maker.order_id, size), makers, first);
                }
                let left = match depth.reduce(maker.order_id, &size) {
                    Err(e) => {
                        return Err(BookError::Depth(e));
                    },
                    Ok(left) => left,
                };
                *taker = next;
                *log_seq = *log_seq + 1;
                *trade_seq = *trade_seq + 1;
                let ghost before_logs = logs@;
                let matched = new_match_log(
                    *log_seq,
                    product_id,
                    *trade_seq,
                    taker,
                    &maker,
                    &maker.price,
                    &size,
                );
                logs.push(Log::Match(matched));
                proof {
                    assert(events_of(logs@) =~= events_of(before_logs).push(matched@));
                }
                if left.is_zero() {
                    *log_seq = *log_seq + 1;
                    let ghost with_match = logs@;
                    let done = new_done_log(
                        *log_seq,
                        product_id,
                        &maker,
                        &left,
                        &DoneReason::DoneReasonFilled,
                    );
                    logs.push(Log::Done(done));
                    proof {
                        assert(events_of(logs@) =~= events_of(with_match).push(done@));
                        assert(depth@ == makers.remove(at as int));
                    }
                } else {
                    proof {
                        assert(depth@ == makers.update(at as int, maker.with_size(left)));
                    }
                    at = at + 1;
                }
            },
        }
    }
    proof {
        reveal(walk);
    }
    Ok(())
}

} // verus!
