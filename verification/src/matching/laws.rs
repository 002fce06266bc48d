//! What holds of every walk through the book and of every call on it.

use crate::matching::crossing::{only_spent, trade_step, walk, Step, Walk};
use crate::matching::depth::{
    distinct_ids, has_order, in_priority_order, lemma_place_is_unique, lemma_position, position,
};
use crate::matching::log::Event;
use crate::matching::order_book::{taker_of, BookOrder, BookState};
use crate::matching::ordering::{PriceOrderIdKeyAsc, PriceOrderIdKeyDesc};
use crate::models::models::Order;
use crate::models::types::{DoneReason, Side};
use crate::utils::window::lemma_accepted_was_unseen;
use vstd::prelude::*;

verus! {

/// The number of trades among the events.
pub open spec fn matches_in(events: Seq<Event>) -> nat
    decreases events.len(),
{
    if events.len() == 0 {
        0
    } else {
        matches_in(events.drop_last()) + if events.last() is Match {
            1nat
        } else {
            0nat
        }
    }
}

/// One more event is one more trade exactly when it is a match.
pub proof fn lemma_matches_in_push(events: Seq<Event>, e: Event)
    ensures
        matches_in(events.push(e)) == matches_in(events) + if e is Match {
            1nat
        } else {
            0nat
        },
{
    assert(events.push(e).drop_last() =~= events);
}

/// What a walk from place `at` makes of the numbering, from the state `w`
/// to the state `r`: the events of `w` are kept, each new event has the
/// number behind its predecessor's, each new match the trade number behind
/// that of the match before, and the two sequences end at the last numbers
/// given.
pub open spec fn numbered_from(w: Walk, r: Walk, at: int) -> bool {
    let n = w.events.len() as int;
    &&& r.events.len() >= n
    &&& r.events.take(n) == w.events
    &&& r.log_seq == w.log_seq + (r.events.len() - n)
    &&& r.log_seq <= w.log_seq + 2 * (w.makers.len() - at)
    &&& r.trade_seq <= w.trade_seq + (w.makers.len() - at)
    &&& r.makers.len() <= w.makers.len()
    &&& forall|i: int|
        n <= i < r.events.len() ==> (#[trigger] r.events[i]).seq() == w.log_seq + 1 + (i - n)
    &&& r.trade_seq == w.trade_seq + matches_in(r.events) - matches_in(w.events)
    &&& forall|i: int|
        n <= i < r.events.len() && (#[trigger] r.events[i]) is Match
            ==> r.events[i]->Match_trade_seq == w.trade_seq + matches_in(r.events.take(i + 1))
            - matches_in(w.events)
}

/// The events of a walk are numbered without a gap, and so are its trades.
///
/// The walk keeps the events it started with and adds to them. Each new
/// event has the number that follows its predecessor's, starting behind the
/// event sequence that the walk began with, and the sequence ends at the
/// number of the last event. Each new match has the trade number that
/// follows the previous match's, starting behind the trade sequence that the
/// walk began with, and that sequence ends at the number of the last match.
pub proof fn lemma_walk_numbers(product_id: Seq<char>, base_scale: i32, w: Walk, at: int)
    requires
        0 <= at <= w.makers.len(),
        w.log_seq + 2 * (w.makers.len() - at) <= u64::MAX,
        w.trade_seq + (w.makers.len() - at) <= u64::MAX,
    ensures
        numbered_from(w, walk(product_id, base_scale, w, at), at),
    decreases w.makers.len() - at,
{
    reveal(walk);
    let r = walk(product_id, base_scale, w, at);
    let n = w.events.len() as int;
    if w.failure is Some || at >= w.makers.len() {
        assert(r.events.take(n) =~= w.events);
    } else {
        let maker = w.makers[at];
        match trade_step(w.taker, maker, base_scale) {
            Step::Trade { size, taker } => {
                if maker.size.units() >= size.units() && maker.size.spec_sub(size) is Some {
                    let left = maker.size.spec_sub(size)->Some_0;
                    let seq = (w.log_seq + 1) as u64;
                    let trade = (w.trade_seq + 1) as u64;
                    let matched = Event::matched(
                        seq,
                        product_id,
                        trade,
                        taker,
                        maker,
                        maker.price,
                        size,
                    );
                    lemma_matches_in_push(w.events, matched);
                    if left.units() == 0 {
                        let done = Event::done(
                            (seq + 1) as u64,
                            product_id,
                            maker,
                            left,
                            DoneReason::DoneReasonFilled,
                        );
                        let next = Walk {
                            taker,
                            makers: w.makers.remove(at),
                            log_seq: (seq + 1) as u64,
                            trade_seq: trade,
                            events: w.events.push(matched).push(done),
                            failure: None,
                        };
                        lemma_matches_in_push(w.events.push(matched), done);
                        lemma_walk_numbers(product_id, base_scale, next, at);
                        assert(r == walk(product_id, base_scale, next, at));
                        assert(r.events.take(n) =~= r.events.take(n + 2).take(n));
                        assert(next.events.take(n) =~= w.events);
                        assert(r.events[n] == next.events[n]) by {
                            assert(r.events.take(n + 2)[n] == next.events[n]);
                        }
                        assert(r.events[n + 1] == next.events[n + 1]) by {
                            assert(r.events.take(n + 2)[n + 1] == next.events[n + 1]);
                        }
                        assert(r.events.take(n + 1) =~= w.events.push(matched));
                    } else {
                        let next = Walk {
                            taker,
                            makers: w.makers.update(at, maker.with_size(left)),
                            log_seq: seq,
                            trade_seq: trade,
                            events: w.events.push(matched),
                            failure: None,
                        };
                        lemma_walk_numbers(product_id, base_scale, next, at + 1);
                        assert(r == walk(product_id, base_scale, next, at + 1));
                        assert(r.events.take(n) =~= r.events.take(n + 1).take(n));
                        assert(next.events.take(n) =~= w.events);
                        assert(r.events[n] == next.events[n]) by {
                            assert(r.events.take(n + 1)[n] == next.events[n]);
                        }
                        assert(r.events.take(n + 1) =~= w.events.push(matched));
                    }
                } else {
                    assert(r.events.take(n) =~= w.events);
                }
            },
            _ => {
                assert(r.events.take(n) =~= w.events);
            },
        }
    }
}

/// What a match among `events` says of the maker, given the side before
/// and after the walk.
///
/// The taker is the one with `taker_id`. The maker rested on the side
/// before; the trade is at its price and on its side, and takes from its
/// size no more than it had. If that leaves nothing, the maker is gone
/// from the side after, and the next event says that the maker is done,
/// filled, with nothing remaining. If it leaves something, the maker rests
/// on the side after with what is left, and the event that follows within
/// the walk, if any, is another match.
pub open spec fn sound_match(
    events: Seq<Event>,
    i: int,
    walk_end: int,
    taker_id: u64,
    before: Seq<BookOrder>,
    after: Seq<BookOrder>,
) -> bool {
    events[i] matches Event::Match {
        seq,
        product_id,
        taker_order_id,
        maker_order_id,
        maker_user_id,
        side,
        price,
        size,
        maker_time_in_force,
        ..
    } ==> {
        &&& taker_order_id == taker_id
        &&& has_order(before, maker_order_id)
        &&& {
            let maker = before[position(before, maker_order_id)];
            &&& price == maker.price
            &&& side == maker.side
            &&& maker_user_id == maker.user_id
            &&& maker_time_in_force == maker.time_in_force
            &&& maker.size.units() >= size.units()
            &&& maker.size.spec_sub(size) matches Some(left)
            &&& if left.units() == 0 {
                &&& !has_order(after, maker_order_id)
                &&& i + 1 < walk_end
                &&& events[i + 1] == Event::done(
                    (seq + 1) as u64,
                    product_id,
                    maker,
                    left,
                    DoneReason::DoneReasonFilled,
                )
            } else {
                &&& has_order(after, maker_order_id)
                &&& after[position(after, maker_order_id)] == maker.with_size(left)
                &&& (i + 1 < walk_end ==> events[i + 1] is Match)
            }
        }
    }
}

/// What a walk emits besides matches: nothing opens, and a done event
/// directly follows the match of the maker that it speaks of.
pub open spec fn sound_done(events: Seq<Event>, i: int, walk_start: int) -> bool {
    &&& !(events[i] is Open)
    &&& events[i] matches Event::Done { order_id, .. } ==> {
        &&& i > walk_start
        &&& events[i - 1] matches Event::Match { maker_order_id, .. }
        &&& maker_order_id == order_id
    }
}

/// What a walk from place `at` makes of the state `w`, in `r`.
pub open spec fn sound_walk(w: Walk, r: Walk, at: int) -> bool {
    let n = w.events.len() as int;
    &&& r.events.len() >= n
    &&& r.events.take(n) == w.events
    &&& only_spent(r.taker, w.taker)
    &&& at <= r.makers.len() <= w.makers.len()
    &&& distinct_ids(r.makers)
    &&& forall|j: int| 0 <= j < at ==> #[trigger] r.makers[j] == w.makers[j]
    &&& forall|id: u64| has_order(r.makers, id) ==> has_order(w.makers, id)
    &&& (r.events.len() > n ==> r.events[n] is Match)
    &&& forall|i: int| n <= i < r.events.len() ==> #[trigger] sound_done(r.events, i, n)
    &&& forall|i: int|
        n <= i < r.events.len() ==> #[trigger] sound_match(
            r.events,
            i,
            r.events.len() as int,
            w.taker.order_id,
            w.makers,
            r.makers,
        )
    &&& forall|i: int|
        n <= i < r.events.len() && (#[trigger] r.events[i]) is Match ==> position(
            w.makers,
            r.events[i]->Match_maker_order_id,
        ) >= at
}

/// Every match of a walk is sound, see [`sound_match`], and a done event
/// comes only behind the match of its maker, see [`sound_done`].
pub proof fn lemma_walk_is_sound(product_id: Seq<char>, base_scale: i32, w: Walk, at: int)
    requires
        0 <= at <= w.makers.len(),
        distinct_ids(w.makers),
    ensures
        sound_walk(w, walk(product_id, base_scale, w, at), at),
    decreases w.makers.len() - at,
{
    reveal(walk);
    let r = walk(product_id, base_scale, w, at);
    let n = w.events.len() as int;
    if w.failure is Some || at >= w.makers.len() {
        assert(r.events.take(n) =~= w.events);
    } else {
        let maker = w.makers[at];
        lemma_position(w.makers, at);
        match trade_step(w.taker, maker, base_scale) {
            Step::Trade { size, taker } => {
                if maker.size.units() >= size.units() && maker.size.spec_sub(size) is Some {
                    let left = maker.size.spec_sub(size)->Some_0;
                    let seq = (w.log_seq + 1) as u64;
                    let trade = (w.trade_seq + 1) as u64;
                    let matched = Event::matched(
                        seq,
                        product_id,
                        trade,
                        taker,
                        maker,
                        maker.price,
                        size,
                    );
                    if left.units() == 0 {
                        let done = Event::done(
                            (seq + 1) as u64,
                            product_id,
                            maker,
                            left,
                            DoneReason::DoneReasonFilled,
                        );
                        let next = Walk {
                            taker,
                            makers: w.makers.remove(at),
                            log_seq: (seq + 1) as u64,
                            trade_seq: trade,
                            events: w.events.push(matched).push(done),
                            failure: None,
                        };
                        assert(distinct_ids(next.makers)) by {
                            assert forall|i: int, j: int| 0 <= i < j < next.makers.len() implies (
                            #[trigger] next.makers[i]).order_id != (
                            #[trigger] next.makers[j]).order_id by {
                                let oi = if i < at { i } else { i + 1 };
                                let oj = if j < at { j } else { j + 1 };
                                assert(next.makers[i] == w.makers[oi] && next.makers[j]
                                    == w.makers[oj]);
                            }
                        }
                        lemma_walk_is_sound(product_id, base_scale, next, at);
                        assert(r == walk(product_id, base_scale, next, at));
                        assert(r.events.take(n) =~= r.events.take(n + 2).take(n));
                        assert(next.events.take(n) =~= w.events);
                        assert(r.events[n] == matched) by {
                            assert(r.events.take(n + 2)[n] == next.events[n]);
                        }
                        assert(r.events[n + 1] == done) by {
                            assert(r.events.take(n + 2)[n + 1] == next.events[n + 1]);
                        }
                        assert(!has_order(next.makers, maker.order_id)) by {
                            if has_order(next.makers, maker.order_id) {
                                let p = position(next.makers, maker.order_id);
                                let o = if p < at { p } else { p + 1 };
                                assert(next.makers[p] == w.makers[o]);
                                if o < at {
                                    assert(w.makers[o].order_id != w.makers[at].order_id);
                                } else {
                                    assert(w.makers[at].order_id != w.makers[o].order_id);
                                }
                            }
                        }
                        assert forall|id: u64| has_order(next.makers, id) implies has_order(
                            w.makers,
                            id,
                        ) by {
                            let p = position(next.makers, id);
                            let o = if p < at { p } else { p + 1 };
                            assert(next.makers[p] == w.makers[o]);
                        }
                        assert forall|j: int| 0 <= j < at implies #[trigger] r.makers[j]
                            == w.makers[j] by {
                            assert(r.makers[j] == next.makers[j]);
                        }
                        assert forall|i: int| n <= i < r.events.len() implies #[trigger] sound_done(
                            r.events,
                            i,
                            n,
                        ) by {
                            if i >= n + 2 {
                                assert(sound_done(r.events, i, n + 2));
                            }
                        }
                        assert forall|i: int| n <= i < r.events.len() implies #[trigger] sound_match(
                            r.events,
                            i,
                            r.events.len() as int,
                            w.taker.order_id,
                            w.makers,
                            r.makers,
                        ) && (r.events[i] is Match ==> position(
                            w.makers,
                            r.events[i]->Match_maker_order_id,
                        ) >= at) by {
                            if i >= n + 2 {
                                assert(sound_match(
                                    r.events,
                                    i,
                                    r.events.len() as int,
                                    next.taker.order_id,
                                    next.makers,
                                    r.makers,
                                ));
                                assert(sound_done(r.events, i, n + 2));
                                if r.events[i] is Match {
                                    let id = r.events[i]->Match_maker_order_id;
                                    let p = position(next.makers, id);
                                    assert(p >= at);
                                    assert(next.makers[p] == w.makers[p + 1]);
                                    lemma_position(w.makers, p + 1);
                                }
                            }
                        }
                        assert forall|i: int|
                            n <= i < r.events.len() && (#[trigger] r.events[i]) is Match implies position(
                            w.makers,
                            r.events[i]->Match_maker_order_id,
                        ) >= at by {
                            assert(sound_match(
                                r.events,
                                i,
                                r.events.len() as int,
                                w.taker.order_id,
                                w.makers,
                                r.makers,
                            ));
                        }
                    } else {
                        let next = Walk {
                            taker,
                            makers: w.makers.update(at, maker.with_size(left)),
                            log_seq: seq,
                            trade_seq: trade,
                            events: w.events.push(matched),
                            failure: None,
                        };
                        assert(distinct_ids(next.makers)) by {
                            assert forall|i: int, j: int| 0 <= i < j < next.makers.len() implies (
                            #[trigger] next.makers[i]).order_id != (
                            #[trigger] next.makers[j]).order_id by {
                                assert(next.makers[i].order_id == w.makers[i].order_id);
                                assert(next.makers[j].order_id == w.makers[j].order_id);
                            }
                        }
                        lemma_walk_is_sound(product_id, base_scale, next, at + 1);
                        assert(r == walk(product_id, base_scale, next, at + 1));
                        assert(r.events.take(n) =~= r.events.take(n + 1).take(n));
                        assert(next.events.take(n) =~= w.events);
                        assert(r.events[n] == matched) by {
                            assert(r.events.take(n + 1)[n] == next.events[n]);
                        }
                        assert(r.makers[at] == next.makers[at]);
                        lemma_position(r.makers, at);
                        assert forall|id: u64| has_order(next.makers, id) implies has_order(
                            w.makers,
                            id,
                        ) by {
                            let p = position(next.makers, id);
                            assert(next.makers[p].order_id == w.makers[p].order_id);
                        }
                        assert forall|j: int| 0 <= j < at implies #[trigger] r.makers[j]
                            == w.makers[j] by {
                            assert(r.makers[j] == next.makers[j]);
                        }
                        assert forall|i: int| n <= i < r.events.len() implies #[trigger] sound_done(
                            r.events,
                            i,
                            n,
                        ) by {
                            if i >= n + 1 {
                                assert(sound_done(r.events, i, n + 1));
                            }
                        }
                        assert forall|i: int| n <= i < r.events.len() implies #[trigger] sound_match(
                            r.events,
                            i,
                            r.events.len() as int,
                            w.taker.order_id,
                            w.makers,
                            r.makers,
                        ) && (r.events[i] is Match ==> position(
                            w.makers,
                            r.events[i]->Match_maker_order_id,
                        ) >= at) by {
                            if i >= n + 1 {
                                assert(sound_match(
                                    r.events,
                                    i,
                                    r.events.len() as int,
                                    next.taker.order_id,
                                    next.makers,
                                    r.makers,
                                ));
                                assert(sound_done(r.events, i, n + 1));
                                if r.events[i] is Match {
                                    let id = r.events[i]->Match_maker_order_id;
                                    let p = position(next.makers, id);
                                    assert(p >= at + 1);
                                    assert(next.makers[p] == w.makers[p]);
                                    lemma_position(w.makers, p);
                                }
                            }
                        }
                        assert forall|i: int|
                            n <= i < r.events.len() && (#[trigger] r.events[i]) is Match implies position(
                            w.makers,
                            r.events[i]->Match_maker_order_id,
                        ) >= at by {
                            assert(sound_match(
                                r.events,
                                i,
                                r.events.len() as int,
                                w.taker.order_id,
                                w.makers,
                                r.makers,
                            ));
                        }
                    }
                } else {
                    assert(r.events.take(n) =~= w.events);
                }
            },
            _ => {
                assert(r.events.take(n) =~= w.events);
            },
        }
    }
}

/// The events of a call continue the book's numbering: the event sequence
/// grows by the number of events, which are numbered one by one from behind
/// the old sequence, and the trade sequence grows by the number of matches,
/// which are numbered one by one from behind the old trade sequence.
pub open spec fn numbered(before: BookState, after: BookState, events: Seq<Event>) -> bool {
    &&& after.log_seq == before.log_seq + events.len()
    &&& forall|i: int|
        0 <= i < events.len() ==> (#[trigger] events[i]).seq() == before.log_seq + 1 + i
    &&& after.trade_seq == before.trade_seq + matches_in(events)
    &&& forall|i: int|
        0 <= i < events.len() && (#[trigger] events[i]) is Match ==> events[i]->Match_trade_seq
            == before.trade_seq + matches_in(events.take(i + 1))
}

/// Applying an order never lowers a sequence, and where it succeeds its
/// events continue the book's numbering, see [`numbered`].
pub proof fn lemma_apply_numbers(
    book: BookState,
    product_id: Seq<char>,
    base_scale: i32,
    order: Order,
)
    requires
        book.has_room(),
    ensures
        book.apply(product_id, base_scale, order).book.log_seq >= book.log_seq,
        book.apply(product_id, base_scale, order).book.log_seq <= book.log_seq + 2
            * book.resting() + 1,
        book.apply(product_id, base_scale, order).book.trade_seq >= book.trade_seq,
        book.apply(product_id, base_scale, order).outcome matches Ok(events) ==> numbered(
            book,
            book.apply(product_id, base_scale, order).book,
            events,
        ),
{
    let a = book.apply(product_id, base_scale, order);
    if book.window.accepts(order.id) {
        let start = Walk {
            taker: taker_of(order),
            makers: book.opposite(order.side),
            log_seq: book.log_seq,
            trade_seq: book.trade_seq,
            events: Seq::empty(),
            failure: None,
        };
        let w = book.walk_of(product_id, base_scale, order);
        lemma_walk_numbers(product_id, base_scale, start, 0);
        assert(matches_in(start.events) == 0);
        if a.outcome is Ok {
            let events = a.outcome->Ok_0;
            let last = events.last();
            assert(events =~= w.events.push(last));
            assert(!(last is Match));
            lemma_matches_in_push(w.events, last);
            assert forall|i: int|
                0 <= i < events.len() && (#[trigger] events[i]) is Match
                    implies events[i]->Match_trade_seq == book.trade_seq + matches_in(
                events.take(i + 1),
            ) by {
                assert(i < w.events.len());
                assert(events[i] == w.events[i]);
                assert(events.take(i + 1) =~= w.events.take(i + 1));
            }
            assert forall|i: int| 0 <= i < events.len() implies (#[trigger] events[i]).seq()
                == book.log_seq + 1 + i by {
                if i < w.events.len() {
                    assert(events[i] == w.events[i]);
                }
            }
        }
    } else {
        assert(matches_in(Seq::<Event>::empty()) == 0);
    }
}

/// A cancellation never lowers a sequence, and where it succeeds its events
/// continue the book's numbering, see [`numbered`].
pub proof fn lemma_cancel_numbers(book: BookState, product_id: Seq<char>, order: Order)
    requires
        book.log_seq < u64::MAX,
    ensures
        book.cancel(product_id, order).book.log_seq >= book.log_seq,
        book.cancel(product_id, order).book.trade_seq == book.trade_seq,
        book.cancel(product_id, order).outcome matches Ok(events) ==> numbered(
            book,
            book.cancel(product_id, order).book,
            events,
        ),
{
    let a = book.cancel(product_id, order);
    if a.outcome is Ok {
        let events = a.outcome->Ok_0;
        if events.len() == 0 {
            assert(matches_in(events) == 0);
        } else {
            assert(events.drop_last() =~= Seq::<Event>::empty());
            assert(matches_in(events.drop_last()) == 0);
        }
    }
}

/// The event of a nullified order continues the book's numbering, see
/// [`numbered`].
pub proof fn lemma_nullify_numbers(book: BookState, product_id: Seq<char>, order: Order)
    requires
        book.log_seq < u64::MAX,
    ensures
        numbered(
            book,
            book.nullify(product_id, order).0,
            seq![book.nullify(product_id, order).1],
        ),
{
    let events = seq![book.nullify(product_id, order).1];
    assert(events.drop_last() =~= Seq::<Event>::empty());
    assert(matches_in(events.drop_last()) == 0);
}

/// The trades among two runs of events are those of the one and those of
/// the other.
pub proof fn lemma_matches_in_both(a: Seq<Event>, b: Seq<Event>)
    ensures
        matches_in(a + b) == matches_in(a) + matches_in(b),
    decreases b.len(),
{
    if b.len() == 0 {
        assert(a + b =~= a);
    } else {
        assert((a + b).drop_last() =~= a + b.drop_last());
        lemma_matches_in_both(a, b.drop_last());
    }
}

/// Events that continue the numbering of events that continue the book's
/// numbering continue it together.
pub proof fn lemma_numbered_twice(
    before: BookState,
    between: BookState,
    after: BookState,
    first: Seq<Event>,
    second: Seq<Event>,
)
    requires
        numbered(before, between, first),
        numbered(between, after, second),
    ensures
        numbered(before, after, first + second),
{
    let events = first + second;
    let n = first.len() as int;
    lemma_matches_in_both(first, second);
    assert forall|i: int| 0 <= i < events.len() implies (#[trigger] events[i]).seq()
        == before.log_seq + 1 + i by {
        if i >= n {
            assert(events[i] == second[i - n]);
        } else {
            assert(events[i] == first[i]);
        }
    }
    assert forall|i: int|
        0 <= i < events.len() && (#[trigger] events[i]) is Match
            implies events[i]->Match_trade_seq == before.trade_seq + matches_in(
        events.take(i + 1),
    ) by {
        if i >= n {
            assert(events[i] == second[i - n]);
            assert(events.take(i + 1) =~= first + second.take(i - n + 1));
            lemma_matches_in_both(first, second.take(i - n + 1));
        } else {
            assert(events[i] == first[i]);
            assert(events.take(i + 1) =~= first.take(i + 1));
        }
    }
}

/// Whatever the applier does with an order, the events continue the book's
/// numbering, see [`numbered`]: each has a number above every number given
/// before, and the trades are counted without a gap.
pub proof fn lemma_dispatch_numbers(
    book: BookState,
    product_id: Seq<char>,
    base_scale: i32,
    order: Order,
)
    requires
        book.has_room(),
    ensures
        book.dispatch(product_id, base_scale, order).outcome matches Ok(events) ==> numbered(
            book,
            book.dispatch(product_id, base_scale, order).book,
            events,
        ),
{
    lemma_apply_numbers(book, product_id, base_scale, order);
    lemma_cancel_numbers(book, product_id, order);
    lemma_nullify_numbers(book, product_id, order);
    let applied = book.apply(product_id, base_scale, order);
    if applied.outcome is Ok {
        lemma_cancel_numbers(applied.book, product_id, order);
        let cancelled = applied.book.cancel(product_id, order);
        if cancelled.outcome is Ok {
            lemma_numbered_twice(
                book,
                applied.book,
                cancelled.book,
                applied.outcome->Ok_0,
                cancelled.outcome->Ok_0,
            );
        }
    }
}

/// The order that an event speaks of; for a match, the taker.
pub open spec fn subject(e: Event) -> u64 {
    match e {
        Event::Open { order_id, .. } => order_id,
        Event::Done { order_id, .. } => order_id,
        Event::Match { taker_order_id, .. } => taker_order_id,
    }
}

/// What the events of an applied order say, given the opposite side before
/// and after.
///
/// The last event is the taker's own: it opens or is done. The events
/// before it are those of its walk. Every match among them is sound, see
/// [`sound_match`]: it is at the maker's price, takes from the maker no
/// more than it had, and is followed by the maker's done event exactly when
/// nothing is left of the maker. No maker is the taker. A done event within
/// the walk directly follows the match of its maker, see [`sound_done`].
pub open spec fn sound_events(
    events: Seq<Event>,
    taker_id: u64,
    before: Seq<BookOrder>,
    after: Seq<BookOrder>,
) -> bool {
    let walked = events.len() - 1;
    events.len() > 0 ==> {
        &&& !(events.last() is Match)
        &&& subject(events.last()) == taker_id
        &&& forall|i: int| 0 <= i < walked ==> #[trigger] sound_done(events, i, 0)
        &&& forall|i: int|
            0 <= i < walked ==> #[trigger] sound_match(events, i, walked, taker_id, before, after)
        &&& forall|i: int|
            0 <= i < events.len() && (#[trigger] events[i]) is Match ==> events[i]->Match_maker_order_id
                != taker_id
    }
}

/// The events of an applied order are sound, see [`sound_events`].
pub proof fn lemma_apply_matches(
    book: BookState,
    product_id: Seq<char>,
    base_scale: i32,
    order: Order,
)
    requires
        book.wf(),
    ensures
        book.apply(product_id, base_scale, order).outcome matches Ok(events) ==> sound_events(
            events,
            order.id,
            book.opposite(order.side),
            book.apply(product_id, base_scale, order).book.opposite(order.side),
        ),
{
    let a = book.apply(product_id, base_scale, order);
    if book.window.accepts(order.id) && a.outcome is Ok {
        reveal(BookState::sides_wf);
        lemma_accepted_was_unseen(book.window, order.id);
        let start = Walk {
            taker: taker_of(order),
            makers: book.opposite(order.side),
            log_seq: book.log_seq,
            trade_seq: book.trade_seq,
            events: Seq::empty(),
            failure: None,
        };
        let w = book.walk_of(product_id, base_scale, order);
        lemma_walk_is_sound(product_id, base_scale, start, 0);
        let events = a.outcome->Ok_0;
        let walked = events.len() - 1;
        let before = book.opposite(order.side);
        let after = a.book.opposite(order.side);
        assert(events =~= w.events.push(events.last()));
        assert(after == w.makers);
        assert(!has_order(before, order.id));
        assert forall|i: int| 0 <= i < walked implies #[trigger] sound_done(events, i, 0) by {
            assert(sound_done(w.events, i, 0));
            assert(events[i] == w.events[i]);
            if i > 0 {
                assert(events[i - 1] == w.events[i - 1]);
            }
        }
        assert forall|i: int| 0 <= i < walked implies #[trigger] sound_match(
            events,
            i,
            walked,
            order.id,
            before,
            after,
        ) by {
            assert(sound_match(w.events, i, w.events.len() as int, order.id, before, after));
            assert(events[i] == w.events[i]);
            if i + 1 < walked {
                assert(events[i + 1] == w.events[i + 1]);
            }
        }
        assert forall|i: int|
            0 <= i < events.len() && (#[trigger] events[i]) is Match
                implies events[i]->Match_maker_order_id != order.id by {
            assert(i < walked);
            assert(sound_match(events, i, walked, order.id, before, after));
        }
    }
}

/// The first `k` orders of the book's snapshot, resting again: the asks
/// first, then the bids.
pub open spec fn partly_restored(book: BookState, k: int) -> BookState {
    let asks = book.asks.len() as int;
    BookState {
        asks: book.asks.take(if k < asks { k } else { asks }),
        bids: book.bids.take(if k < asks { 0 } else { k - asks }),
        ..book
    }
}

/// Letting the saved orders rest again, one by one, rebuilds the book.
proof fn lemma_rest_all_rebuilds(book: BookState, k: int)
    requires
        book.wf(),
        0 <= k <= book.asks.len() + book.bids.len(),
    ensures
        partly_restored(book, k).rest_all(book.asks + book.bids, k) == book,
    decreases book.asks.len() + book.bids.len() - k,
{
    reveal(BookState::sides_wf);
    let orders = book.asks + book.bids;
    let asks = book.asks.len() as int;
    let now = partly_restored(book, k);
    if k == orders.len() {
        assert(now.asks =~= book.asks);
        assert(now.bids =~= book.bids);
    } else {
        let order = orders[k];
        if k < asks {
            assert(order == book.asks[k]);
            assert(now.asks.insert(k, order) =~= book.asks.take(k + 1));
            lemma_place_is_unique::<PriceOrderIdKeyAsc>(now.asks, order, k);
            assert(now.with_resting(order).asks =~= book.asks.take(k + 1));
        } else {
            let m = k - asks;
            assert(order == book.bids[m]);
            assert(now.asks =~= book.asks);
            assert(now.bids.insert(m, order) =~= book.bids.take(m + 1));
            lemma_place_is_unique::<PriceOrderIdKeyDesc>(now.bids, order, m);
            assert(now.with_resting(order).bids =~= book.bids.take(m + 1));
            assert(book.asks.take(asks) =~= book.asks);
        }
        assert(now.with_resting(order) == partly_restored(book, k + 1));
        lemma_rest_all_rebuilds(book, k + 1);
    }
}

/// A book comes back from its own snapshot.
///
/// A book with no resting orders takes the snapshot of any well-formed
/// book, and restoring it gives that book: the same sides in the same
/// order, the same sequences, the same window. What a call does and gives
/// depends on the book only through these, so the restored book answers
/// every later order as the saved one would have.
pub proof fn lemma_snapshot_round_trip(book: BookState, empty: BookState, product_id: Seq<char>)
    requires
        book.wf(),
        empty.asks.len() == 0,
        empty.bids.len() == 0,
    ensures
        empty.takes(book.snapshot(product_id)),
        empty.restore(book.snapshot(product_id)) == book,
{
    reveal(BookState::sides_wf);
    let snap = book.snapshot(product_id);
    let base = empty.reset_to(snap);
    assert(base.asks =~= book.asks.take(0));
    assert(base.bids =~= book.bids.take(0));
    assert(base == partly_restored(book, 0));
    lemma_rest_all_rebuilds(book, 0);
    let asks = book.asks.len() as int;
    assert forall|i: int| 0 <= i < snap.orders.len() implies {
        let id = (#[trigger] snap.orders[i]).order_id;
        &&& book.window.seen(id)
        &&& !has_order(empty.asks, id)
        &&& !has_order(empty.bids, id)
        &&& (i < asks ==> has_order(book.asks, id))
        &&& (i >= asks ==> has_order(book.bids, id))
    } by {
        if i < asks {
            assert(book.asks[i].order_id == snap.orders[i].order_id);
        } else {
            assert(book.bids[i - asks].order_id == snap.orders[i].order_id);
        }
    }
    assert forall|i: int, j: int|
        0 <= i < snap.orders.len() && 0 <= j < snap.orders.len() && i != j implies (
    #[trigger] snap.orders[i]).order_id != (#[trigger] snap.orders[j]).order_id by {
        let a = if i < j { i } else { j };
        let b = if i < j { j } else { i };
        if b < asks {
            assert(book.asks[a].order_id != book.asks[b].order_id);
        } else if a >= asks {
            assert(book.bids[a - asks].order_id != book.bids[b - asks].order_id);
        } else {
            assert(has_order(book.asks, snap.orders[a].order_id));
            assert(has_order(book.bids, snap.orders[b].order_id));
        }
    }
}

/// What a well-formed book is: each side is in priority order, best price
/// first and lowest id first within a price; asks are sell orders and bids
/// buy orders; no id rests twice; and the window has seen every resting id,
/// so that it accepts none of them again.
pub proof fn lemma_book_sides(book: BookState)
    requires
        book.wf(),
    ensures
        in_priority_order::<PriceOrderIdKeyAsc>(book.asks),
        in_priority_order::<PriceOrderIdKeyDesc>(book.bids),
        distinct_ids(book.asks),
        distinct_ids(book.bids),
        forall|i: int| 0 <= i < book.asks.len() ==> (#[trigger] book.asks[i]).side == Side::SideSell,
        forall|i: int| 0 <= i < book.bids.len() ==> (#[trigger] book.bids[i]).side == Side::SideBuy,
        forall|id: u64| !(has_order(book.asks, id) && has_order(book.bids, id)),
        forall|id: u64|
            has_order(book.asks, id) || has_order(book.bids, id) ==> !book.window.accepts(id),
{
    reveal(BookState::sides_wf);
    assert forall|id: u64|
        has_order(book.asks, id) || has_order(book.bids, id) implies !book.window.accepts(
        id,
    ) by {
        assert(book.window.seen(id));
        if book.window.accepts(id) {
            lemma_accepted_was_unseen(book.window, id);
        }
    }
}

} // verus!
