use std::str::FromStr;

use matching_engine::matching::engine::Engine;
use matching_engine::matching::log::{Log, LogTrait};
use matching_engine::matching::order_book::OrderBook;
use matching_engine::models::decimal::{Decimal, Relation};
use matching_engine::models::models::{Order, Product};
use matching_engine::models::types::{DoneReason, OrderStatus, OrderType, Side, TimeInForceType};

fn dec(text: &str) -> Decimal {
    let d = rust_decimal::Decimal::from_str(text).unwrap();
    Decimal::new(d.mantissa(), d.scale()).unwrap()
}

fn same(a: Decimal, text: &str) -> bool {
    a.relation_to(dec(text)) == Relation::Equal
}

fn product() -> Product {
    Product {
        id: "BTC-USD".to_string(),
        base_currency: "BTC".to_string(),
        quote_currency: "USD".to_string(),
        base_scale: 4,
        quote_scale: 2,
    }
}

fn limit(id: u64, side: Side, price: &str, size: &str, tif: TimeInForceType) -> Order {
    Order {
        id,
        created_at: 1695783003020967000,
        product_id: "BTC-USD".to_string(),
        user_id: id + 100,
        client_oid: String::new(),
        price: dec(price),
        size: dec(size),
        funds: dec("0"),
        order_type: OrderType::OrderTypeLimit,
        side,
        time_in_force: tif,
        status: OrderStatus::OrderStatusNew,
    }
}

fn gtc(id: u64, side: Side, price: &str, size: &str) -> Order {
    limit(id, side, price, size, TimeInForceType::GoodTillCanceled)
}

fn book_with_asks() -> OrderBook {
    let mut book = OrderBook::new_order_book(&product());
    for (id, price) in [(1u64, "100"), (2, "100"), (3, "101")] {
        let logs = book.apply_order(&gtc(id, Side::SideSell, price, "1")).unwrap();
        assert_eq!(logs.len(), 1);
        assert!(matches!(logs[0], Log::Open(_)));
    }
    book
}

#[test]
fn simple_cross() {
    let mut book = OrderBook::new_order_book(&product());
    let logs = book.apply_order(&gtc(1, Side::SideSell, "100", "1")).unwrap();
    assert_eq!(logs.len(), 1);
    match &logs[0] {
        Log::Open(open) => {
            assert_eq!(open.order_id, 1);
            assert_eq!(open.base.sequence, 1);
            assert_eq!(open.base.product_id, "BTC-USD");
            assert!(same(open.remaining_size, "1"));
            assert!(same(open.price, "100"));
            assert_eq!(open.side, Side::SideSell);
        }
        other => panic!("expected an open event, got {:?}", other),
    }
    assert_eq!(book.ask_depths.len(), 1);

    let logs = book.apply_order(&gtc(2, Side::SideBuy, "100", "1")).unwrap();
    assert_eq!(logs.len(), 3);
    match &logs[0] {
        Log::Match(m) => {
            assert_eq!(m.taker_order_id, 2);
            assert_eq!(m.maker_order_id, 1);
            assert_eq!(m.taker_user_id, 102);
            assert_eq!(m.maker_user_id, 101);
            assert!(same(m.price, "100"));
            assert!(same(m.size, "1"));
            assert_eq!(m.trade_seq, 1);
            assert_eq!(m.base.sequence, 2);
            assert_eq!(m.side, Side::SideSell);
        }
        other => panic!("expected a match, got {:?}", other),
    }
    match &logs[1] {
        Log::Done(done) => {
            assert_eq!(done.order_id, 1);
            assert_eq!(done.reason, DoneReason::DoneReasonFilled);
            assert!(same(done.remaining_size, "0"));
            assert!(same(done.price, "100"));
            assert_eq!(done.base.sequence, 3);
        }
        other => panic!("expected the maker's done, got {:?}", other),
    }
    match &logs[2] {
        Log::Done(done) => {
            assert_eq!(done.order_id, 2);
            assert_eq!(done.reason, DoneReason::DoneReasonFilled);
            assert!(same(done.remaining_size, "0"));
            assert_eq!(done.base.sequence, 4);
        }
        other => panic!("expected the taker's done, got {:?}", other),
    }
    assert_eq!(book.ask_depths.len(), 0);
    assert_eq!(book.bid_depths.len(), 0);
    assert_eq!(book.log_seq, 4);
    assert_eq!(book.trade_seq, 1);
}

#[test]
fn price_time_priority() {
    let mut book = book_with_asks();
    let logs = book.apply_order(&gtc(10, Side::SideBuy, "101", "2")).unwrap();
    assert_eq!(logs.len(), 5);
    let mut makers = Vec::new();
    for log in &logs {
        if let Log::Match(m) = log {
            assert!(same(m.price, "100"));
            assert!(same(m.size, "1"));
            assert_eq!(m.taker_order_id, 10);
            makers.push(m.maker_order_id);
        }
    }
    assert_eq!(makers, vec![1, 2]);
    match logs.last().unwrap() {
        Log::Done(done) => {
            assert_eq!(done.order_id, 10);
            assert_eq!(done.reason, DoneReason::DoneReasonFilled);
            assert!(same(done.remaining_size, "0"));
        }
        other => panic!("expected the taker's done, got {:?}", other),
    }
    assert_eq!(book.ask_depths.len(), 1);
    assert_eq!(book.ask_depths.first().unwrap().order_id, 3);
}

fn engine_with_ask() -> Engine {
    let mut engine = Engine::new(&product(), None);
    let logs = engine.dispatch(&gtc(1, Side::SideSell, "100", "1")).unwrap();
    assert_eq!(logs.len(), 1);
    engine
}

#[test]
fn gtx_post_only_reject() {
    let mut engine = engine_with_ask();
    let order = limit(2, Side::SideBuy, "100", "1", TimeInForceType::GoodTillCrossing);
    assert!(!engine.order_book.is_order_will_not_match(&order));
    let logs = engine.dispatch(&order).unwrap();
    assert_eq!(logs.len(), 1);
    match &logs[0] {
        Log::Done(done) => {
            assert_eq!(done.order_id, 2);
            assert_eq!(done.reason, DoneReason::DoneReasonCancelled);
            assert!(same(done.remaining_size, "1"));
        }
        other => panic!("expected a done event, got {:?}", other),
    }
    assert_eq!(engine.order_book.ask_depths.len(), 1);
    assert!(same(engine.order_book.ask_depths.first().unwrap().size, "1"));
    assert_eq!(engine.order_book.bid_depths.len(), 0);
}

#[test]
fn gtx_rests_when_it_does_not_cross() {
    let mut engine = engine_with_ask();
    let order = limit(2, Side::SideBuy, "99", "1", TimeInForceType::GoodTillCrossing);
    assert!(engine.order_book.is_order_will_not_match(&order));
    let logs = engine.dispatch(&order).unwrap();
    assert_eq!(logs.len(), 1);
    assert!(matches!(logs[0], Log::Open(_)));
    assert_eq!(engine.order_book.bid_depths.len(), 1);
}

#[test]
fn ioc_leftover() {
    let mut engine = engine_with_ask();
    let order = limit(2, Side::SideBuy, "100", "3", TimeInForceType::ImmediateOrCancel);
    let logs = engine.dispatch(&order).unwrap();
    assert_eq!(logs.len(), 4);
    match &logs[0] {
        Log::Match(m) => {
            assert!(same(m.size, "1"));
            assert_eq!(m.maker_order_id, 1);
        }
        other => panic!("expected a match, got {:?}", other),
    }
    match &logs[1] {
        Log::Done(done) => {
            assert_eq!(done.order_id, 1);
            assert_eq!(done.reason, DoneReason::DoneReasonFilled);
        }
        other => panic!("expected the maker's done, got {:?}", other),
    }
    match &logs[2] {
        Log::Open(open) => {
            assert_eq!(open.order_id, 2);
            assert!(same(open.remaining_size, "2"));
        }
        other => panic!("expected the taker's open, got {:?}", other),
    }
    match &logs[3] {
        Log::Done(done) => {
            assert_eq!(done.order_id, 2);
            assert_eq!(done.reason, DoneReason::DoneReasonCancelled);
            assert!(same(done.remaining_size, "2"));
        }
        other => panic!("expected the taker's cancellation, got {:?}", other),
    }
    let seqs: Vec<u64> = logs.iter().map(|l| l.get_seq()).collect();
    assert_eq!(seqs, vec![2, 3, 4, 5]);
    assert_eq!(engine.order_book.ask_depths.len(), 0);
    assert_eq!(engine.order_book.bid_depths.len(), 0);
}

#[test]
fn fok_insufficient_liquidity() {
    let mut engine = engine_with_ask();
    let order = limit(3, Side::SideBuy, "100", "2", TimeInForceType::FillOrKill);
    assert_eq!(engine.order_book.is_order_will_full_match(&order), Ok(false));
    let logs = engine.dispatch(&order).unwrap();
    assert_eq!(logs.len(), 1);
    match &logs[0] {
        Log::Done(done) => {
            assert_eq!(done.order_id, 3);
            assert_eq!(done.reason, DoneReason::DoneReasonCancelled);
            assert!(same(done.remaining_size, "2"));
        }
        other => panic!("expected a done event, got {:?}", other),
    }
    assert_eq!(engine.order_book.ask_depths.len(), 1);
    assert!(same(engine.order_book.ask_depths.first().unwrap().size, "1"));
}

#[test]
fn fok_fills_when_liquidity_suffices() {
    let mut engine = engine_with_ask();
    let order = limit(3, Side::SideBuy, "100", "1", TimeInForceType::FillOrKill);
    assert_eq!(engine.order_book.is_order_will_full_match(&order), Ok(true));
    let logs = engine.dispatch(&order).unwrap();
    assert_eq!(logs.len(), 3);
    assert!(matches!(logs[0], Log::Match(_)));
    assert_eq!(engine.order_book.ask_depths.len(), 0);
}

#[test]
fn duplicate_id_is_ignored() {
    let mut book = OrderBook::new_order_book(&product());
    book.apply_order(&gtc(1, Side::SideSell, "100", "1")).unwrap();
    book.apply_order(&gtc(2, Side::SideBuy, "100", "1")).unwrap();
    let log_seq = book.log_seq;
    let trade_seq = book.trade_seq;
    let logs = book.apply_order(&gtc(2, Side::SideBuy, "100", "1")).unwrap();
    assert!(logs.is_empty());
    assert_eq!(book.log_seq, log_seq);
    assert_eq!(book.trade_seq, trade_seq);
    assert_eq!(book.ask_depths.len(), 0);
    assert_eq!(book.bid_depths.len(), 0);
}

#[test]
fn partial_fill_leaves_the_maker_without_a_done() {
    let mut book = OrderBook::new_order_book(&product());
    book.apply_order(&gtc(1, Side::SideSell, "100", "3")).unwrap();
    let logs = book.apply_order(&gtc(2, Side::SideBuy, "100", "1")).unwrap();
    assert_eq!(logs.len(), 2);
    assert!(matches!(logs[0], Log::Match(_)));
    match &logs[1] {
        Log::Done(done) => assert_eq!(done.order_id, 2),
        other => panic!("expected the taker's done, got {:?}", other),
    }
    let maker = book.ask_depths.get(1).unwrap();
    assert!(same(maker.size, "2"));
}

#[test]
fn events_and_trades_are_numbered_without_gaps() {
    let mut book = book_with_asks();
    let before = book.log_seq;
    assert_eq!(before, 3);
    let logs = book.apply_order(&gtc(10, Side::SideBuy, "101", "5")).unwrap();
    // three matches, three maker dones, one open for the rest of the taker
    assert_eq!(logs.len(), 7);
    assert_eq!(book.log_seq, before + logs.len() as u64);
    let mut trades = Vec::new();
    for (i, log) in logs.iter().enumerate() {
        assert_eq!(log.get_seq(), before + 1 + i as u64);
        if let Log::Match(m) = log {
            trades.push(m.trade_seq);
            assert_ne!(m.taker_order_id, m.maker_order_id);
            assert!(m.size.relation_to(dec("0")) == Relation::Greater);
        }
    }
    assert_eq!(trades, vec![1, 2, 3]);
    assert_eq!(book.trade_seq, 3);
    match logs.last().unwrap() {
        Log::Open(open) => {
            assert_eq!(open.order_id, 10);
            assert!(same(open.remaining_size, "2"));
        }
        other => panic!("expected the taker's open, got {:?}", other),
    }
    let more = book.apply_order(&gtc(11, Side::SideSell, "101", "1")).unwrap();
    match &more[0] {
        Log::Match(m) => {
            assert_eq!(m.trade_seq, 4);
            assert_eq!(m.maker_order_id, 10);
            assert!(same(m.price, "101"));
            assert_eq!(m.side, Side::SideBuy);
        }
        other => panic!("expected a match, got {:?}", other),
    }
}

#[test]
fn sides_are_kept_in_priority_order() {
    let mut book = OrderBook::new_order_book(&product());
    for (id, price) in [(5u64, "103"), (6, "101"), (7, "102"), (8, "101")] {
        book.apply_order(&gtc(id, Side::SideSell, price, "1")).unwrap();
    }
    for (id, price) in [(1u64, "98"), (2, "99"), (3, "97"), (4, "99")] {
        book.apply_order(&gtc(id, Side::SideBuy, price, "1")).unwrap();
    }
    let asks: Vec<u64> = book.ask_depths.orders().iter().map(|o| o.order_id).collect();
    let bids: Vec<u64> = book.bid_depths.orders().iter().map(|o| o.order_id).collect();
    assert_eq!(asks, vec![6, 8, 7, 5]);
    assert_eq!(bids, vec![2, 4, 1, 3]);
    for id in [5u64, 6, 7, 8] {
        assert_eq!(book.ask_depths.get(id).unwrap().order_id, id);
        assert!(book.bid_depths.get(id).is_none());
    }
    assert_eq!(book.ask_depths.nth(0).order_id, 6);
    assert_eq!(book.bid_depths.first().unwrap().order_id, 2);
}

#[test]
fn a_sell_trades_down_the_bids_from_the_highest() {
    let mut book = OrderBook::new_order_book(&product());
    for (id, price, size) in [(1u64, "99", "1"), (2, "101", "1"), (3, "100", "2"), (4, "101", "2")] {
        book.apply_order(&gtc(id, Side::SideBuy, price, size)).unwrap();
    }
    let logs = book.apply_order(&gtc(9, Side::SideSell, "100", "4.5")).unwrap();
    let trades: Vec<(u64, String)> = logs
        .iter()
        .filter_map(|l| match l {
            Log::Match(m) => Some((
                m.maker_order_id,
                rust_decimal::Decimal::from_i128_with_scale(m.price.mantissa(), m.price.scale())
                    .normalize()
                    .to_string(),
            )),
            _ => None,
        })
        .collect();
    assert_eq!(
        trades,
        vec![
            (2, "101".to_string()),
            (4, "101".to_string()),
            (3, "100".to_string())
        ]
    );
    // 1 + 2 + 1.5 traded; the bid at 100 keeps 0.5 and nothing of the taker is left
    assert_eq!(logs.len(), 6);
    match logs.last().unwrap() {
        Log::Done(done) => {
            assert_eq!(done.order_id, 9);
            assert_eq!(done.reason, DoneReason::DoneReasonFilled);
        }
        other => panic!("expected the taker's done, got {:?}", other),
    }
    assert!(same(book.bid_depths.get(3).unwrap().size, "0.5"));
    assert_eq!(book.bid_depths.len(), 2);
    assert_eq!(book.bid_depths.first().unwrap().order_id, 3);
    assert_eq!(book.ask_depths.len(), 0);
}

#[test]
fn a_taker_that_crosses_in_part_rests_with_what_is_left() {
    let mut book = book_with_asks();
    let logs = book.apply_order(&gtc(10, Side::SideBuy, "100", "5")).unwrap();
    // the asks at 100 trade, the one at 101 does not
    assert_eq!(logs.len(), 5);
    match logs.last().unwrap() {
        Log::Open(open) => {
            assert_eq!(open.order_id, 10);
            assert!(same(open.remaining_size, "3"));
            assert!(same(open.price, "100"));
            assert_eq!(open.side, Side::SideBuy);
        }
        other => panic!("expected the taker's open, got {:?}", other),
    }
    assert_eq!(book.ask_depths.first().unwrap().order_id, 3);
    assert_eq!(book.bid_depths.first().unwrap().order_id, 10);
    assert!(same(book.bid_depths.first().unwrap().size, "3"));
}

#[test]
fn ioc_that_fills_leaves_nothing_to_cancel() {
    let mut engine = engine_with_ask();
    let order = limit(2, Side::SideBuy, "100", "1", TimeInForceType::ImmediateOrCancel);
    let logs = engine.dispatch(&order).unwrap();
    assert_eq!(logs.len(), 3);
    assert!(matches!(&logs[2], Log::Done(d) if d.order_id == 2
        && d.reason == DoneReason::DoneReasonFilled));
    assert_eq!(engine.order_book.log_seq, 4);
}

#[test]
fn a_cancellation_is_a_cancellation_whatever_its_time_in_force() {
    let mut engine = engine_with_ask();
    let mut cancel = limit(1, Side::SideSell, "100", "1", TimeInForceType::GoodTillCrossing);
    cancel.status = OrderStatus::OrderStatusCancelling;
    let logs = engine.dispatch(&cancel).unwrap();
    assert_eq!(logs.len(), 1);
    assert!(matches!(&logs[0], Log::Done(d) if d.order_id == 1
        && d.reason == DoneReason::DoneReasonCancelled));
    assert_eq!(engine.order_book.ask_depths.len(), 0);
    // a second cancellation finds nothing
    assert!(engine.dispatch(&cancel).unwrap().is_empty());
}

#[test]
fn a_market_order_that_fills_nothing_is_done_at_once() {
    let mut engine = Engine::new(&product(), None);
    let mut order = limit(1, Side::SideSell, "0", "2", TimeInForceType::FillOrKill);
    order.order_type = OrderType::OrderTypeMarket;
    let logs = engine.dispatch(&order).unwrap();
    assert_eq!(logs.len(), 1);
    match &logs[0] {
        Log::Done(done) => {
            assert_eq!(done.reason, DoneReason::DoneReasonCancelled);
            assert!(same(done.remaining_size, "0"));
            assert!(same(done.price, "0"));
        }
        other => panic!("expected a done event, got {:?}", other),
    }
    assert_eq!(engine.order_book.ask_depths.len(), 0);
}

#[test]
fn a_partly_filled_order_is_restored_with_what_is_left() {
    let mut book = OrderBook::new_order_book(&product());
    book.apply_order(&gtc(1, Side::SideSell, "100", "3")).unwrap();
    book.apply_order(&gtc(2, Side::SideBuy, "100", "1.25")).unwrap();
    let snap = book.snapshot();
    assert!(snap.is_restorable());
    let mut restored = OrderBook::new_order_book(&product());
    restored.restore(&snap);
    assert!(same(restored.ask_depths.get(1).unwrap().size, "1.75"));
    assert_eq!(restored.trade_seq, 1);
    assert_eq!(restored.log_seq, 3);
    // the ids that the saved book had seen are still turned away
    assert!(restored.apply_order(&gtc(2, Side::SideBuy, "100", "1")).unwrap().is_empty());
}
