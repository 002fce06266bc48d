use std::str::FromStr;

use matching_engine::matching::crossing::{compute_step, dry_run, match_against, places_of, Step};
use matching_engine::matching::depth::Depth;
use matching_engine::matching::engine::{
    ApplierAction, ApplierEvent, Committer, CommitterAction, CommitterEvent, Engine, FetchStart,
    OffsetOrder, SeekAction, SeekEvent, Snapshot, SnapshotterEvent, COMMIT_BATCH_EXTRA,
    LOG_QUEUE_CAPACITY,
    ORDER_QUEUE_CAPACITY, SNAPSHOT_INTERVAL_SECS, SNAPSHOT_MIN_ORDERS, SNAPSHOT_QUEUE_CAPACITY,
};
use matching_engine::matching::log::Log;
use matching_engine::matching::order_book::{new_taker, BookOrder, OrderBook};
use matching_engine::matching::ordering::PriceOrderIdKeyAsc;
use matching_engine::models::decimal::{Decimal, Relation};
use matching_engine::models::models::{Order, Product};
use matching_engine::models::types::{DoneReason, OrderStatus, OrderType, Side, TimeInForceType};

fn dec(text: &str) -> Decimal {
    let d = rust_decimal::Decimal::from_str(text).unwrap();
    Decimal::new(d.mantissa(), d.scale()).unwrap()
}

fn same(a: Decimal, text: &str) -> bool {
    a.relation_to(dec(text)) == Relation::Equal
}

fn product() -> Product {
    Product {
        id: "BTC-USD".to_string(),
        base_currency: "BTC".to_string(),
        quote_currency: "USD".to_string(),
        base_scale: 4,
        quote_scale: 2,
    }
}

fn limit(id: u64, side: Side, price: &str, size: &str) -> Order {
    Order {
        id,
        created_at: 0,
        product_id: "BTC-USD".to_string(),
        user_id: 1,
        client_oid: String::new(),
        price: dec(price),
        size: dec(size),
        funds: dec("0"),
        order_type: OrderType::OrderTypeLimit,
        side,
        time_in_force: TimeInForceType::GoodTillCanceled,
        status: OrderStatus::OrderStatusNew,
    }
}

fn snapshot_at(log_seq: u64, offset: u64) -> Snapshot {
    let mut book = OrderBook::new_order_book(&product()).snapshot();
    book.log_seq = log_seq;
    Snapshot { order_book_snapshot: Some(book), order_offset: offset }
}

#[test]
fn queues_and_cadence_are_as_agreed() {
    assert_eq!(ORDER_QUEUE_CAPACITY, 10000);
    assert_eq!(LOG_QUEUE_CAPACITY, 10000);
    assert_eq!(SNAPSHOT_QUEUE_CAPACITY, 32);
    assert_eq!(SNAPSHOT_MIN_ORDERS, 1000);
    assert_eq!(COMMIT_BATCH_EXTRA, 100);
    assert_eq!(SNAPSHOT_INTERVAL_SECS, 30);
}

#[test]
fn fetcher_starts_behind_the_last_order_applied() {
    assert_eq!(Engine::run_fetcher(0), FetchStart::Beginning);
    assert_eq!(Engine::run_fetcher(1), FetchStart::Offset(2));
    assert_eq!(Engine::run_fetcher(41), FetchStart::Offset(42));
    let forwarded = Engine::fetched(17, Some(limit(3, Side::SideBuy, "1", "1"))).unwrap();
    assert_eq!(forwarded.offset, 17);
    assert_eq!(forwarded.order.id, 3);
    assert!(Engine::fetched(17, None).is_none());
}

#[test]
fn applier_dispatches_orders_and_records_their_offset() {
    let mut engine = Engine::new(&product(), None);
    assert_eq!(engine.product_id, "BTC-USD");
    assert_eq!(engine.order_offset, 0);
    let mut offset = 0u64;
    let event = ApplierEvent::Order(OffsetOrder {
        offset: 12,
        order: limit(1, Side::SideSell, "100", "1"),
    });
    match engine.run_applier(&mut offset, event).unwrap() {
        ApplierAction::Emit(logs) => {
            assert_eq!(logs.len(), 1);
            assert!(matches!(logs[0], Log::Open(_)));
        }
        _ => panic!("expected events"),
    }
    assert_eq!(offset, 12);
    let mut cancel = limit(1, Side::SideSell, "100", "1");
    cancel.status = OrderStatus::OrderStatusCancelling;
    cancel.time_in_force = TimeInForceType::FillOrKill;
    let event = ApplierEvent::Order(OffsetOrder { offset: 13, order: cancel });
    match engine.run_applier(&mut offset, event).unwrap() {
        ApplierAction::Emit(logs) => {
            assert_eq!(logs.len(), 1);
            match &logs[0] {
                Log::Done(done) => assert_eq!(done.reason, DoneReason::DoneReasonCancelled),
                other => panic!("expected a done event, got {:?}", other),
            }
        }
        _ => panic!("expected events"),
    }
    assert_eq!(offset, 13);
    assert_eq!(engine.order_book.ask_depths.len(), 0);
}

#[test]
fn applier_takes_a_snapshot_only_after_enough_orders() {
    let mut engine = Engine::new(&product(), None);
    engine.dispatch(&limit(1, Side::SideSell, "100", "1")).unwrap();
    let request = |offset: u64| {
        ApplierEvent::SnapshotRequest(Snapshot { order_book_snapshot: None, order_offset: offset })
    };
    let mut offset = 2000u64;
    assert!(matches!(
        engine.run_applier(&mut offset, request(1000)).unwrap(),
        ApplierAction::Drop
    ));
    assert!(matches!(
        engine.run_applier(&mut offset, request(2000)).unwrap(),
        ApplierAction::Drop
    ));
    assert!(matches!(
        engine.run_applier(&mut offset, request(5000)).unwrap(),
        ApplierAction::Drop
    ));
    match engine.run_applier(&mut offset, request(999)).unwrap() {
        ApplierAction::Approve(snapshot) => {
            assert_eq!(snapshot.order_offset, 2000);
            let book = snapshot.order_book_snapshot.unwrap();
            assert_eq!(book.log_seq, 1);
            assert_eq!(book.orders.len(), 1);
            assert_eq!(book.product_id, "BTC-USD");
        }
        _ => panic!("expected a snapshot for approval"),
    }
    assert_eq!(offset, 2000);
}

#[test]
fn committer_discards_what_it_has_taken_already() {
    let mut state = Committer::new(10);
    assert!(matches!(
        Engine::run_committer(&mut state, CommitterEvent::Log(10)),
        CommitterAction::Discard
    ));
    assert!(matches!(
        Engine::run_committer(&mut state, CommitterEvent::Log(3)),
        CommitterAction::Discard
    ));
    assert_eq!(state.seq, 10);
    assert!(matches!(
        Engine::run_committer(&mut state, CommitterEvent::Log(11)),
        CommitterAction::Collect
    ));
    assert_eq!(state.seq, 11);
    assert!(matches!(
        Engine::run_committer(&mut state, CommitterEvent::More(12)),
        CommitterAction::Collect
    ));
    assert_eq!(state.seq, 12);
    assert!(matches!(
        Engine::run_committer(&mut state, CommitterEvent::Stored),
        CommitterAction::Idle
    ));
}

#[test]
fn committer_holds_a_snapshot_until_its_events_are_stored() {
    let mut state = Committer::new(10);
    assert!(matches!(
        Engine::run_committer(&mut state, CommitterEvent::Approval(snapshot_at(12, 70))),
        CommitterAction::Hold
    ));
    assert_eq!(state.pending.as_ref().unwrap().order_offset, 70);
    // a later request takes the place of the one that is kept
    assert!(matches!(
        Engine::run_committer(&mut state, CommitterEvent::Approval(snapshot_at(13, 80))),
        CommitterAction::Hold
    ));
    assert_eq!(state.pending.as_ref().unwrap().order_offset, 80);
    Engine::run_committer(&mut state, CommitterEvent::Log(12));
    assert!(matches!(
        Engine::run_committer(&mut state, CommitterEvent::Stored),
        CommitterAction::Idle
    ));
    Engine::run_committer(&mut state, CommitterEvent::Log(13));
    match Engine::run_committer(&mut state, CommitterEvent::Stored) {
        CommitterAction::Forward(snapshot) => {
            assert_eq!(snapshot.order_offset, 80);
            assert_eq!(snapshot.order_book_snapshot.unwrap().log_seq, 13);
        }
        _ => panic!("expected the kept snapshot to go forward"),
    }
    assert!(state.pending.is_some());
    assert!(matches!(
        Engine::run_committer(&mut state, CommitterEvent::Forwarded),
        CommitterAction::Idle
    ));
    assert!(state.pending.is_none());
    assert_eq!(state.seq, 13);
}

#[test]
fn committer_forwards_at_once_what_is_stored_already() {
    let mut state = Committer::new(10);
    match Engine::run_committer(&mut state, CommitterEvent::Approval(snapshot_at(10, 5))) {
        CommitterAction::Forward(snapshot) => assert_eq!(snapshot.order_offset, 5),
        _ => panic!("expected the snapshot to go forward"),
    }
    assert!(state.pending.is_none());
    let copy = snapshot_at(4, 9).duplicate();
    assert_eq!(copy.order_offset, 9);
    assert_eq!(copy.order_book_snapshot.unwrap().log_seq, 4);
}

#[test]
fn snapshotter_names_the_offset_last_stored() {
    let mut offset = 7u64;
    let request = Engine::run_snapshots(&mut offset, SnapshotterEvent::Tick).unwrap();
    assert!(request.order_book_snapshot.is_none());
    assert_eq!(request.order_offset, 7);
    assert_eq!(offset, 7);
    assert!(Engine::run_snapshots(&mut offset, SnapshotterEvent::Stored(1500)).is_none());
    assert_eq!(offset, 1500);
    let request = Engine::run_snapshots(&mut offset, SnapshotterEvent::Tick).unwrap();
    assert_eq!(request.order_offset, 1500);
}

#[test]
fn engine_starts_from_the_latest_snapshot() {
    let mut first = Engine::new(&product(), None);
    first.dispatch(&limit(1, Side::SideSell, "100", "1")).unwrap();
    first.dispatch(&limit(2, Side::SideBuy, "90", "2")).unwrap();
    let snapshot =
        Snapshot { order_book_snapshot: Some(first.order_book.snapshot()), order_offset: 2 };
    assert!(snapshot.order_book_snapshot.as_ref().unwrap().is_restorable());
    let second = Engine::new(&product(), Some(&snapshot));
    assert_eq!(second.order_offset, 2);
    assert_eq!(second.order_book.log_seq, 2);
    assert_eq!(second.order_book.ask_depths.first().unwrap().order_id, 1);
    assert_eq!(second.order_book.bid_depths.first().unwrap().order_id, 2);
    let mut third = Engine::new(&product(), None);
    third.restore(&snapshot);
    assert_eq!(third.order_offset, 2);
    assert_eq!(third.order_book.bid_depths.len(), 1);
}

#[test]
fn a_step_trades_the_smaller_size() {
    let maker = BookOrder::new_book_order(&limit(1, Side::SideSell, "10", "2"));
    let taker = new_taker(&limit(2, Side::SideBuy, "10", "5"));
    match compute_step(&taker, &maker, 4) {
        Step::Trade { size, taker: left } => {
            assert!(same(size, "2"));
            assert!(same(left.size, "3"));
            assert_eq!(left.order_id, 2);
        }
        _ => panic!("expected a trade"),
    }
    let poor = new_taker(&limit(3, Side::SideBuy, "9.99", "5"));
    assert!(matches!(compute_step(&poor, &maker, 4), Step::Stop));
    let spent = new_taker(&limit(4, Side::SideBuy, "10", "0"));
    assert!(matches!(compute_step(&spent, &maker, 4), Step::Stop));
    let mut market = limit(5, Side::SideBuy, "0", "0");
    market.order_type = OrderType::OrderTypeMarket;
    market.funds = dec("15");
    match compute_step(&new_taker(&market), &maker, 4) {
        Step::Trade { size, taker: left } => {
            assert!(same(size, "1.5"));
            assert!(same(left.funds, "0"));
        }
        _ => panic!("expected a trade"),
    }
    market.funds = dec("0.0009");
    assert!(matches!(compute_step(&new_taker(&market), &maker, 4), Step::Stop));
    market.funds = dec("0.001");
    match compute_step(&new_taker(&market), &maker, 4) {
        Step::Trade { size, .. } => assert!(same(size, "0.0001")),
        _ => panic!("expected a trade"),
    }
    let free = BookOrder::new_book_order(&limit(6, Side::SideSell, "0", "2"));
    assert!(matches!(compute_step(&new_taker(&market), &free, 4), Step::Fail));
    assert_eq!(places_of(4), 4);
    assert_eq!(places_of(0), 0);
    assert_eq!(places_of(-1), u32::MAX);
}

#[test]
fn a_walk_goes_through_the_side_in_order() {
    let mut depth: Depth<PriceOrderIdKeyAsc> = Depth::new();
    for (id, price, size) in [(1u64, "10", "1"), (2, "11", "2"), (3, "12", "3")] {
        depth.add(&BookOrder::new_book_order(&limit(id, Side::SideSell, price, size)));
    }
    let taker = new_taker(&limit(9, Side::SideBuy, "11", "2.5"));
    let left = dry_run(&depth, taker, 4).unwrap();
    assert!(same(left.size, "0"));
    assert_eq!(depth.len(), 3);

    let mut walking = taker;
    let mut log_seq = 20u64;
    let mut trade_seq = 5u64;
    let mut logs = Vec::new();
    let done = match_against(
        &mut depth,
        &mut walking,
        "BTC-USD",
        4,
        &mut log_seq,
        &mut trade_seq,
        &mut logs,
    );
    assert_eq!(done, Ok(()));
    assert!(same(walking.size, "0"));
    assert_eq!(logs.len(), 3);
    assert_eq!((log_seq, trade_seq), (23, 7));
    assert!(matches!(&logs[0], Log::Match(m) if m.maker_order_id == 1 && m.trade_seq == 6));
    assert!(matches!(&logs[1], Log::Done(d) if d.order_id == 1));
    assert!(matches!(&logs[2], Log::Match(m) if m.maker_order_id == 2 && m.trade_seq == 7));
    assert_eq!(depth.len(), 2);
    assert!(same(depth.get(2).unwrap().size, "0.5"));
}

#[test]
fn reader_waits_until_it_holds_partitions() {
    assert_eq!(Engine::seek_step(SeekEvent::Assigned(0)), SeekAction::Poll);
    assert_eq!(Engine::seek_step(SeekEvent::Assigned(1)), SeekAction::Seek);
    assert_eq!(Engine::seek_step(SeekEvent::Assigned(12)), SeekAction::Seek);
    assert_eq!(Engine::seek_step(SeekEvent::Received), SeekAction::Retry);
    assert_eq!(Engine::seek_step(SeekEvent::TimedOut), SeekAction::Retry);
    assert_eq!(Engine::seek_step(SeekEvent::UnknownTopicOrPartition), SeekAction::Retry);
    assert_eq!(Engine::seek_step(SeekEvent::Failed), SeekAction::Fail);
}
