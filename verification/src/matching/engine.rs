//! The engine around the book: how an arriving order is dispatched by its
//! time in force, and what the tasks that feed the book, commit its events
//! and save its snapshots decide at each step. The tasks themselves, which
//! wait on queues, logs and stores, are run by the program around this
//! library; it hands each event to the functions here and carries out the
//! action that they return.

use crate::matching::log::{events_of, Event, Log};
use crate::matching::order_book::{
    gave, Applied, BookError, BookOrder, BookState, OrderBook, OrderBookSnapshot,
    ORDER_ID_WINDOW_CAP,
};
use crate::matching::laws::{lemma_apply_numbers, lemma_dispatch_numbers, numbered};
use crate::models::models::{Order, Product};
use crate::models::types::{OrderStatus, TimeInForceType};
use vstd::prelude::*;

verus! {

/// Orders waiting between the fetcher and the applier.
pub const ORDER_QUEUE_CAPACITY: usize = 10000;

/// Events waiting between the applier and the committer.
pub const LOG_QUEUE_CAPACITY: usize = 10000;

/// Snapshots waiting on any of the three queues that carry them.
pub const SNAPSHOT_QUEUE_CAPACITY: usize = 32;

/// A snapshot is taken only when more orders than this have been applied
/// since the one before.
pub const SNAPSHOT_MIN_ORDERS: u64 = 1000;

/// Events that the committer adds to a batch beyond the first.
pub const COMMIT_BATCH_EXTRA: usize = 100;

/// Seconds between two requests for a snapshot.
pub const SNAPSHOT_INTERVAL_SECS: u64 = 30;

/// A snapshot of the book with the offset of the last order that it
/// reflects. A request for a snapshot has no book yet.
#[derive(Debug, Clone)]
pub struct Snapshot {
    pub order_book_snapshot: Option<OrderBookSnapshot>,
    pub order_offset: u64,
}

/// An order with its offset in the log that it came from.
#[derive(Debug, Clone)]
pub struct OffsetOrder {
    pub offset: u64,
    pub order: Order,
}

/// The engine of one product: its book, and the offset of the last order
/// that the book reflected when it was restored.
pub struct Engine {
    pub product_id: String,
    pub order_book: OrderBook,
    pub order_offset: u64,
}

impl Snapshot {
    /// The event sequence at which the snapshot was taken.
    pub open spec fn log_seq(&self) -> u64 {
        self.order_book_snapshot->Some_0.log_seq
    }

    /// The two hold the same.
    pub open spec fn same_as(&self, other: Snapshot) -> bool {
        &&& self.order_offset == other.order_offset
        &&& match (self.order_book_snapshot, other.order_book_snapshot) {
            (Some(a), Some(b)) => a@ == b@,
            (None, None) => true,
            _ => false,
        }
    }

    /// A snapshot that holds the same.
    pub fn duplicate(&self) -> (s: Self)
        ensures
            s.same_as(*self),
    {
        Snapshot {
            order_book_snapshot: match &self.order_book_snapshot {
                Some(b) => Some(b.duplicate()),
                None => None,
            },
            order_offset: self.order_offset,
        }
    }
}

impl BookState {
    /// The one event of a nullified order, as the outcome of a call.
    pub open spec fn nullified(self, product_id: Seq<char>, order: Order) -> Applied {
        Applied {
            book: self.nullify(product_id, order).0,
            outcome: Ok(seq![self.nullify(product_id, order).1]),
        }
    }

    /// An order is applied and what may have opened of it is cancelled at
    /// once: the events of the cancellation follow those of the arrival.
    pub open spec fn apply_then_cancel(
        self,
        product_id: Seq<char>,
        base_scale: i32,
        order: Order,
    ) -> Applied {
        let applied = self.apply(product_id, base_scale, order);
        match applied.outcome {
            Err(_) => applied,
            Ok(events) => {
                let cancelled = applied.book.cancel(product_id, order);
                match cancelled.outcome {
                    Err(_) => cancelled,
                    Ok(more) => Applied { book: cancelled.book, outcome: Ok(events + more) },
                }
            },
        }
    }

    /// What the applier does with an order.
    ///
    /// An order that is being cancelled is cancelled. Any other order goes by
    /// its time in force. Good till cancelled: it is applied. Immediate or
    /// cancel: it is applied and then cancelled. Good till crossing: it is
    /// applied if it would not trade on arrival, and nullified otherwise.
    /// Fill or kill: it is applied if it would be filled in full, and
    /// nullified otherwise.
    pub open spec fn dispatch(self, product_id: Seq<char>, base_scale: i32, order: Order) -> Applied {
        if order.status == OrderStatus::OrderStatusCancelling {
            self.cancel(product_id, order)
        } else {
            match order.time_in_force {
                TimeInForceType::GoodTillCanceled => self.apply(product_id, base_scale, order),
                TimeInForceType::ImmediateOrCancel => self.apply_then_cancel(
                    product_id,
                    base_scale,
                    order,
                ),
                TimeInForceType::GoodTillCrossing => if OrderBook::will_not_match(self, order) {
                    self.apply(product_id, base_scale, order)
                } else {
                    self.nullified(product_id, order)
                },
                TimeInForceType::FillOrKill => match self.will_full_match(base_scale, order) {
                    None => Applied { book: self, outcome: Err(BookError::Arithmetic) },
                    Some(true) => self.apply(product_id, base_scale, order),
                    Some(false) => self.nullified(product_id, order),
                },
            }
        }
    }
}

/// Where the fetcher starts to read.
#[derive(Clone, Copy, Debug, PartialEq, Eq, Structural)]
pub enum FetchStart {
    /// At the beginning of the log.
    Beginning,
    /// At the given offset.
    Offset(i64),
}

/// What the reader of orders learns while it waits to be given the
/// partitions of its log.
#[derive(Clone, Copy, Debug, PartialEq, Eq, Structural)]
pub enum SeekEvent {
    /// The reader holds this many partitions.
    Assigned(usize),
    /// A message arrived while it held none.
    Received,
    /// No message arrived within the time it waited.
    TimedOut,
    /// The log does not exist yet, or not this partition of it.
    UnknownTopicOrPartition,
    /// Reading failed for another reason.
    Failed,
}

/// What the reader then does.
#[derive(Clone, Copy, Debug, PartialEq, Eq, Structural)]
pub enum SeekAction {
    /// It waits a second for a message and looks again.
    Poll,
    /// It looks again at once.
    Retry,
    /// It moves every partition to the offset to start at.
    Seek,
    /// It gives up.
    Fail,
}

/// What reaches the applier.
pub enum ApplierEvent {
    /// The next order.
    Order(OffsetOrder),
    /// A request for a snapshot, with the offset of the snapshot before.
    SnapshotRequest(Snapshot),
}

/// What the applier then does.
pub enum ApplierAction {
    /// It sends the events to the committer, in this order.
    Emit(Vec<Log>),
    /// It sends the snapshot to the committer for approval.
    Approve(Snapshot),
    /// It drops the request.
    Drop,
}

/// What the committer keeps between events: the sequence of the last event
/// that it took, and the snapshot that waits for its events to be stored.
pub struct Committer {
    pub seq: u64,
    pub pending: Option<Snapshot>,
}

/// What reaches the committer.
pub enum CommitterEvent {
    /// An event with this sequence arrived while the committer was idle.
    Log(u64),
    /// Another event with this sequence was waiting behind it.
    More(u64),
    /// The batch of events has been stored.
    Stored,
    /// A snapshot arrived for approval.
    Approval(Snapshot),
    /// The snapshot last handed out has been sent on.
    Forwarded,
}

/// What the committer then does.
pub enum CommitterAction {
    /// It adds the event to the batch.
    Collect,
    /// It throws the event away: one with this sequence or a later one has
    /// been taken already.
    Discard,
    /// It sends the snapshot to the snapshotter.
    Forward(Snapshot),
    /// It keeps the snapshot until its events are stored; a snapshot that it
    /// kept before is given up.
    Hold,
    /// Nothing.
    Idle,
}

/// What reaches the snapshotter.
pub enum SnapshotterEvent {
    /// The interval has passed.
    Tick,
    /// The snapshot with this offset has been stored.
    Stored(u64),
}

impl Committer {
    /// A committer that has taken the events up to `log_seq` and keeps no
    /// snapshot.
    pub fn new(log_seq: u64) -> (c: Self)
        ensures
            c.seq == log_seq,
            c.pending is None,
    {
        Committer { seq: log_seq, pending: None }
    }

    /// The snapshot that is kept has a book.
    pub open spec fn wf(&self) -> bool {
        self.pending matches Some(p) ==> p.order_book_snapshot is Some
    }

    /// The kept snapshot may go on: every event up to its sequence is stored.
    pub open spec fn due(&self) -> bool {
        self.pending matches Some(p) && self.seq >= p.log_seq()
    }
}

impl Engine {
    /// The engine for `product`, restored from the latest snapshot if there
    /// is one.
    pub fn new(product: &Product, latest: Option<&Snapshot>) -> (engine: Self)
        requires
            latest matches Some(s) ==> s.order_book_snapshot matches Some(b) && b@.restorable(),
        ensures
            engine.order_book.wf(),
            engine.product_id@ == product.id@,
            engine.order_book.product == *product,
            match latest {
                None => {
                    &&& engine.order_offset == 0
                    &&& engine.order_book@.resting() == 0
                    &&& engine.order_book@.log_seq == 0
                    &&& engine.order_book@.trade_seq == 0
                    &&& engine.order_book@.window.cap == ORDER_ID_WINDOW_CAP
                    &&& engine.order_book@.window.min == 0
                    &&& engine.order_book@.window.max == ORDER_ID_WINDOW_CAP
                    &&& forall|k: int|
                        0 <= k < engine.order_book@.window.bits.len()
                            ==> !engine.order_book@.window.bits[k]
                },
                Some(s) => engine.order_offset == s.order_offset && engine.order_book@ == (
                BookState {
                    asks: Seq::empty(),
                    bids: Seq::empty(),
                    trade_seq: 0,
                    log_seq: 0,
                    window: s.order_book_snapshot->Some_0@.window,
                }).restore(s.order_book_snapshot->Some_0@),
            },
    {
        let mut engine = Engine {
            product_id: product.id.clone(),
            order_book: OrderBook::new_order_book(product),
            order_offset: 0,
        };
        match latest {
            Some(snapshot) => {
                assert(engine.order_book@.asks =~= Seq::<BookOrder>::empty());
                assert(engine.order_book@.bids =~= Seq::<BookOrder>::empty());
                engine.restore(snapshot);
            },
            None => {},
        }
        engine
    }

    /// Takes the offset and the book from `snapshot`.
    pub fn restore(&mut self, snapshot: &Snapshot)
        requires
            old(self).order_book.ask_depths.wf(),
            old(self).order_book.bid_depths.wf(),
            snapshot.order_book_snapshot matches Some(b) && old(self).order_book@.takes(b@),
        ensures
            final(self).order_book.wf(),
            final(self).order_book.product == old(self).order_book.product,
            final(self).product_id == old(self).product_id,
            final(self).order_offset == snapshot.order_offset,
            final(self).order_book@ == old(self).order_book@.restore(
                snapshot.order_book_snapshot->Some_0@,
            ),
    {
        self.order_offset = snapshot.order_offset;
        match &snapshot.order_book_snapshot {
            Some(book) => {
                self.order_book.restore(book);
            },
            None => {},
        }
    }

    /// Where the fetcher starts to read: at the beginning if no order has
    /// been applied yet, else behind the last one applied.
    pub fn run_fetcher(order_offset: u64) -> (start: FetchStart)
        requires
            order_offset < i64::MAX,
        ensures
            start == if order_offset == 0 {
                FetchStart::Beginning
            } else {
                FetchStart::Offset((order_offset + 1) as i64)
            },
    {
        if order_offset == 0 {
            FetchStart::Beginning
        } else {
            FetchStart::Offset(order_offset as i64 + 1)
        }
    }

    /// One step of moving the reader of orders to where it starts. While it
    /// holds no partition it waits for a message; whether one arrives, none
    /// does, or the log is not there yet, it looks again. Once it holds
    /// partitions it moves them. Any other failure ends the attempt.
    pub fn seek_step(event: SeekEvent) -> (action: SeekAction)
        ensures
            action == match event {
                SeekEvent::Assigned(partitions) => if partitions == 0 {
                    SeekAction::Poll
                } else {
                    SeekAction::Seek
                },
                SeekEvent::Received => SeekAction::Retry,
                SeekEvent::TimedOut => SeekAction::Retry,
                SeekEvent::UnknownTopicOrPartition => SeekAction::Retry,
                SeekEvent::Failed => SeekAction::Fail,
            },
    {
        match event {
            SeekEvent::Assigned(partitions) => if partitions == 0 {
                SeekAction::Poll
            } else {
                SeekAction::Seek
            },
            SeekEvent::Received | SeekEvent::TimedOut | SeekEvent::UnknownTopicOrPartition => {
                SeekAction::Retry
            },
            SeekEvent::Failed => SeekAction::Fail,
        }
    }

    /// What the fetcher hands to the applier for a message that it read: the
    /// order with its offset, or nothing where the message held no order.
    pub fn fetched(offset: u64, order: Option<Order>) -> (r: Option<OffsetOrder>)
        ensures
            match order {
                Some(o) => {
                    &&& r matches Some(f)
                    &&& f.offset == offset
                    &&& f.order == o
                },
                None => r is None,
            },
    {
        match order {
            Some(order) => Some(OffsetOrder { offset, order }),
            None => None,
        }
    }

    /// Dispatches `order` on the book by its status and its time in force,
    /// see [`BookState::dispatch`].
    pub fn dispatch(&mut self, order: &Order) -> (r: Result<Vec<Log>, BookError>)
        requires
            old(self).order_book.wf(),
            old(self).order_book@.has_room(),
        ensures
            final(self).order_book.wf(),
            final(self).order_book.product == old(self).order_book.product,
            final(self).product_id == old(self).product_id,
            final(self).order_offset == old(self).order_offset,
            final(self).order_book@ == old(self).order_book@.dispatch(
                old(self).order_book.product.id@,
                old(self).order_book.product.base_scale,
                *order,
            ).book,
            gave(
                old(self).order_book@.dispatch(
                    old(self).order_book.product.id@,
                    old(self).order_book.product.base_scale,
                    *order,
                ).outcome,
                r,
            ),
            r matches Ok(logs) ==> numbered(
                old(self).order_book@,
                final(self).order_book@,
                events_of(logs@),
            ),
    {
        proof {
            lemma_dispatch_numbers(
                self.order_book@,
                self.order_book.product.id@,
                self.order_book.product.base_scale,
                *order,
            );
        }
        match order.status {
            OrderStatus::OrderStatusCancelling => {
                return self.order_book.cancel_order(order);
            },
            _ => {},
        }
        match order.time_in_force {
            TimeInForceType::GoodTillCanceled => self.order_book.apply_order(order),
            TimeInForceType::ImmediateOrCancel => {
                let ghost before = self.order_book@;
                let mut logs = match self.order_book.apply_order(order) {
                    Err(e) => {
                        return Err(e);
                    },
                    Ok(logs) => logs,
                };
                proof {
                    lemma_apply_numbers(
                        before,
                        self.order_book.product.id@,
                        self.order_book.product.base_scale,
                        *order,
                    );
                }
                let ghost first = logs@;
                let mut more = match self.order_book.cancel_order(order) {
                    Err(e) => {
                        return Err(e);
                    },
                    Ok(more) => more,
                };
                let ghost second = more@;
                logs.append(&mut more);
                proof {
                    assert(events_of(logs@) =~= events_of(first) + events_of(second));
                }
                Ok(logs)
            },
            TimeInForceType::GoodTillCrossing => {
                if self.order_book.is_order_will_not_match(order) {
                    self.order_book.apply_order(order)
                } else {
                    Ok(self.order_book.nullify_order(order))
                }
            },
            TimeInForceType::FillOrKill => {
                match self.order_book.is_order_will_full_match(order) {
                    Err(e) => Err(e),
                    Ok(true) => self.order_book.apply_order(order),
                    Ok(false) => Ok(self.order_book.nullify_order(order)),
                }
            },
        }
    }

    /// One step of the applier. An order is dispatched, see
    /// [`Engine::dispatch`]; its events are to be emitted, and its offset
    /// becomes the applier's. A request for a snapshot is dropped unless more
    /// than [`SNAPSHOT_MIN_ORDERS`] orders have been applied since the offset
    /// that it names; otherwise it is filled with a snapshot of the book and
    /// the applier's offset, and goes on for approval.
    pub fn run_applier(&mut self, applier_offset: &mut u64, event: ApplierEvent) -> (r: Result<
        ApplierAction,
        BookError,
    >)
        requires
            old(self).order_book.wf(),
            old(self).order_book@.has_room(),
        ensures
            final(self).order_book.wf(),
            final(self).order_book.product == old(self).order_book.product,
            match event {
                ApplierEvent::Order(offset_order) => {
                    let applied = old(self).order_book@.dispatch(
                        old(self).order_book.product.id@,
                        old(self).order_book.product.base_scale,
                        offset_order.order,
                    );
                    &&& final(self).order_book@ == applied.book
                    &&& match r {
                        Ok(action) => {
                            &&& action matches ApplierAction::Emit(logs)
                            &&& applied.outcome == Ok::<Seq<Event>, BookError>(events_of(logs@))
                            &&& *final(applier_offset) == offset_order.offset
                        },
                        Err(e) => {
                            &&& applied.outcome == Err::<Seq<Event>, BookError>(e)
                            &&& *final(applier_offset) == *old(applier_offset)
                        },
                    }
                },
                ApplierEvent::SnapshotRequest(request) => {
                    &&& final(self).order_book@ == old(self).order_book@
                    &&& *final(applier_offset) == *old(applier_offset)
                    &&& r matches Ok(action)
                    &&& if *old(applier_offset) - request.order_offset <= SNAPSHOT_MIN_ORDERS {
                        action is Drop
                    } else {
                        &&& action matches ApplierAction::Approve(snapshot)
                        &&& snapshot.order_offset == *old(applier_offset)
                        &&& snapshot.order_book_snapshot matches Some(b)
                        &&& b@ == old(self).order_book@.snapshot(old(self).order_book.product.id@)
                    }
                },
            },
    {
        match event {
            ApplierEvent::Order(offset_order) => {
                let logs = match self.dispatch(&offset_order.order) {
                    Err(e) => {
                        return Err(e);
                    },
                    Ok(logs) => logs,
                };
                *applier_offset = offset_order.offset;
                Ok(ApplierAction::Emit(logs))
            },
            ApplierEvent::SnapshotRequest(request) => {
                if *applier_offset <= request.order_offset || *applier_offset
                    - request.order_offset <= SNAPSHOT_MIN_ORDERS {
                    Ok(ApplierAction::Drop)
                } else {
                    Ok(
                        ApplierAction::Approve(
                            Snapshot {
                                order_book_snapshot: Some(self.order_book.snapshot()),
                                order_offset: *applier_offset,
                            },
                        ),
                    )
                }
            },
        }
    }

    /// One step of the committer.
    ///
    /// An event that arrives first is thrown away if its sequence is not
    /// above the last one taken; otherwise it is collected, as is every
    /// event that was waiting behind it, and the sequence moves to it. Once
    /// the batch is stored, a kept snapshot that is due goes forward. A
    /// snapshot that arrives for approval goes forward at once if every
    /// event up to its sequence has been taken; otherwise it is kept in
    /// place of any snapshot kept before. When a snapshot has been sent on,
    /// none is kept any more.
    pub fn run_committer(state: &mut Committer, event: CommitterEvent) -> (action: CommitterAction)
        requires
            old(state).wf(),
            event matches CommitterEvent::Approval(s) ==> s.order_book_snapshot is Some,
        ensures
            final(state).wf(),
            match event {
                CommitterEvent::Log(seq) => if seq <= old(state).seq {
                    action is Discard && *final(state) == *old(state)
                } else {
                    action is Collect && final(state).seq == seq && final(state).pending
                        == old(state).pending
                },
                CommitterEvent::More(seq) => action is Collect && final(state).seq == seq
                    && final(state).pending == old(state).pending,
                CommitterEvent::Stored => {
                    &&& *final(state) == *old(state)
                    &&& if old(state).due() {
                        &&& action matches CommitterAction::Forward(s)
                        &&& s.same_as(old(state).pending->Some_0)
                    } else {
                        action is Idle
                    }
                },
                CommitterEvent::Approval(snapshot) => {
                    &&& final(state).seq == old(state).seq
                    &&& if old(state).seq >= snapshot.log_seq() {
                        &&& action matches CommitterAction::Forward(s)
                        &&& s == snapshot
                        &&& final(state).pending == old(state).pending
                    } else {
                        &&& action is Hold
                        &&& final(state).pending == Some(snapshot)
                    }
                },
                CommitterEvent::Forwarded => action is Idle && final(state).seq == old(state).seq
                    && final(state).pending is None,
            },
    {
        match event {
            CommitterEvent::Log(seq) => {
                if seq <= state.seq {
                    CommitterAction::Discard
                } else {
                    state.seq = seq;
                    CommitterAction::Collect
                }
            },
            CommitterEvent::More(seq) => {
                state.seq = seq;
                CommitterAction::Collect
            },
            CommitterEvent::Stored => {
                let due: bool = match &state.pending {
                    Some(p) => match &p.order_book_snapshot {
                        Some(b) => state.seq >= b.log_seq,
                        None => false,
                    },
                    None => false,
                };
                if due {
                    match &state.pending {
                        Some(p) => CommitterAction::Forward(p.duplicate()),
                        None => CommitterAction::Idle,
                    }
                } else {
                    CommitterAction::Idle
                }
            },
            CommitterEvent::Approval(snapshot) => {
                let ready: bool = match &snapshot.order_book_snapshot {
                    Some(b) => state.seq >= b.log_seq,
                    None => false,
                };
                if ready {
                    CommitterAction::Forward(snapshot)
                } else {
                    state.pending = Some(snapshot);
                    CommitterAction::Hold
                }
            },
            CommitterEvent::Forwarded => {
                state.pending = None;
                CommitterAction::Idle
            },
        }
    }

    /// One step of the snapshotter. When the interval has passed it asks
    /// for a snapshot, naming the offset of the last one stored. When a
    /// snapshot has been stored, its offset is the one to name next.
    pub fn run_snapshots(order_offset: &mut u64, event: SnapshotterEvent) -> (request: Option<
        Snapshot,
    >)
        ensures
            match event {
                SnapshotterEvent::Tick => {
                    &&& *final(order_offset) == *old(order_offset)
                    &&& request matches Some(s)
                    &&& s.order_book_snapshot is None
                    &&& s.order_offset == *old(order_offset)
                },
                SnapshotterEvent::Stored(offset) => *final(order_offset) == offset
                    && request is None,
            },
    {
        match event {
            SnapshotterEvent::Tick => Some(
                Snapshot { order_book_snapshot: None, order_offset: *order_offset },
            ),
            SnapshotterEvent::Stored(offset) => {
                *order_offset = offset;
                None
            },
        }
    }
}

} // verus!
