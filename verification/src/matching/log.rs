//! The records that the book emits: an order opened on the book, a trade
//! between a taker and a maker, an order done.

use crate::matching::order_book::BookOrder;
use crate::models::decimal::Decimal;
use crate::models::types::{same_text, DoneReason, Side, TimeInForceType};
use crate::utils::error::CustomError;
use vstd::prelude::*;

verus! {

/// The kind of a record.
#[derive(Clone, Copy, Debug, PartialEq, Eq, Structural)]
pub enum LogType {
    LogTypeMatch,
    LogTypeOpen,
    LogTypeDone,
}

impl LogType {
    /// The name under which the kind is written.
    pub open spec fn name(self) -> Seq<char> {
        match self {
            LogType::LogTypeMatch => "match"@,
            LogType::LogTypeOpen => "open"@,
            LogType::LogTypeDone => "done"@,
        }
    }

    /// The kind that a name stands for, if any.
    pub open spec fn parse(s: Seq<char>) -> Option<LogType> {
        if s == "match"@ {
            Some(LogType::LogTypeMatch)
        } else if s == "open"@ {
            Some(LogType::LogTypeOpen)
        } else if s == "done"@ {
            Some(LogType::LogTypeDone)
        } else {
            None
        }
    }

    /// Every kind is read back from its own name, and from no other string.
    pub proof fn lemma_name_parses(self)
        ensures
            LogType::parse(self.name()) == Some(self),
            forall|s: Seq<char>| LogType::parse(s) == Some(self) ==> s == self.name(),
    {
        reveal_strlit("match");
        reveal_strlit("open");
        reveal_strlit("done");
        assert("match"@.len() != "open"@.len());
        assert("match"@.len() != "done"@.len());
        assert("open"@[0] != "done"@[0]);
    }
}

/// The name of `log_type`.
pub fn serialize_log_type(log_type: &LogType) -> (s: &'static str)
    ensures
        s@ == log_type.name(),
{
    match log_type {
        LogType::LogTypeMatch => "match",
        LogType::LogTypeOpen => "open",
        LogType::LogTypeDone => "done",
    }
}

/// The kind named by `s`; an error for any other string.
pub fn deserialize_log_type(s: &str) -> (r: Result<LogType, CustomError>)
    ensures
        r matches Ok(x) ==> LogType::parse(s@) == Some(x),
        r matches Err(e) ==> LogType::parse(s@) is None && e.0@ == "invalid log_type string"@,
{
    if same_text(s, "match") {
        Ok(LogType::LogTypeMatch)
    } else if same_text(s, "open") {
        Ok(LogType::LogTypeOpen)
    } else if same_text(s, "done") {
        Ok(LogType::LogTypeDone)
    } else {
        Err(CustomError::new("invalid log_type string"))
    }
}

/// What a record says, apart from the time at which it was made.
pub enum Event {
    Open {
        seq: u64,
        product_id: Seq<char>,
        order_id: u64,
        user_id: u64,
        remaining_size: Decimal,
        price: Decimal,
        side: Side,
        time_in_force: TimeInForceType,
    },
    Match {
        seq: u64,
        product_id: Seq<char>,
        trade_seq: u64,
        taker_order_id: u64,
        maker_order_id: u64,
        taker_user_id: u64,
        maker_user_id: u64,
        side: Side,
        price: Decimal,
        size: Decimal,
        taker_time_in_force: TimeInForceType,
        maker_time_in_force: TimeInForceType,
    },
    Done {
        seq: u64,
        product_id: Seq<char>,
        order_id: u64,
        user_id: u64,
        price: Decimal,
        remaining_size: Decimal,
        reason: DoneReason,
        side: Side,
        time_in_force: TimeInForceType,
    },
}

impl Event {
    /// The place of the record in the stream.
    pub open spec fn seq(self) -> u64 {
        match self {
            Event::Open { seq, .. } => seq,
            Event::Match { seq, .. } => seq,
            Event::Done { seq, .. } => seq,
        }
    }

    /// That an order with what is left of it opened on the book.
    pub open spec fn open(seq: u64, product_id: Seq<char>, taker: BookOrder) -> Event {
        Event::Open {
            seq,
            product_id,
            order_id: taker.order_id,
            user_id: taker.user_id,
            remaining_size: taker.size,
            price: taker.price,
            side: taker.side,
            time_in_force: taker.time_in_force,
        }
    }

    /// That an order is done, with what remained of it and why.
    pub open spec fn done(
        seq: u64,
        product_id: Seq<char>,
        order: BookOrder,
        remaining_size: Decimal,
        reason: DoneReason,
    ) -> Event {
        Event::Done {
            seq,
            product_id,
            order_id: order.order_id,
            user_id: order.user_id,
            price: order.price,
            remaining_size,
            reason,
            side: order.side,
            time_in_force: order.time_in_force,
        }
    }

    /// That taker and maker traded `size` at `price`; the side is the maker's.
    pub open spec fn matched(
        seq: u64,
        product_id: Seq<char>,
        trade_seq: u64,
        taker: BookOrder,
        maker: BookOrder,
        price: Decimal,
        size: Decimal,
    ) -> Event {
        Event::Match {
            seq,
            product_id,
            trade_seq,
            taker_order_id: taker.order_id,
            maker_order_id: maker.order_id,
            taker_user_id: taker.user_id,
            maker_user_id: maker.user_id,
            side: maker.side,
            price,
            size,
            taker_time_in_force: taker.time_in_force,
            maker_time_in_force: maker.time_in_force,
        }
    }
}

/// What every record starts with. `time` is in nanoseconds since the epoch,
/// UTC.
#[derive(Debug, Clone)]
pub struct Base {
    pub log_type: LogType,
    pub sequence: u64,
    pub product_id: String,
    pub time: u64,
}

/// The record that an order opened on the book.
#[derive(Debug, Clone)]
pub struct OpenLog {
    pub base: Base,
    pub order_id: u64,
    pub user_id: u64,
    pub remaining_size: Decimal,
    pub price: Decimal,
    pub side: Side,
    pub time_in_force: TimeInForceType,
}

/// The record that an order is done.
#[derive(Debug, Clone)]
pub struct DoneLog {
    pub base: Base,
    pub order_id: u64,
    pub user_id: u64,
    pub price: Decimal,
    pub remaining_size: Decimal,
    pub reason: DoneReason,
    pub side: Side,
    pub time_in_force: TimeInForceType,
}

/// The record of a trade.
#[derive(Debug, Clone)]
pub struct MatchLog {
    pub base: Base,
    pub trade_seq: u64,
    pub taker_order_id: u64,
    pub maker_order_id: u64,
    pub taker_user_id: u64,
    pub maker_user_id: u64,
    pub side: Side,
    pub price: Decimal,
    pub size: Decimal,
    pub taker_time_in_force: TimeInForceType,
    pub maker_time_in_force: TimeInForceType,
}

/// A record of any kind.
#[derive(Debug, Clone)]
pub enum Log {
    Open(OpenLog),
    Match(MatchLog),
    Done(DoneLog),
}

/// A record with its place in the stream.
pub trait LogTrait {
    /// The place of the record in the stream.
    spec fn seq(&self) -> u64;

    /// The place of the record in the stream.
    fn get_seq(&self) -> (seq: u64)
        ensures
            seq == self.seq(),
    ;
}

impl View for OpenLog {
    type V = Event;

    open spec fn view(&self) -> Event {
        Event::Open {
            seq: self.base.sequence,
            product_id: self.base.product_id@,
            order_id: self.order_id,
            user_id: self.user_id,
            remaining_size: self.remaining_size,
            price: self.price,
            side: self.side,
            time_in_force: self.time_in_force,
        }
    }
}

impl View for DoneLog {
    type V = Event;

    open spec fn view(&self) -> Event {
        Event::Done {
            seq: self.base.sequence,
            product_id: self.base.product_id@,
            order_id: self.order_id,
            user_id: self.user_id,
            price: self.price,
            remaining_size: self.remaining_size,
            reason: self.reason,
            side: self.side,
            time_in_force: self.time_in_force,
        }
    }
}

impl View for MatchLog {
    type V = Event;

    open spec fn view(&self) -> Event {
        Event::Match {
            seq: self.base.sequence,
            product_id: self.base.product_id@,
            trade_seq: self.trade_seq,
            taker_order_id: self.taker_order_id,
            maker_order_id: self.maker_order_id,
            taker_user_id: self.taker_user_id,
            maker_user_id: self.maker_user_id,
            side: self.side,
            price: self.price,
            size: self.size,
            taker_time_in_force: self.taker_time_in_force,
            maker_time_in_force: self.maker_time_in_force,
        }
    }
}

impl View for Log {
    type V = Event;

    open spec fn view(&self) -> Event {
        match self {
            Log::Open(l) => l@,
            Log::Match(l) => l@,
            Log::Done(l) => l@,
        }
    }
}

impl LogTrait for OpenLog {
    open spec fn seq(&self) -> u64 {
        self.base.sequence
    }

    fn get_seq(&self) -> (seq: u64) {
        self.base.sequence
    }
}

impl LogTrait for DoneLog {
    open spec fn seq(&self) -> u64 {
        self.base.sequence
    }

    fn get_seq(&self) -> (seq: u64) {
        self.base.sequence
    }
}

impl LogTrait for MatchLog {
    open spec fn seq(&self) -> u64 {
        self.base.sequence
    }

    fn get_seq(&self) -> (seq: u64) {
        self.base.sequence
    }
}

impl LogTrait for Log {
    open spec fn seq(&self) -> u64 {
        self@.seq()
    }

    fn get_seq(&self) -> (seq: u64) {
        match self {
            Log::Open(l) => l.base.sequence,
            Log::Match(l) => l.base.sequence,
            Log::Done(l) => l.base.sequence,
        }
    }
}

impl Log {
    /// The kind of the record.
    pub fn log_type(&self) -> (t: LogType)
        ensures
            t == match self {
                Log::Open(_) => LogType::LogTypeOpen,
                Log::Match(_) => LogType::LogTypeMatch,
                Log::Done(_) => LogType::LogTypeDone,
            },
    {
        match self {
            Log::Open(_) => LogType::LogTypeOpen,
            Log::Match(_) => LogType::LogTypeMatch,
            Log::Done(_) => LogType::LogTypeDone,
        }
    }
}

/// What a list of records says, record by record.
pub open spec fn events_of(logs: Seq<Log>) -> Seq<Event> {
    Seq::new(logs.len(), |i: int| logs[i]@)
}

/// Nanoseconds since the epoch for a clock that reads `seconds` whole seconds
/// and `subsec_nanos` nanoseconds into the next, kept to 64 bits.
pub open spec fn nanos_since_epoch(seconds: i64, subsec_nanos: u32) -> u64 {
    let total = seconds * 1_000_000_000 + subsec_nanos;
    if total >= 0 {
        (total % 0x1_0000_0000_0000_0000) as u64
    } else if (-total) % 0x1_0000_0000_0000_0000 == 0 {
        0
    } else {
        (0x1_0000_0000_0000_0000 - (-total) % 0x1_0000_0000_0000_0000) as u64
    }
}

/// Reads the clock through `chrono::Utc::now` and gives the instant as
/// `DateTime::timestamp` and `DateTime::timestamp_subsec_nanos` tell it. The
/// contract claims nothing of the reading.
#[verifier::external_body]
fn clock_reading() -> (r: (i64, u32)) {
    let now = chrono::Utc::now();
    (now.timestamp(), now.timestamp_subsec_nanos())
}

/// The time of a clock reading, see [`nanos_since_epoch`].
pub fn time_of_reading(seconds: i64, subsec_nanos: u32) -> (t: u64)
    ensures
        t == nanos_since_epoch(seconds, subsec_nanos),
{
    let total: i128 = seconds as i128 * 1_000_000_000 + subsec_nanos as i128;
    let modulus: i128 = 0x1_0000_0000_0000_0000;
    if total >= 0 {
        (total % modulus) as u64
    } else {
        let rest: i128 = (-total) % modulus;
        if rest == 0 {
            0
        } else {
            (modulus - rest) as u64
        }
    }
}

/// The time now: what the clock reads, in nanoseconds as
/// [`time_of_reading`] gives them. Nothing is claimed of it, since a clock
/// may read any instant and every time is the time of some reading.
fn now() -> u64 {
    let reading = clock_reading();
    time_of_reading(reading.0, reading.1)
}

/// The record that `taker` opened on the book with what is left of it.
pub fn new_open_log(log_seq: u64, product_id: &str, taker_order: &BookOrder) -> (l: OpenLog)
    ensures
        l@ == Event::open(log_seq, product_id@, *taker_order),
        l.base.log_type == LogType::LogTypeOpen,
{
    OpenLog {
        base: Base {
            log_type: LogType::LogTypeOpen,
            sequence: log_seq,
            product_id: product_id.to_owned(),
            time: now(),
        },
        order_id: taker_order.order_id,
        user_id: taker_order.user_id,
        remaining_size: taker_order.size,
        price: taker_order.price,
        side: taker_order.side,
        time_in_force: taker_order.time_in_force,
    }
}

/// The record that `order` is done, with what remained of it and why.
pub fn new_done_log(
    log_seq: u64,
    product_id: &str,
    order: &BookOrder,
    remaining_size: &Decimal,
    reason: &DoneReason,
) -> (l: DoneLog)
    ensures
        l@ == Event::done(log_seq, product_id@, *order, *remaining_size, *reason),
        l.base.log_type == LogType::LogTypeDone,
{
    DoneLog {
        base: Base {
            log_type: LogType::LogTypeDone,
            sequence: log_seq,
            product_id: product_id.to_owned(),
            time: now(),
        },
        order_id: order.order_id,
        user_id: order.user_id,
        price: order.price,
        remaining_size: *remaining_size,
        reason: *reason,
        side: order.side,
        time_in_force: order.time_in_force,
    }
}

/// The record of a trade between taker and maker. The side is the maker's.
pub fn new_match_log(
    log_seq: u64,
    product_id: &str,
    trade_seq: u64,
    taker_order: &BookOrder,
    maker_order: &BookOrder,
    price: &Decimal,
    size: &Decimal,
) -> (l: MatchLog)
    ensures
        l@ == Event::matched(
            log_seq,
            product_id@,
            trade_seq,
            *taker_order,
            *maker_order,
            *price,
            *size,
        ),
        l.base.log_type == LogType::LogTypeMatch,
{
    MatchLog {
        base: Base {
            log_type: LogType::LogTypeMatch,
            sequence: log_seq,
            product_id: product_id.to_owned(),
            time: now(),
        },
        trade_seq,
        taker_order_id: taker_order.order_id,
        maker_order_id: maker_order.order_id,
        taker_user_id: taker_order.user_id,
        maker_user_id: maker_order.user_id,
        side: maker_order.side,
        price: *price,
        size: *size,
        taker_time_in_force: taker_order.time_in_force,
        maker_time_in_force: maker_order.time_in_force,
    }
}

} // verus!
