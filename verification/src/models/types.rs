//! The enumerations of the order model and the names under which they are
//! written on the wire.

use crate::utils::error::CustomError;
use vstd::prelude::*;

verus! {

/// Whether two strings hold the same characters.
pub fn same_text(a: &str, b: &str) -> (r: bool)
    ensures
        r == (a@ == b@),
{
    let x: String = a.to_owned();
    let y: String = b.to_owned();
    x == y
}

/// Whether an order names its price.
#[derive(Clone, Copy, Debug, PartialEq, Eq, Structural)]
pub enum OrderType {
    OrderTypeLimit,
    OrderTypeMarket,
}

impl OrderType {
    /// The name under which the value is written.
    pub open spec fn name(self) -> Seq<char> {
        match self {
            OrderType::OrderTypeLimit => "limit"@,
            OrderType::OrderTypeMarket => "market"@,
        }
    }

    /// The value that a name stands for, if any.
    pub open spec fn parse(s: Seq<char>) -> Option<OrderType> {
        if s == "limit"@ {
            Some(OrderType::OrderTypeLimit)
        } else if s == "market"@ {
            Some(OrderType::OrderTypeMarket)
        } else {
            None
        }
    }

    /// Every value is read back from its own name, and from no other string.
    pub proof fn lemma_name_parses(self)
        ensures
            OrderType::parse(self.name()) == Some(self),
            forall|s: Seq<char>| OrderType::parse(s) == Some(self) ==> s == self.name(),
    {
        reveal_strlit("limit");
        reveal_strlit("market");
        assert("limit"@.len() != "market"@.len());
    }
}

/// The name of `order_type`.
pub fn serialize_order_type(order_type: &OrderType) -> (s: &'static str)
    ensures
        s@ == order_type.name(),
{
    match order_type {
        OrderType::OrderTypeLimit => "limit",
        OrderType::OrderTypeMarket => "market",
    }
}

/// The value named by `s`; an error for any other string.
pub fn deserialize_order_type(s: &str) -> (r: Result<OrderType, CustomError>)
    ensures
        r matches Ok(x) ==> OrderType::parse(s@) == Some(x),
        r matches Err(e) ==> OrderType::parse(s@) is None && e.0@ == "invalid order_type string"@,
{
    if same_text(s, "limit") {
        Ok(OrderType::OrderTypeLimit)
    } else if same_text(s, "market") {
        Ok(OrderType::OrderTypeMarket)
    } else {
        Err(CustomError::new("invalid order_type string"))
    }
}

/// The side of the book an order is on.
#[derive(Clone, Copy, Debug, PartialEq, Eq, Structural)]
pub enum Side {
    SideBuy,
    SideSell,
}

impl Side {
    /// The name under which the value is written.
    pub open spec fn name(self) -> Seq<char> {
        match self {
            Side::SideBuy => "buy"@,
            Side::SideSell => "sell"@,
        }
    }

    /// The value that a name stands for, if any.
    pub open spec fn parse(s: Seq<char>) -> Option<Side> {
        if s == "buy"@ {
            Some(Side::SideBuy)
        } else if s == "sell"@ {
            Some(Side::SideSell)
        } else {
            None
        }
    }

    /// Every value is read back from its own name, and from no other string.
    pub proof fn lemma_name_parses(self)
        ensures
            Side::parse(self.name()) == Some(self),
            forall|s: Seq<char>| Side::parse(s) == Some(self) ==> s == self.name(),
    {
        reveal_strlit("buy");
        reveal_strlit("sell");
        assert("buy"@.len() != "sell"@.len());
    }
}

/// The name of `side`.
pub fn serialize_side(side: &Side) -> (s: &'static str)
    ensures
        s@ == side.name(),
{
    match side {
        Side::SideBuy => "buy",
        Side::SideSell => "sell",
    }
}

/// The value named by `s`; an error for any other string.
pub fn deserialize_side(s: &str) -> (r: Result<Side, CustomError>)
    ensures
        r matches Ok(x) ==> Side::parse(s@) == Some(x),
        r matches Err(e) ==> Side::parse(s@) is None && e.0@ == "invalid side string"@,
{
    if same_text(s, "buy") {
        Ok(Side::SideBuy)
    } else if same_text(s, "sell") {
        Ok(Side::SideSell)
    } else {
        Err(CustomError::new("invalid side string"))
    }
}

/// How long an order may live.
#[derive(Clone, Copy, Debug, PartialEq, Eq, Structural)]
pub enum TimeInForceType {
    GoodTillCanceled,
    ImmediateOrCancel,
    GoodTillCrossing,
    FillOrKill,
}

impl TimeInForceType {
    /// The name under which the value is written.
    pub open spec fn name(self) -> Seq<char> {
        match self {
            TimeInForceType::GoodTillCanceled => "GTC"@,
            TimeInForceType::ImmediateOrCancel => "IOC"@,
            TimeInForceType::GoodTillCrossing => "GTX"@,
            TimeInForceType::FillOrKill => "FOK"@,
        }
    }

    /// The value that a name stands for, if any.
    pub open spec fn parse(s: Seq<char>) -> Option<TimeInForceType> {
        if s == "GTC"@ {
            Some(TimeInForceType::GoodTillCanceled)
        } else if s == "IOC"@ {
            Some(TimeInForceType::ImmediateOrCancel)
        } else if s == "GTX"@ {
            Some(TimeInForceType::GoodTillCrossing)
        } else if s == "FOK"@ {
            Some(TimeInForceType::FillOrKill)
        } else {
            None
        }
    }

    /// Every value is read back from its own name, and from no other string.
    pub proof fn lemma_name_parses(self)
        ensures
            TimeInForceType::parse(self.name()) == Some(self),
            forall|s: Seq<char>| TimeInForceType::parse(s) == Some(self) ==> s == self.name(),
    {
        reveal_strlit("GTC");
        reveal_strlit("IOC");
        reveal_strlit("GTX");
        reveal_strlit("FOK");
        assert("GTC"@[0] != "IOC"@[0]);
        assert("GTC"@[2] != "GTX"@[2]);
        assert("GTC"@[0] != "FOK"@[0]);
        assert("IOC"@[0] != "GTX"@[0]);
        assert("IOC"@[0] != "FOK"@[0]);
        assert("GTX"@[0] != "FOK"@[0]);
    }
}

/// The name of `time_in_force_type`.
pub fn serialize_time_in_force_type(time_in_force_type: &TimeInForceType) -> (s: &'static str)
    ensures
        s@ == time_in_force_type.name(),
{
    match time_in_force_type {
        TimeInForceType::GoodTillCanceled => "GTC",
        TimeInForceType::ImmediateOrCancel => "IOC",
        TimeInForceType::GoodTillCrossing => "GTX",
        TimeInForceType::FillOrKill => "FOK",
    }
}

/// The value named by `s`; an error for any other string.
pub fn deserialize_time_in_force_type(s: &str) -> (r: Result<TimeInForceType, CustomError>)
    ensures
        r matches Ok(x) ==> TimeInForceType::parse(s@) == Some(x),
        r matches Err(e) ==> TimeInForceType::parse(s@) is None && e.0@
            == "invalid time_in_force_type string"@,
{
    if same_text(s, "GTC") {
        Ok(TimeInForceType::GoodTillCanceled)
    } else if same_text(s, "IOC") {
        Ok(TimeInForceType::ImmediateOrCancel)
    } else if same_text(s, "GTX") {
        Ok(TimeInForceType::GoodTillCrossing)
    } else if same_text(s, "FOK") {
        Ok(TimeInForceType::FillOrKill)
    } else {
        Err(CustomError::new("invalid time_in_force_type string"))
    }
}

/// Where an order is in its life.
#[derive(Clone, Copy, Debug, PartialEq, Eq, Structural)]
pub enum OrderStatus {
    OrderStatusNew,
    OrderStatusOpen,
    OrderStatusCancelling,
    OrderStatusCancelled,
    OrderStatusPartial,
    OrderStatusFilled,
}

impl OrderStatus {
    /// The name under which the value is written.
    pub open spec fn name(self) -> Seq<char> {
        match self {
            OrderStatus::OrderStatusNew => "new"@,
            OrderStatus::OrderStatusOpen => "open"@,
            OrderStatus::OrderStatusCancelling => "cancelling"@,
            OrderStatus::OrderStatusCancelled => "cancelled"@,
            OrderStatus::OrderStatusPartial => "partial"@,
            OrderStatus::OrderStatusFilled => "filled"@,
        }
    }

    /// The value that a name stands for, if any.
    pub open spec fn parse(s: Seq<char>) -> Option<OrderStatus> {
        if s == "new"@ {
            Some(OrderStatus::OrderStatusNew)
        } else if s == "open"@ {
            Some(OrderStatus::OrderStatusOpen)
        } else if s == "cancelling"@ {
            Some(OrderStatus::OrderStatusCancelling)
        } else if s == "cancelled"@ {
            Some(OrderStatus::OrderStatusCancelled)
        } else if s == "partial"@ {
            Some(OrderStatus::OrderStatusPartial)
        } else if s == "filled"@ {
            Some(OrderStatus::OrderStatusFilled)
        } else {
            None
        }
    }

    /// Every value is read back from its own name, and from no other string.
    pub proof fn lemma_name_parses(self)
        ensures
            OrderStatus::parse(self.name()) == Some(self),
            forall|s: Seq<char>| OrderStatus::parse(s) == Some(self) ==> s == self.name(),
    {
        reveal_strlit("new");
        reveal_strlit("open");
        reveal_strlit("cancelling");
        reveal_strlit("cancelled");
        reveal_strlit("partial");
        reveal_strlit("filled");
        assert("new"@.len() != "open"@.len());
        assert("new"@.len() != "cancelling"@.len());
        assert("new"@.len() != "cancelled"@.len());
        assert("new"@.len() != "partial"@.len());
        assert("new"@.len() != "filled"@.len());
        assert("open"@.len() != "cancelling"@.len());
        assert("open"@.len() != "cancelled"@.len());
        assert("open"@.len() != "partial"@.len());
        assert("open"@.len() != "filled"@.len());
        assert("cancelling"@.len() != "cancelled"@.len());
        assert("cancelling"@.len() != "partial"@.len());
        assert("cancelling"@.len() != "filled"@.len());
        assert("cancelled"@.len() != "partial"@.len());
        assert("cancelled"@.len() != "filled"@.len());
        assert("partial"@.len() != "filled"@.len());
    }
}

/// The name of `order_status`.
pub fn serialize_order_status(order_status: &OrderStatus) -> (s: &'static str)
    ensures
        s@ == order_status.name(),
{
    match order_status {
        OrderStatus::OrderStatusNew => "new",
        OrderStatus::OrderStatusOpen => "open",
        OrderStatus::OrderStatusCancelling => "cancelling",
        OrderStatus::OrderStatusCancelled => "cancelled",
        OrderStatus::OrderStatusPartial => "partial",
        OrderStatus::OrderStatusFilled => "filled",
    }
}

/// The value named by `s`; an error for any other string.
pub fn deserialize_order_status(s: &str) -> (r: Result<OrderStatus, CustomError>)
    ensures
        r matches Ok(x) ==> OrderStatus::parse(s@) == Some(x),
        r matches Err(e) ==> OrderStatus::parse(s@) is None && e.0@ == "invalid order_status string"@,
{
    if same_text(s, "new") {
        Ok(OrderStatus::OrderStatusNew)
    } else if same_text(s, "open") {
        Ok(OrderStatus::OrderStatusOpen)
    } else if same_text(s, "cancelling") {
        Ok(OrderStatus::OrderStatusCancelling)
    } else if same_text(s, "cancelled") {
        Ok(OrderStatus::OrderStatusCancelled)
    } else if same_text(s, "partial") {
        Ok(OrderStatus::OrderStatusPartial)
    } else if same_text(s, "filled") {
        Ok(OrderStatus::OrderStatusFilled)
    } else {
        Err(CustomError::new("invalid order_status string"))
    }
}

/// Why an order left the book.
#[derive(Clone, Copy, Debug, PartialEq, Eq, Structural)]
pub enum DoneReason {
    DoneReasonFilled,
    DoneReasonCancelled,
}

impl DoneReason {
    /// The name under which the value is written.
    pub open spec fn name(self) -> Seq<char> {
        match self {
            DoneReason::DoneReasonFilled => "filled"@,
            DoneReason::DoneReasonCancelled => "cancelled"@,
        }
    }

    /// The value that a name stands for, if any.
    pub open spec fn parse(s: Seq<char>) -> Option<DoneReason> {
        if s == "filled"@ {
            Some(DoneReason::DoneReasonFilled)
        } else if s == "cancelled"@ {
            Some(DoneReason::DoneReasonCancelled)
        } else {
            None
        }
    }

    /// Every value is read back from its own name, and from no other string.
    pub proof fn lemma_name_parses(self)
        ensures
            DoneReason::parse(self.name()) == Some(self),
            forall|s: Seq<char>| DoneReason::parse(s) == Some(self) ==> s == self.name(),
    {
        reveal_strlit("filled");
        reveal_strlit("cancelled");
        assert("filled"@.len() != "cancelled"@.len());
    }
}

/// The name of `done_reason`.
pub fn serialize_done_reason(done_reason: &DoneReason) -> (s: &'static str)
    ensures
        s@ == done_reason.name(),
{
    match done_reason {
        DoneReason::DoneReasonFilled => "filled",
        DoneReason::DoneReasonCancelled => "cancelled",
    }
}

/// The value named by `s`; an error for any other string.
pub fn deserialize_done_reason(s: &str) -> (r: Result<DoneReason, CustomError>)
    ensures
        r matches Ok(x) ==> DoneReason::parse(s@) == Some(x),
        r matches Err(e) ==> DoneReason::parse(s@) is None && e.0@ == "invalid done_reason string"@,
{
    if same_text(s, "filled") {
        Ok(DoneReason::DoneReasonFilled)
    } else if same_text(s, "cancelled") {
        Ok(DoneReason::DoneReasonCancelled)
    } else {
        Err(CustomError::new("invalid done_reason string"))
    }
}

impl Side {
    /// The other side.
    pub fn opposite(self) -> (r: Self)
        ensures
            r == self.spec_opposite(),
    {
        match self {
            Side::SideBuy => Side::SideSell,
            Side::SideSell => Side::SideBuy,
        }
    }

    /// The other side.
    pub open spec fn spec_opposite(self) -> Side {
        match self {
            Side::SideBuy => Side::SideSell,
            Side::SideSell => Side::SideBuy,
        }
    }

    /// The opposite of the opposite is the side itself.
    pub proof fn lemma_opposite_twice(self)
        ensures
            self.spec_opposite().spec_opposite() == self,
            self.spec_opposite() != self,
    {
    }
}

// Each value under a short name.

pub const ORDER_TYPE_LIMIT: OrderType = OrderType::OrderTypeLimit;

pub const ORDER_TYPE_MARKET: OrderType = OrderType::OrderTypeMarket;

pub const SIDE_BUY: Side = Side::SideBuy;

pub const SIDE_SELL: Side = Side::SideSell;

pub const GOOD_TILL_CANCELED: TimeInForceType = TimeInForceType::GoodTillCanceled;

pub const IMMEDIATE_OR_CANCEL: TimeInForceType = TimeInForceType::ImmediateOrCancel;

pub const GOOD_TILL_CROSSING: TimeInForceType = TimeInForceType::GoodTillCrossing;

pub const FILL_OR_KILL: TimeInForceType = TimeInForceType::FillOrKill;

pub const ORDER_STATUS_NEW: OrderStatus = OrderStatus::OrderStatusNew;

pub const ORDER_STATUS_OPEN: OrderStatus = OrderStatus::OrderStatusOpen;

pub const ORDER_STATUS_CANCELLING: OrderStatus = OrderStatus::OrderStatusCancelling;

pub const ORDER_STATUS_CANCELLED: OrderStatus = OrderStatus::OrderStatusCancelled;

pub const ORDER_STATUS_PARTIAL: OrderStatus = OrderStatus::OrderStatusPartial;

pub const ORDER_STATUS_FILLED: OrderStatus = OrderStatus::OrderStatusFilled;

pub const DONE_REASON_FILLED: DoneReason = DoneReason::DoneReasonFilled;

pub const DONE_REASON_CANCELLED: DoneReason = DoneReason::DoneReasonCancelled;

} // verus!
