//! The records that flow through the engine, and their mathematical views.
use vstd::prelude::*;

verus! {

/// The side of an order or of a trade.
#[derive(Debug, Clone, Copy, PartialEq, Eq, Structural)]
pub enum TradeType {
    Buy,
    Sell,
}

/// Where an order stands. The engine fills pending orders only.
#[derive(Debug, Clone, Copy, PartialEq, Eq, Structural)]
pub enum OrderStatus {
    Pending,
    Filled,
    Cancelled,
    Rejected,
}

/// Why the engine turned an order down.
#[derive(Debug, Clone, Copy, PartialEq, Eq, Structural)]
pub enum Rejection {
    /// The order was not pending.
    NotPending,
    /// A buy whose cost, commission included, exceeds the cash at hand.
    InsufficientCapital,
    /// A sell of a symbol that is not held.
    NoPosition,
    /// A sell of more than is held.
    InsufficientPosition,
    /// The holding after a buy, or the notional of a sell or the cash after
    /// it, would not fit in 64 bits.
    OutOfRange,
}

/// One price bar.
#[derive(Debug, Clone, Copy, PartialEq, Eq, Structural)]
pub struct Bar {
    pub timestamp: i64,
    pub open: u64,
    pub high: u64,
    pub low: u64,
    pub close: u64,
    pub volume: u64,
}

/// An order handed to the engine. `price` and `quantity` are fixed-point.
#[derive(Debug, PartialEq, Eq)]
pub struct Order {
    pub id: String,
    pub symbol: String,
    pub trade_type: TradeType,
    pub price: u64,
    pub quantity: u64,
    pub timestamp: i64,
    pub status: OrderStatus,
}

/// What an order says, as plain mathematical values.
pub struct OrderView {
    pub symbol: Seq<char>,
    pub trade_type: TradeType,
    pub price: nat,
    pub quantity: nat,
    pub timestamp: int,
    pub status: OrderStatus,
}

impl OrderView {
    /// An order asks for a positive quantity, and its amounts fit in 64 bits.
    pub open spec fn valid(self) -> bool {
        &&& 0 < self.quantity <= u64::MAX
        &&& self.price <= u64::MAX
    }
}

impl View for Order {
    type V = OrderView;

    open spec fn view(&self) -> OrderView {
        OrderView {
            symbol: self.symbol@,
            trade_type: self.trade_type,
            price: self.price as nat,
            quantity: self.quantity as nat,
            timestamp: self.timestamp as int,
            status: self.status,
        }
    }
}

/// The holding of one symbol.
#[derive(Debug, PartialEq, Eq)]
pub struct Position {
    pub symbol: String,
    pub quantity: u64,
    pub avg_price: u64,
}

/// A holding as plain mathematical values.
pub struct PositionView {
    pub symbol: Seq<char>,
    pub quantity: nat,
    pub avg_price: nat,
}

impl View for Position {
    type V = PositionView;

    open spec fn view(&self) -> PositionView {
        PositionView {
            symbol: self.symbol@,
            quantity: self.quantity as nat,
            avg_price: self.avg_price as nat,
        }
    }
}

/// The record of one accepted order.
#[derive(Debug, PartialEq, Eq)]
pub struct Trade {
    pub symbol: String,
    pub trade_type: TradeType,
    pub price: u64,
    pub quantity: u64,
    pub timestamp: i64,
    pub commission: u64,
}

/// A trade as plain mathematical values.
pub struct TradeView {
    pub symbol: Seq<char>,
    pub trade_type: TradeType,
    pub price: nat,
    pub quantity: nat,
    pub timestamp: int,
    pub commission: nat,
}

impl View for Trade {
    type V = TradeView;

    open spec fn view(&self) -> TradeView {
        TradeView {
            symbol: self.symbol@,
            trade_type: self.trade_type,
            price: self.price as nat,
            quantity: self.quantity as nat,
            timestamp: self.timestamp as int,
            commission: self.commission as nat,
        }
    }
}

impl Clone for Order {
    fn clone(&self) -> (r: Order)
        ensures
            r == *self,
    {
        Order {
            id: self.id.clone(),
            symbol: self.symbol.clone(),
            trade_type: self.trade_type,
            price: self.price,
            quantity: self.quantity,
            timestamp: self.timestamp,
            status: self.status,
        }
    }
}

impl Clone for Position {
    fn clone(&self) -> (r: Position)
        ensures
            r == *self,
    {
        Position { symbol: self.symbol.clone(), quantity: self.quantity, avg_price: self.avg_price }
    }
}

impl Clone for Trade {
    fn clone(&self) -> (r: Trade)
        ensures
            r == *self,
    {
        Trade {
            symbol: self.symbol.clone(),
            trade_type: self.trade_type,
            price: self.price,
            quantity: self.quantity,
            timestamp: self.timestamp,
            commission: self.commission,
        }
    }
}

/// The views of a run of trades, in order.
pub open spec fn trade_views(trades: Seq<Trade>) -> Seq<TradeView> {
    trades.map_values(|t: Trade| t@)
}

/// The views of a run of orders, in order.
pub open spec fn order_views(orders: Seq<Order>) -> Seq<OrderView> {
    orders.map_values(|o: Order| o@)
}

} // verus!
