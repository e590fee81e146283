//! The ledger as a mathematical state machine: what an order costs, when it
//! is turned down, and what the books hold after it.
use vstd::prelude::*;
use crate::fixed::{scaled_product, SCALE};
use crate::types::{OrderStatus, OrderView, PositionView, Rejection, TradeType, TradeView};

verus! {

/// The books of one run.
pub struct EngineState {
    /// The cash the run started with.
    pub starting_capital: nat,
    /// The cash at hand.
    pub current_capital: nat,
    /// The fraction of notional charged on each trade.
    pub commission_rate: nat,
    /// The open holdings, by symbol.
    pub positions: Map<Seq<char>, PositionView>,
    /// The accepted orders, oldest first.
    pub trades: Seq<TradeView>,
}

/// Price times quantity.
pub open spec fn notional(price: nat, quantity: nat) -> nat {
    scaled_product(price, quantity)
}

/// The commission on one trade: the rate times the notional.
pub open spec fn commission_on(price: nat, quantity: nat, rate: nat) -> nat {
    scaled_product(notional(price, quantity), rate)
}

/// What a buy takes from the cash.
pub open spec fn buy_cost(price: nat, quantity: nat, rate: nat) -> nat {
    notional(price, quantity) + commission_on(price, quantity, rate)
}

/// What a sell adds to the cash.
pub open spec fn sell_revenue(price: nat, quantity: nat, rate: nat) -> int {
    notional(price, quantity) - commission_on(price, quantity, rate)
}

/// The quantity-weighted blend of a holding's average price with a new fill.
pub open spec fn blended_price(avg_price: nat, held: nat, price: nat, quantity: nat) -> nat {
    (avg_price * held + price * quantity) / (held + quantity)
}

/// What one logged trade did to the cash.
pub open spec fn cash_effect(t: TradeView) -> int {
    match t.trade_type {
        TradeType::Buy => -(notional(t.price, t.quantity) + t.commission),
        TradeType::Sell => notional(t.price, t.quantity) - t.commission,
    }
}

/// The cash after the first `k` trades of a log, from `start`.
pub open spec fn balance_after(start: int, trades: Seq<TradeView>, k: int) -> int
    decreases k,
{
    if k <= 0 {
        start
    } else {
        balance_after(start, trades, k - 1) + cash_effect(trades[k - 1])
    }
}

/// A log that grew by one trade has the balances it had, up to its old end.
pub proof fn lemma_balance_after_push(start: int, trades: Seq<TradeView>, t: TradeView, k: int)
    requires
        k <= trades.len(),
    ensures
        balance_after(start, trades.push(t), k) == balance_after(start, trades, k),
    decreases k,
{
    if k > 0 {
        lemma_balance_after_push(start, trades, t, k - 1);
        assert(trades.push(t)[k - 1] == trades[k - 1]);
    }
}

/// With a rate below one, the commission never exceeds the notional.
pub proof fn lemma_commission_bounded(price: nat, quantity: nat, rate: nat)
    requires
        rate < SCALE,
    ensures
        commission_on(price, quantity, rate) <= notional(price, quantity),
{
    let n = notional(price, quantity);
    assert((n * rate) / (SCALE as nat) <= n) by (nonlinear_arith)
        requires
            rate < SCALE,
            SCALE == 1_000_000,
    ;
}

/// A blend lies between the two prices it blends, and is the fill's price
/// when nothing was held.
pub proof fn lemma_blend_bounded(avg_price: nat, held: nat, price: nat, quantity: nat)
    requires
        held + quantity > 0,
    ensures
        blended_price(avg_price, held, price, quantity) <= if avg_price >= price {
            avg_price
        } else {
            price
        },
        blended_price(avg_price, held, price, quantity) >= if avg_price <= price {
            avg_price
        } else {
            price
        },
        held == 0 ==> blended_price(avg_price, held, price, quantity) == price,
{
    let hi = if avg_price >= price { avg_price } else { price };
    let lo = if avg_price <= price { avg_price } else { price };
    let d = held + quantity;
    let x = avg_price * held + price * quantity;
    assert(lo * d <= x <= hi * d) by (nonlinear_arith)
        requires
            lo <= avg_price <= hi,
            lo <= price <= hi,
            d == held + quantity,
            x == avg_price * held + price * quantity,
    ;
    assert(lo <= x / d <= hi) by (nonlinear_arith)
        requires
            lo * d <= x <= hi * d,
            d > 0,
    ;
    if held == 0 {
        assert(avg_price * held == 0) by (nonlinear_arith)
            requires
                held == 0,
        ;
        assert((price * quantity) / quantity == price) by (nonlinear_arith)
            requires
                quantity > 0,
        ;
    }
}

impl EngineState {
    /// The books before any order.
    pub open spec fn fresh(capital: nat, rate: nat) -> EngineState {
        EngineState {
            starting_capital: capital,
            current_capital: capital,
            commission_rate: rate,
            positions: Map::empty(),
            trades: Seq::empty(),
        }
    }

    /// Whether `symbol` is held.
    pub open spec fn holds(self, symbol: Seq<char>) -> bool {
        self.positions.dom().contains(symbol)
    }

    /// The quantity held of `symbol`, zero when there is no position.
    pub open spec fn held(self, symbol: Seq<char>) -> nat {
        if self.holds(symbol) {
            self.positions[symbol].quantity
        } else {
            0
        }
    }

    /// The average price of the holding of `symbol`, zero when there is none.
    pub open spec fn avg_price(self, symbol: Seq<char>) -> nat {
        if self.holds(symbol) {
            self.positions[symbol].avg_price
        } else {
            0
        }
    }

    /// The books are consistent: amounts fit in 64 bits, every holding is
    /// positive and filed under its own symbol, every logged commission is
    /// the one the rate yields, and the cash is the starting capital plus
    /// the cash effects of the log, as it was after every trade.
    pub open spec fn valid(self) -> bool {
        &&& 0 < self.starting_capital <= u64::MAX
        &&& self.current_capital <= u64::MAX
        &&& self.commission_rate < SCALE
        &&& forall|s: Seq<char>| #[trigger]
            self.positions.dom().contains(s) ==> {
                &&& self.positions[s].symbol == s
                &&& 0 < self.positions[s].quantity <= u64::MAX
                &&& self.positions[s].avg_price <= u64::MAX
            }
        &&& forall|i: int|
            0 <= i < self.trades.len() ==> {
                &&& (#[trigger] self.trades[i]).price <= u64::MAX
                &&& self.trades[i].quantity <= u64::MAX
                &&& notional(self.trades[i].price, self.trades[i].quantity) <= u64::MAX
                &&& self.trades[i].commission == commission_on(
                    self.trades[i].price,
                    self.trades[i].quantity,
                    self.commission_rate,
                )
            }
        &&& forall|k: int|
            0 <= k <= self.trades.len() ==> 0 <= #[trigger] balance_after(
                self.starting_capital as int,
                self.trades,
                k,
            ) <= u64::MAX
        &&& balance_after(self.starting_capital as int, self.trades, self.trades.len() as int)
            == self.current_capital
    }

    /// Why `o` is turned down, or `None` when it is accepted.
    pub open spec fn verdict(self, o: OrderView) -> Option<Rejection> {
        if o.status != OrderStatus::Pending {
            Some(Rejection::NotPending)
        } else {
            match o.trade_type {
                TradeType::Buy => {
                    if buy_cost(o.price, o.quantity, self.commission_rate) > self.current_capital {
                        Some(Rejection::InsufficientCapital)
                    } else if self.held(o.symbol) + o.quantity > u64::MAX {
                        Some(Rejection::OutOfRange)
                    } else {
                        None
                    }
                },
                TradeType::Sell => {
                    if !self.holds(o.symbol) {
                        Some(Rejection::NoPosition)
                    } else if self.positions[o.symbol].quantity < o.quantity {
                        Some(Rejection::InsufficientPosition)
                    } else if notional(o.price, o.quantity) > u64::MAX || self.current_capital
                        + sell_revenue(o.price, o.quantity, self.commission_rate) > u64::MAX {
                        Some(Rejection::OutOfRange)
                    } else {
                        None
                    }
                },
            }
        }
    }

    /// The trade that accepting `o` logs.
    pub open spec fn fill(self, o: OrderView) -> TradeView {
        TradeView {
            symbol: o.symbol,
            trade_type: o.trade_type,
            price: o.price,
            quantity: o.quantity,
            timestamp: o.timestamp,
            commission: commission_on(o.price, o.quantity, self.commission_rate),
        }
    }

    /// The holdings after `o` is accepted. A buy opens the position or adds
    /// to it at the blended price; a sell takes from it and closes it when
    /// nothing is left.
    pub open spec fn positions_after(self, o: OrderView) -> Map<Seq<char>, PositionView> {
        match o.trade_type {
            TradeType::Buy => self.positions.insert(
                o.symbol,
                PositionView {
                    symbol: o.symbol,
                    quantity: self.held(o.symbol) + o.quantity,
                    avg_price: blended_price(
                        self.avg_price(o.symbol),
                        self.held(o.symbol),
                        o.price,
                        o.quantity,
                    ),
                },
            ),
            TradeType::Sell => if self.held(o.symbol) <= o.quantity {
                self.positions.remove(o.symbol)
            } else {
                self.positions.insert(
                    o.symbol,
                    PositionView {
                        symbol: o.symbol,
                        quantity: (self.held(o.symbol) - o.quantity) as nat,
                        avg_price: self.avg_price(o.symbol),
                    },
                )
            },
        }
    }

    /// The books after `o` is accepted.
    pub open spec fn settle(self, o: OrderView) -> EngineState {
        EngineState {
            starting_capital: self.starting_capital,
            current_capital: (self.current_capital + cash_effect(self.fill(o))) as nat,
            commission_rate: self.commission_rate,
            positions: self.positions_after(o),
            trades: self.trades.push(self.fill(o)),
        }
    }

    /// The books after `o` is handed in: settled when it is accepted, as
    /// they were when it is turned down.
    pub open spec fn step(self, o: OrderView) -> EngineState {
        if self.verdict(o) is None {
            self.settle(o)
        } else {
            self
        }
    }

    /// The books after a run of orders, handed in one by one.
    pub open spec fn run(self, orders: Seq<OrderView>) -> EngineState
        decreases orders.len(),
    {
        if orders.len() == 0 {
            self
        } else {
            self.run(orders.drop_last()).step(orders.last())
        }
    }
}

/// Accepting a valid order keeps the books consistent.
pub proof fn lemma_settle_valid(s: EngineState, o: OrderView)
    requires
        s.valid(),
        o.valid(),
        s.verdict(o) is None,
    ensures
        s.settle(o).valid(),
        s.settle(o).current_capital == s.current_capital + cash_effect(s.fill(o)),
{
    let n = s.settle(o);
    let t = s.fill(o);
    lemma_commission_bounded(o.price, o.quantity, s.commission_rate);
    assert(n.current_capital == s.current_capital + cash_effect(t));
    assert forall|sym: Seq<char>| #[trigger] n.positions.dom().contains(sym) implies {
        &&& n.positions[sym].symbol == sym
        &&& 0 < n.positions[sym].quantity <= u64::MAX
        &&& n.positions[sym].avg_price <= u64::MAX
    } by {
        if sym == o.symbol {
            if o.trade_type == TradeType::Buy {
                lemma_blend_bounded(s.avg_price(sym), s.held(sym), o.price, o.quantity);
            }
        } else {
            assert(s.positions.dom().contains(sym));
        }
    }
    assert forall|i: int| 0 <= i < n.trades.len() implies {
        &&& (#[trigger] n.trades[i]).price <= u64::MAX
        &&& n.trades[i].quantity <= u64::MAX
        &&& notional(n.trades[i].price, n.trades[i].quantity) <= u64::MAX
        &&& n.trades[i].commission == commission_on(
            n.trades[i].price,
            n.trades[i].quantity,
            n.commission_rate,
        )
    } by {
        if i < s.trades.len() {
            assert(n.trades[i] == s.trades[i]);
        }
    }
    assert forall|k: int| 0 <= k <= n.trades.len() implies 0 <= #[trigger] balance_after(
        n.starting_capital as int,
        n.trades,
        k,
    ) <= u64::MAX by {
        if k <= s.trades.len() {
            lemma_balance_after_push(s.starting_capital as int, s.trades, t, k);
        } else {
            lemma_balance_after_push(
                s.starting_capital as int,
                s.trades,
                t,
                s.trades.len() as int,
            );
            assert(n.trades[k - 1] == t);
        }
    }
    lemma_balance_after_push(s.starting_capital as int, s.trades, t, s.trades.len() as int);
    assert(n.trades[n.trades.len() - 1] == t);
}

/// Handing in a valid order keeps the books consistent, accepted or not.
pub proof fn lemma_step_valid(s: EngineState, o: OrderView)
    requires
        s.valid(),
        o.valid(),
    ensures
        s.step(o).valid(),
{
    if s.verdict(o) is None {
        lemma_settle_valid(s, o);
    }
}

} // verus!
