//! The execution engine: cash, holdings and the trade log of one run, and the
//! one operation that changes them.
use vstd::prelude::*;
use crate::fixed::{lemma_product_fits, mul_scaled, SCALE};
use crate::ledger::{
    lemma_blend_bounded, lemma_commission_bounded, lemma_settle_valid, EngineState,
};
use crate::types::{
    trade_views, Order, OrderStatus, Position, PositionView, Rejection, Trade, TradeType,
};

verus! {

/// The holdings of a list of positions, by symbol.
pub open spec fn holdings(ps: Seq<Position>) -> Map<Seq<char>, PositionView> {
    Map::new(
        |s: Seq<char>| exists|i: int| 0 <= i < ps.len() && (#[trigger] ps[i]).symbol@ == s,
        |s: Seq<char>| ps[choose|i: int| 0 <= i < ps.len() && (#[trigger] ps[i]).symbol@ == s]@,
    )
}

/// No two positions of the list are for the same symbol.
pub open spec fn distinct_symbols(ps: Seq<Position>) -> bool {
    forall|i: int, j: int|
        0 <= i < j < ps.len() ==> (#[trigger] ps[i]).symbol@ != (#[trigger] ps[j]).symbol@
}

/// In a list without repeats, each position is the holding of its symbol.
pub proof fn lemma_holdings_lookup(ps: Seq<Position>, i: int)
    requires
        distinct_symbols(ps),
        0 <= i < ps.len(),
    ensures
        holdings(ps).dom().contains(ps[i].symbol@),
        holdings(ps)[ps[i].symbol@] == ps[i]@,
{
    let s = ps[i].symbol@;
    let j = choose|j: int| 0 <= j < ps.len() && (#[trigger] ps[j]).symbol@ == s;
    assert(j == i);
}

/// Replacing a position by one for the same symbol replaces its holding.
pub proof fn lemma_holdings_update(ps: Seq<Position>, i: int, p: Position)
    requires
        distinct_symbols(ps),
        0 <= i < ps.len(),
        p.symbol@ == ps[i].symbol@,
    ensures
        distinct_symbols(ps.update(i, p)),
        holdings(ps.update(i, p)) == holdings(ps).insert(p.symbol@, p@),
{
    let qs = ps.update(i, p);
    assert(distinct_symbols(qs)) by {
        assert forall|a: int, b: int| 0 <= a < b < qs.len() implies (#[trigger] qs[a]).symbol@
            != (#[trigger] qs[b]).symbol@ by {
            assert(ps[a].symbol@ != ps[b].symbol@);
        }
    }
    assert forall|s: Seq<char>| holdings(qs).dom().contains(s) <==> holdings(ps).insert(
        p.symbol@,
        p@,
    ).dom().contains(s) by {
        if holdings(qs).dom().contains(s) {
            let j = choose|j: int| 0 <= j < qs.len() && (#[trigger] qs[j]).symbol@ == s;
            assert(ps[j].symbol@ == s);
        }
        if holdings(ps).dom().contains(s) {
            let j = choose|j: int| 0 <= j < ps.len() && (#[trigger] ps[j]).symbol@ == s;
            assert(qs[j].symbol@ == s);
        }
        if s == p.symbol@ {
            assert(qs[i].symbol@ == s);
        }
    }
    assert forall|s: Seq<char>| holdings(qs).dom().contains(s) implies holdings(qs)[s]
        == holdings(ps).insert(p.symbol@, p@)[s] by {
        let j = choose|j: int| 0 <= j < qs.len() && (#[trigger] qs[j]).symbol@ == s;
        lemma_holdings_lookup(qs, j);
        if j != i {
            lemma_holdings_lookup(ps, j);
        }
    }
    assert(holdings(qs) =~= holdings(ps).insert(p.symbol@, p@));
}

/// Appending a position for a symbol that is not held adds its holding.
pub proof fn lemma_holdings_push(ps: Seq<Position>, p: Position)
    requires
        distinct_symbols(ps),
        !holdings(ps).dom().contains(p.symbol@),
    ensures
        distinct_symbols(ps.push(p)),
        holdings(ps.push(p)) == holdings(ps).insert(p.symbol@, p@),
{
    let qs = ps.push(p);
    assert(distinct_symbols(qs)) by {
        assert forall|a: int, b: int| 0 <= a < b < qs.len() implies (#[trigger] qs[a]).symbol@
            != (#[trigger] qs[b]).symbol@ by {
            if b < ps.len() {
                assert(ps[a].symbol@ != ps[b].symbol@);
            } else {
                assert(ps[a].symbol@ != p.symbol@);
            }
        }
    }
    assert forall|s: Seq<char>| holdings(qs).dom().contains(s) <==> holdings(ps).insert(
        p.symbol@,
        p@,
    ).dom().contains(s) by {
        if holdings(qs).dom().contains(s) {
            let j = choose|j: int| 0 <= j < qs.len() && (#[trigger] qs[j]).symbol@ == s;
            if j < ps.len() {
                assert(ps[j].symbol@ == s);
            }
        }
        if holdings(ps).dom().contains(s) {
            let j = choose|j: int| 0 <= j < ps.len() && (#[trigger] ps[j]).symbol@ == s;
            assert(qs[j].symbol@ == s);
        }
        if s == p.symbol@ {
            assert(qs[ps.len() as int].symbol@ == s);
        }
    }
    assert forall|s: Seq<char>| holdings(qs).dom().contains(s) implies holdings(qs)[s]
        == holdings(ps).insert(p.symbol@, p@)[s] by {
        let j = choose|j: int| 0 <= j < qs.len() && (#[trigger] qs[j]).symbol@ == s;
        lemma_holdings_lookup(qs, j);
        if j < ps.len() {
            lemma_holdings_lookup(ps, j);
        }
    }
    assert(holdings(qs) =~= holdings(ps).insert(p.symbol@, p@));
}

/// Taking a position out of the list closes its holding.
pub proof fn lemma_holdings_remove(ps: Seq<Position>, i: int)
    requires
        distinct_symbols(ps),
        0 <= i < ps.len(),
    ensures
        distinct_symbols(ps.remove(i)),
        holdings(ps.remove(i)) == holdings(ps).remove(ps[i].symbol@),
{
    let qs = ps.remove(i);
    let gone = ps[i].symbol@;
    assert forall|a: int| 0 <= a < qs.len() implies (#[trigger] qs[a]) == ps[if a < i {
        a
    } else {
        a + 1
    }] by {}
    assert(distinct_symbols(qs)) by {
        assert forall|a: int, b: int| 0 <= a < b < qs.len() implies (#[trigger] qs[a]).symbol@
            != (#[trigger] qs[b]).symbol@ by {
            let a2 = if a < i { a } else { a + 1 };
            let b2 = if b < i { b } else { b + 1 };
            assert(ps[a2].symbol@ != ps[b2].symbol@);
        }
    }
    assert forall|s: Seq<char>| holdings(qs).dom().contains(s) <==> holdings(ps).remove(
        gone,
    ).dom().contains(s) by {
        if holdings(qs).dom().contains(s) {
            let j = choose|j: int| 0 <= j < qs.len() && (#[trigger] qs[j]).symbol@ == s;
            let j2 = if j < i { j } else { j + 1 };
            assert(ps[j2].symbol@ == s);
            if j2 < i {
                assert(ps[j2].symbol@ != ps[i].symbol@);
            } else {
                assert(ps[i].symbol@ != ps[j2].symbol@);
            }
        }
        if holdings(ps).dom().contains(s) && s != gone {
            let j = choose|j: int| 0 <= j < ps.len() && (#[trigger] ps[j]).symbol@ == s;
            let j2 = if j < i { j } else { j - 1 };
            assert(qs[j2].symbol@ == s);
        }
    }
    assert forall|s: Seq<char>| holdings(qs).dom().contains(s) implies holdings(qs)[s]
        == holdings(ps).remove(gone)[s] by {
        let j = choose|j: int| 0 <= j < qs.len() && (#[trigger] qs[j]).symbol@ == s;
        let j2 = if j < i { j } else { j + 1 };
        lemma_holdings_lookup(qs, j);
        lemma_holdings_lookup(ps, j2);
    }
    assert(holdings(qs) =~= holdings(ps).remove(gone));
}

/// The execution engine of one run.
pub struct BacktestEngine {
    capital: u64,
    positions: Vec<Position>,
    trades: Vec<Trade>,
    current_capital: u64,
    commission_rate: u64,
}

impl View for BacktestEngine {
    type V = EngineState;

    closed spec fn view(&self) -> EngineState {
        EngineState {
            starting_capital: self.capital as nat,
            current_capital: self.current_capital as nat,
            commission_rate: self.commission_rate as nat,
            positions: holdings(self.positions@),
            trades: trade_views(self.trades@),
        }
    }
}

impl BacktestEngine {
    /// The engine keeps one position per symbol, and consistent books.
    pub closed spec fn wf(&self) -> bool {
        &&& distinct_symbols(self.positions@)
        &&& self@.valid()
    }

    /// The trade log, as the engine holds it.
    pub closed spec fn log(&self) -> Seq<Trade> {
        self.trades@
    }

    /// A well-formed engine has consistent books, and its log is the one its
    /// books show.
    pub proof fn lemma_wf(&self)
        requires
            self.wf(),
        ensures
            self@.valid(),
            self@.trades == trade_views(self.log()),
    {
    }

    /// Creates an engine with `initial_capital` in cash, no holdings and an
    /// empty log, that charges `commission_rate` of the notional per trade.
    pub fn new(initial_capital: u64, commission_rate: u64) -> (r: BacktestEngine)
        requires
            initial_capital > 0,
            commission_rate < SCALE,
        ensures
            r.wf(),
            r@ == EngineState::fresh(initial_capital as nat, commission_rate as nat),
    {
        let r = BacktestEngine {
            capital: initial_capital,
            current_capital: initial_capital,
            positions: Vec::new(),
            trades: Vec::new(),
            commission_rate,
        };
        assert(r@.positions =~= Map::empty());
        assert(r@.trades =~= Seq::empty());
        r
    }

    /// The cash the run started with.
    pub fn capital(&self) -> (r: u64)
        ensures
            r == self@.starting_capital,
    {
        self.capital
    }

    /// The cash at hand.
    pub fn current_capital(&self) -> (r: u64)
        ensures
            r == self@.current_capital,
    {
        self.current_capital
    }

    /// The commission rate.
    pub fn commission_rate(&self) -> (r: u64)
        ensures
            r == self@.commission_rate,
    {
        self.commission_rate
    }

    /// The trade log, oldest first.
    pub fn trades(&self) -> (r: &Vec<Trade>)
        ensures
            r@ == self.log(),
            trade_views(r@) == self@.trades,
    {
        &self.trades
    }

    /// Where the position for `symbol` stands in the list, if it is held.
    fn find(&self, symbol: &String) -> (r: Option<usize>)
        requires
            self.wf(),
        ensures
            match r {
                Some(i) => i < self.positions@.len() && self.positions@[i as int].symbol@
                    == symbol@ && self@.holds(symbol@) && self@.positions[symbol@]
                    == self.positions@[i as int]@,
                None => !self@.holds(symbol@),
            },
    {
        let mut i: usize = 0;
        while i < self.positions.len()
            invariant
                i <= self.positions@.len(),
                distinct_symbols(self.positions@),
                forall|j: int| 0 <= j < i ==> (#[trigger] self.positions@[j]).symbol@ != symbol@,
            decreases self.positions@.len() - i,
        {
            if self.positions[i].symbol == *symbol {
                proof {
                    lemma_holdings_lookup(self.positions@, i as int);
                }
                return Some(i);
            }
            i += 1;
        }
        None
    }

    /// The holding of `symbol`, if there is one.
    pub fn position(&self, symbol: &str) -> (r: Option<&Position>)
        requires
            self.wf(),
        ensures
            match r {
                Some(p) => self@.holds(symbol@) && p@ == self@.positions[symbol@],
                None => !self@.holds(symbol@),
            },
    {
        let wanted = symbol.to_owned();
        match self.find(&wanted) {
            Some(i) => Some(&self.positions[i]),
            None => None,
        }
    }

    /// Hands one order to the engine. The order is accepted, applied and
    /// logged, or turned down with the books left exactly as they were.
    ///
    /// The commission is the rate times the notional. A buy must be covered
    /// by the cash, commission included; it opens the position or adds to it
    /// at the blended average price. A sell must be of a held symbol and of
    /// no more than is held; it adds the notional less the commission to the
    /// cash and closes the position when nothing is left of it.
    pub fn process_order(&mut self, order: Order) -> (r: Result<Trade, Rejection>)
        requires
            old(self).wf(),
            order@.valid(),
        ensures
            final(self).wf(),
            final(self)@ == old(self)@.step(order@),
            match r {
                Ok(t) => old(self)@.verdict(order@) is None && t@ == old(self)@.fill(order@)
                    && final(self).log() == old(self).log().push(t),
                Err(e) => old(self)@.verdict(order@) == Some(e) && *final(self) == *old(self),
            },
    {
        if order.status != OrderStatus::Pending {
            return Err(Rejection::NotPending);
        }
        let ghost before = self@;
        let ghost o = order@;
        let notional: u128 = mul_scaled(order.price, order.quantity);
        proof {
            lemma_product_fits(order.price, order.quantity);
            lemma_commission_bounded(o.price, o.quantity, before.commission_rate);
        }
        let found = self.find(&order.symbol);
        let commission: u64;
        match order.trade_type {
            TradeType::Buy => {
                if notional > self.current_capital as u128 {
                    return Err(Rejection::InsufficientCapital);
                }
                assert(notional * self.commission_rate <= 0xffff_ffff_ffff_ffff * 1_000_000)
                    by (nonlinear_arith)
                    requires
                        0 <= notional <= 0xffff_ffff_ffff_ffff,
                        0 <= self.commission_rate <= 1_000_000,
                ;
                let fee: u128 = (notional * (self.commission_rate as u128)) / (SCALE as u128);
                let cost: u128 = notional + fee;
                if cost > self.current_capital as u128 {
                    return Err(Rejection::InsufficientCapital);
                }
                match found {
                    Some(i) => {
                        let held = self.positions[i].quantity;
                        let avg = self.positions[i].avg_price;
                        if held > u64::MAX - order.quantity {
                            return Err(Rejection::OutOfRange);
                        }
                        proof {
                            lemma_product_fits(avg, held);
                            assert(avg * held + order.price * order.quantity
                                <= 0xffff_ffff_ffff_ffff * 0xffff_ffff_ffff_ffff)
                                by (nonlinear_arith)
                                requires
                                    0 <= avg <= 0xffff_ffff_ffff_ffff,
                                    0 <= order.price <= 0xffff_ffff_ffff_ffff,
                                    0 <= held,
                                    0 <= order.quantity,
                                    held + order.quantity <= 0xffff_ffff_ffff_ffff,
                            ;
                            lemma_blend_bounded(
                                avg as nat,
                                held as nat,
                                o.price,
                                o.quantity,
                            );
                        }
                        let total: u128 = (avg as u128) * (held as u128) + (order.price as u128)
                            * (order.quantity as u128);
                        let blended: u128 = total / ((held as u128) + (order.quantity as u128));
                        let p = Position {
                            symbol: order.symbol.clone(),
                            quantity: held + order.quantity,
                            avg_price: blended as u64,
                        };
                        proof {
                            lemma_holdings_update(self.positions@, i as int, p);
                        }
                        self.positions.set(i, p);
                    },
                    None => {
                        let p = Position {
                            symbol: order.symbol.clone(),
                            quantity: order.quantity,
                            avg_price: order.price,
                        };
                        proof {
                            lemma_blend_bounded(0, 0, o.price, o.quantity);
                            lemma_holdings_push(self.positions@, p);
                        }
                        self.positions.push(p);
                    },
                }
                self.current_capital = self.current_capital - (cost as u64);
                commission = fee as u64;
            },
            TradeType::Sell => {
                let i = match found {
                    Some(i) => i,
                    None => {
                        return Err(Rejection::NoPosition);
                    },
                };
                let held = self.positions[i].quantity;
                let avg = self.positions[i].avg_price;
                if held < order.quantity {
                    return Err(Rejection::InsufficientPosition);
                }
                if notional > u64::MAX as u128 {
                    return Err(Rejection::OutOfRange);
                }
                assert(notional * self.commission_rate <= 0xffff_ffff_ffff_ffff * 1_000_000)
                    by (nonlinear_arith)
                    requires
                        0 <= notional <= 0xffff_ffff_ffff_ffff,
                        0 <= self.commission_rate <= 1_000_000,
                ;
                let fee: u128 = (notional * (self.commission_rate as u128)) / (SCALE as u128);
                let revenue: u128 = notional - fee;
                if revenue > (u64::MAX - self.current_capital) as u128 {
                    return Err(Rejection::OutOfRange);
                }
                if held == order.quantity {
                    proof {
                        lemma_holdings_remove(self.positions@, i as int);
                    }
                    self.positions.remove(i);
                } else {
                    let p = Position {
                        symbol: order.symbol.clone(),
                        quantity: held - order.quantity,
                        avg_price: avg,
                    };
                    proof {
                        lemma_holdings_update(self.positions@, i as int, p);
                    }
                    self.positions.set(i, p);
                }
                self.current_capital = self.current_capital + (revenue as u64);
                commission = fee as u64;
            },
        }
        let trade = Trade {
            symbol: order.symbol,
            trade_type: order.trade_type,
            price: order.price,
            quantity: order.quantity,
            timestamp: order.timestamp,
            commission,
        };
        self.trades.push(trade.clone());
        proof {
            assert(trade@ == before.fill(o));
            assert(self@.trades =~= before.trades.push(trade@));
            assert(self@.positions =~= before.positions_after(o));
            lemma_settle_valid(before, o);
            assert(self@ == before.settle(o));
        }
        Ok(trade)
    }
}

} // verus!
