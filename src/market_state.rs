//! Per-market ledger: price, spread, inventory, PnL and the history of fills.
use vstd::prelude::*;
use crate::fixed::{abs_spec, ONE, MAX_FILL_MONEY, MAX_FILL_SIZE, MONEY_CAP};

verus! {

/// Which way a trade goes, from the point of view of whoever holds it.
#[derive(Clone, Copy, Debug, PartialEq, Eq, Structural)]
pub enum Side {
    Buy,
    Sell,
}

impl Side {
    /// +1 for a buy, -1 for a sell.
    pub open spec fn sign(self) -> int {
        match self {
            Side::Buy => 1,
            Side::Sell => -1,
        }
    }

    /// The side's name as it appears in reports: "buy" or "sell".
    pub fn as_str(&self) -> (r: &'static str)
        ensures
            *self == Side::Buy ==> r@ == "buy"@,
            *self == Side::Sell ==> r@ == "sell"@,
    {
        match self {
            Side::Buy => "buy",
            Side::Sell => "sell",
        }
    }
}

/// `size` signed by the side: positive for a buy, negative for a sell.
pub open spec fn signed_size(side: Side, size: int) -> int {
    side.sign() * size
}

/// Relies on `std::time::SystemTime::elapsed` from the Unix epoch: microseconds
/// of wall-clock time, or zero where the clock stands before the epoch.
#[verifier::external_body]
fn wall_clock_micros() -> (r: u128) {
    match std::time::UNIX_EPOCH.elapsed() {
        Ok(d) => d.as_micros(),
        Err(_) => 0,
    }
}

/// One recorded fill: side, size, price and wall-clock time in microseconds.
#[derive(Clone, Copy, Debug)]
pub struct Fill {
    pub side: Side,
    pub size: i64,
    pub price: i64,
    pub timestamp: u128,
}

impl Fill {
    /// A fill stamped with the current wall-clock time.
    pub fn new(side: Side, size: i64, price: i64) -> (r: Fill)
        ensures
            r.side == side,
            r.size == size,
            r.price == price,
    {
        let timestamp = wall_clock_micros();
        Fill { side, size, price, timestamp }
    }
}

/// Traded value of one fill: `|size| * price`.
pub open spec fn fill_value(f: Fill) -> int {
    abs_spec(f.size as int) * f.price
}

/// Sum of `|size| * price` over a sequence of fills.
pub open spec fn total_value(fills: Seq<Fill>) -> int
    decreases fills.len(),
{
    if fills.len() == 0 {
        0
    } else {
        total_value(fills.drop_last()) + fill_value(fills.last())
    }
}

/// The ledger of one market.
///
/// `mid`, `spread` and prices are in units of `ONE`; `inventory` and sizes too.
/// `exposure`, `pnl`, `peak_pnl`, `max_drawdown`, `notional` and `exposure_limit`
/// are money amounts, in units of `ONE * ONE`.
#[derive(Clone, Debug)]
pub struct MarketState {
    pub name: String,
    pub mid: i64,
    pub spread: i64,
    pub inventory: i64,
    pub exposure: i128,
    pub pnl: i128,
    pub fills: Vec<Fill>,
    pub fill_count: u64,
    pub notional: i128,
    pub max_drawdown: i128,
    pub peak_pnl: i128,
    pub inventory_limit: i64,
    pub exposure_limit: i128,
    pub fee: i128,
}

/// A copy of the reportable fields of a market.
#[derive(Clone, Debug)]
pub struct MarketSnapshot {
    pub name: String,
    pub mid: i64,
    pub spread: i64,
    pub inventory: i64,
    pub exposure: i128,
    pub pnl: i128,
    pub fill_count: u64,
    pub notional: i128,
    pub max_drawdown: i128,
}

impl MarketState {
    /// The aggregates agree with the fill history: `fill_count` is its length and
    /// `notional` the sum of `|size| * price` over it.
    pub open spec fn ledger_consistent(&self) -> bool {
        &&& self.fill_count == self.fills@.len()
        &&& self.notional == total_value(self.fills@)
    }

    /// The ledger can take `n` more fills of at most `MAX_FILL_SIZE` at prices
    /// in `[0, 1]` without leaving the ranges its integers hold.
    pub open spec fn has_room(&self, n: int) -> bool {
        &&& 0 <= n
        &&& self.fill_count + n <= u64::MAX
        &&& abs_spec(self.inventory as int) + n * MAX_FILL_SIZE <= i64::MAX
        &&& abs_spec(self.notional as int) + n * MAX_FILL_MONEY <= MONEY_CAP
        &&& abs_spec(self.pnl as int) + n * MAX_FILL_MONEY <= MONEY_CAP
        &&& abs_spec(self.peak_pnl as int) + n * MAX_FILL_MONEY <= MONEY_CAP
    }

    pub fn new(name: &str, initial_mid: i64) -> (r: MarketState)
        ensures
            r.name@ == name@,
            r.mid == initial_mid,
            r.spread == 50_000,
            r.inventory == 0,
            r.exposure == 0,
            r.pnl == 0,
            r.fills@.len() == 0,
            r.fill_count == 0,
            r.notional == 0,
            r.max_drawdown == 0,
            r.peak_pnl == 0,
            r.inventory_limit == 100 * ONE,
            r.exposure_limit == 10_000 * (ONE as int) * (ONE as int),
            r.fee == 0,
            r.ledger_consistent(),
    {
        MarketState {
            name: name.to_string(),
            mid: initial_mid,
            spread: 50_000,
            inventory: 0,
            exposure: 0,
            pnl: 0,
            fills: Vec::new(),
            fill_count: 0,
            notional: 0,
            max_drawdown: 0,
            peak_pnl: 0,
            inventory_limit: 100 * ONE,
            exposure_limit: 10_000_000_000_000_000,
            fee: 0,
        }
    }

    /// Appends a fill to the history and updates the aggregates, the inventory
    /// (up for a buy, down for a sell) and the exposure `|inventory| * mid`.
    pub fn record_fill(&mut self, side: Side, size: i64, price: i64)
        requires
            size > i64::MIN,
            old(self).fill_count < u64::MAX,
            i64::MIN <= old(self).inventory + signed_size(side, size as int) <= i64::MAX,
            i128::MIN <= old(self).notional + abs_spec(size as int) * price <= i128::MAX,
        ensures
            final(self).fills@.len() == old(self).fills@.len() + 1,
            final(self).fills@.drop_last() == old(self).fills@,
            final(self).fills@.last().side == side,
            final(self).fills@.last().size == size,
            final(self).fills@.last().price == price,
            final(self).fill_count == old(self).fill_count + 1,
            final(self).notional == old(self).notional + abs_spec(size as int) * price,
            final(self).inventory == old(self).inventory + signed_size(side, size as int),
            final(self).exposure == abs_spec(final(self).inventory as int) * old(self).mid,
            final(self).name == old(self).name,
            final(self).mid == old(self).mid,
            final(self).spread == old(self).spread,
            final(self).pnl == old(self).pnl,
            final(self).peak_pnl == old(self).peak_pnl,
            final(self).max_drawdown == old(self).max_drawdown,
            final(self).inventory_limit == old(self).inventory_limit,
            final(self).exposure_limit == old(self).exposure_limit,
            final(self).fee == old(self).fee,
            old(self).ledger_consistent() ==> final(self).ledger_consistent(),
    {
        let fill = Fill::new(side, size, price);
        self.fills.push(fill);
        self.fill_count = self.fill_count + 1;
        let abs_size: i128 = if size < 0 { -(size as i128) } else { size as i128 };
        proof {
            assert(-0x8000_0000_0000_0000 * 0x8000_0000_0000_0000 <= abs_size * (price as i128) <= 0x8000_0000_0000_0000 * 0x8000_0000_0000_0000) by (nonlinear_arith)
                requires 0 <= abs_size <= 0x8000_0000_0000_0000, -0x8000_0000_0000_0000 <= price < 0x8000_0000_0000_0000;
        }
        self.notional = self.notional + abs_size * (price as i128);
        match side {
            Side::Buy => { self.inventory = self.inventory + size; },
            Side::Sell => { self.inventory = self.inventory - size; },
        }
        let abs_inv: i128 = if self.inventory < 0 { -(self.inventory as i128) } else { self.inventory as i128 };
        proof {
            assert(abs_inv * (self.mid as i128) <= i128::MAX) by (nonlinear_arith)
                requires 0 <= abs_inv <= 0x8000_0000_0000_0000, -0x8000_0000_0000_0000 <= self.mid < 0x8000_0000_0000_0000;
            assert(abs_inv * (self.mid as i128) >= i128::MIN) by (nonlinear_arith)
                requires 0 <= abs_inv <= 0x8000_0000_0000_0000, -0x8000_0000_0000_0000 <= self.mid < 0x8000_0000_0000_0000;
        }
        self.exposure = abs_inv * (self.mid as i128);
        proof {
            assert(self.fills@.drop_last() == old(self).fills@);
        }
    }

    pub fn snapshot(&self) -> (r: MarketSnapshot)
        ensures
            r.name@ == self.name@,
            r.mid == self.mid,
            r.spread == self.spread,
            r.inventory == self.inventory,
            r.exposure == self.exposure,
            r.pnl == self.pnl,
            r.fill_count == self.fill_count,
            r.notional == self.notional,
            r.max_drawdown == self.max_drawdown,
    {
        MarketSnapshot {
            name: self.name.clone(),
            mid: self.mid,
            spread: self.spread,
            inventory: self.inventory,
            exposure: self.exposure,
            pnl: self.pnl,
            fill_count: self.fill_count,
            notional: self.notional,
            max_drawdown: self.max_drawdown,
        }
    }
}

/// Recording a fill keeps the ledger's aggregates in agreement with its history:
/// the fill count is the number of fills and the notional the exact sum of
/// `|size| * price` over them.
pub proof fn lemma_record_keeps_ledger(before: Seq<Fill>, notional: int, f: Fill)
    requires
        notional == total_value(before),
    ensures
        notional + abs_spec(f.size as int) * f.price == total_value(before.push(f)),
        before.push(f).len() == before.len() + 1,
{
    assert(before.push(f).drop_last() == before);
}

} // verus!
