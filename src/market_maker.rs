//! The quoting and fill-matching strategy of one market.
use vstd::prelude::*;
use std::collections::VecDeque;
use crate::fixed::{
    abs_spec, clamp_spec, clamp_wide, div_trunc, div_toward_zero, ONE, MAX_FILL_MONEY,
    MAX_FILL_SIZE, MID_CEIL, MID_FLOOR,
};
use crate::market_state::{MarketState, Side, signed_size};

verus! {

/// Largest `window_size` a configuration may ask for.
pub const MAX_WINDOW: usize = 1_000_000;

/// Quoting parameters. Spreads are prices (units of `ONE`); `inventory_skew` is
/// the price shift per contract held, in units of `ONE`.
#[derive(Clone, Copy, Debug)]
pub struct MarketMakerConfig {
    pub window_size: usize,
    pub base_spread: i64,
    pub min_spread: i64,
    pub max_spread: i64,
    pub inventory_skew: i64,
}

impl MarketMakerConfig {
    /// Parameters within the ranges the quoting arithmetic is proved for.
    pub open spec fn valid(&self) -> bool {
        &&& self.window_size <= MAX_WINDOW
        &&& 0 <= self.min_spread <= self.max_spread <= ONE
        &&& 0 <= self.base_spread <= ONE
        &&& 0 <= self.inventory_skew <= ONE
    }

    /// How many flow entries the imbalance window keeps: `max(4 * window_size, 100)`.
    pub open spec fn capacity(&self) -> int {
        if 4 * self.window_size > 100 { 4 * self.window_size } else { 100 }
    }
}

impl Default for MarketMakerConfig {
    fn default() -> (r: Self)
        ensures
            r.window_size == 20,
            r.base_spread == 50_000,
            r.min_spread == 10_000,
            r.max_spread == 500_000,
            r.inventory_skew == 1_000,
    {
        MarketMakerConfig {
            window_size: 20,
            base_spread: 50_000,
            min_spread: 10_000,
            max_spread: 500_000,
            inventory_skew: 1_000,
        }
    }
}

/// An incoming taker order.
#[derive(Clone, Copy, Debug, PartialEq, Eq, Structural)]
pub struct Order {
    pub side: Side,
    pub size: i64,
    pub price: i64,
}

/// A fill from the maker's point of view: the side the maker traded on.
#[derive(Clone, Copy, Debug, PartialEq, Eq, Structural)]
pub struct FillResult {
    pub side: Side,
    pub size: i64,
    pub price: i64,
}

pub struct MarketMaker {
    pub config: MarketMakerConfig,
    pub imbalance_window: VecDeque<i64>,
}

/// Sum of the last `k` entries of `w` (all of them where there are fewer).
pub open spec fn recent_sum(w: Seq<i64>, k: nat) -> int
    decreases w.len(),
{
    if k == 0 || w.len() == 0 {
        0
    } else {
        w.last() + recent_sum(w.drop_last(), (k - 1) as nat)
    }
}

/// `base * (1 + |imbalance| / 10 + |inventory| * skew)`, clamped to `[min, max]`.
pub open spec fn adaptive_spread(cfg: MarketMakerConfig, w: Seq<i64>, inventory: int) -> int {
    let imb = abs_spec(recent_sum(w, cfg.window_size as nat));
    let unit = 10 * (ONE as int) * (ONE as int);
    let factor = unit + imb * ONE + 10 * abs_spec(inventory) * cfg.inventory_skew;
    clamp_spec(cfg.base_spread * factor / unit, cfg.min_spread as int, cfg.max_spread as int)
}

/// `mid - inventory * skew`, clamped to `[0.01, 0.99]`.
pub open spec fn shaded_mid(cfg: MarketMakerConfig, mid: int, inventory: int) -> int {
    clamp_spec(
        mid - div_trunc(inventory * cfg.inventory_skew, ONE as int),
        MID_FLOOR as int,
        MID_CEIL as int,
    )
}

pub open spec fn quote_bid(cfg: MarketMakerConfig, w: Seq<i64>, mid: int, inventory: int) -> int {
    let b = shaded_mid(cfg, mid, inventory) - adaptive_spread(cfg, w, inventory) / 2;
    if b < 0 { 0 } else { b }
}

pub open spec fn quote_ask(cfg: MarketMakerConfig, w: Seq<i64>, mid: int, inventory: int) -> int {
    let a = shaded_mid(cfg, mid, inventory) + adaptive_spread(cfg, w, inventory) / 2;
    if a > ONE { ONE as int } else { a }
}

/// `10 - |inventory| / 10`, clamped to `[1, 20]`.
pub open spec fn quote_size(inventory: int) -> int {
    clamp_spec(10 * ONE - abs_spec(inventory) / 10, ONE as int, 20 * ONE)
}

/// The window after appending `delta`, keeping only the newest `capacity` entries.
pub open spec fn window_after(cfg: MarketMakerConfig, w: Seq<i64>, delta: int) -> Seq<i64> {
    let pushed = w.push(delta as i64);
    if pushed.len() > cfg.capacity() {
        pushed.subrange(pushed.len() - cfg.capacity(), pushed.len() as int)
    } else {
        pushed
    }
}

/// Price impact of a signed flow: `0.05 * delta / (10 + |delta|)`, rounded toward zero.
pub open spec fn flow_adjustment(delta: int) -> int {
    div_trunc(50_000 * delta, 10 * ONE + abs_spec(delta))
}

/// The mid after one fill of signed flow `delta`, given the inventory after the fill:
/// the flow adjustment, then a corrective 0.05 against the position when
/// `|inventory| > 0.8 * limit`, each clamped to `[0.01, 0.99]`.
pub open spec fn mid_after_fill(mid: int, inventory: int, limit: int, delta: int) -> int {
    let m1 = clamp_spec(mid + flow_adjustment(delta), MID_FLOOR as int, MID_CEIL as int);
    if 5 * abs_spec(inventory) > 4 * limit {
        let correction: int = if inventory > 0 { -50_000 } else { 50_000 };
        clamp_spec(m1 + correction, MID_FLOOR as int, MID_CEIL as int)
    } else {
        m1
    }
}

impl MarketState {
    /// The same state with its mid replaced.
    pub open spec fn with_mid(self, mid: int) -> MarketState {
        MarketState { mid: mid as i64, ..self }
    }
}

/// The fill an order produces against the quote, if it crosses: a buy at or above
/// the ask is sold to at the ask; a sell at or below the bid is bought from at the bid.
pub open spec fn match_order(o: Order, bid: int, ask: int) -> Option<FillResult> {
    match o.side {
        Side::Buy => if o.price >= ask {
            Some(FillResult { side: Side::Sell, size: o.size, price: ask as i64 })
        } else {
            None
        },
        Side::Sell => if o.price <= bid {
            Some(FillResult { side: Side::Buy, size: o.size, price: bid as i64 })
        } else {
            None
        },
    }
}

/// The fills that `orders` produce against one quote, in order.
pub open spec fn matched_fills(orders: Seq<Order>, bid: int, ask: int) -> Seq<FillResult>
    decreases orders.len(),
{
    if orders.len() == 0 {
        seq![]
    } else {
        let prev = matched_fills(orders.drop_last(), bid, ask);
        match match_order(orders.last(), bid, ask) {
            Some(f) => prev.push(f),
            None => prev,
        }
    }
}

/// Net signed size of a sequence of fills (buys positive).
pub open spec fn net_flow(fills: Seq<FillResult>) -> int
    decreases fills.len(),
{
    if fills.len() == 0 {
        0
    } else {
        net_flow(fills.drop_last()) + signed_size(fills.last().side, fills.last().size as int)
    }
}

/// Sum of `|size| * price` over a sequence of fills.
pub open spec fn traded_value(fills: Seq<FillResult>) -> int
    decreases fills.len(),
{
    if fills.len() == 0 {
        0
    } else {
        traded_value(fills.drop_last()) + abs_spec(fills.last().size as int) * fills.last().price
    }
}

/// The mid after applying `fills` one by one, from `mid` and inventory `inventory`.
pub open spec fn mid_after_fills(mid: int, inventory: int, limit: int, fills: Seq<FillResult>) -> int
    decreases fills.len(),
{
    if fills.len() == 0 {
        mid
    } else {
        mid_after_fill(
            mid_after_fills(mid, inventory, limit, fills.drop_last()),
            inventory + net_flow(fills),
            limit,
            signed_size(fills.last().side, fills.last().size as int),
        )
    }
}

/// The imbalance window after applying `fills` one by one.
pub open spec fn window_after_fills(cfg: MarketMakerConfig, w: Seq<i64>, fills: Seq<FillResult>) -> Seq<i64>
    decreases fills.len(),
{
    if fills.len() == 0 {
        w
    } else {
        window_after(
            cfg,
            window_after_fills(cfg, w, fills.drop_last()),
            signed_size(fills.last().side, fills.last().size as int),
        )
    }
}

/// Every order is marketable: a buy at 1.0 or a sell at 0.0.
pub open spec fn all_marketable(orders: Seq<Order>) -> bool {
    forall|i: int|
        0 <= i < orders.len() ==> #[trigger] orders[i].side == Side::Buy && orders[i].price == ONE
            || orders[i].side == Side::Sell && orders[i].price == 0
}

/// Every order's size is within `MAX_FILL_SIZE`.
pub open spec fn sizes_bounded(orders: Seq<Order>) -> bool {
    forall|i: int| 0 <= i < orders.len() ==> -MAX_FILL_SIZE <= #[trigger] orders[i].size <= MAX_FILL_SIZE
}

/// Every fill has a size within `MAX_FILL_SIZE` and a price in `[0, 1]`.
pub open spec fn fills_bounded(fills: Seq<FillResult>) -> bool {
    forall|i: int|
        0 <= i < fills.len() ==> -MAX_FILL_SIZE <= #[trigger] fills[i].size <= MAX_FILL_SIZE
            && 0 <= fills[i].price <= ONE
}

/// A quote from a valid configuration lies in `[0, 1]`, with the bid not above the
/// ask, and its spread within `[min_spread, max_spread]`.
pub proof fn lemma_quote_in_unit(cfg: MarketMakerConfig, w: Seq<i64>, mid: int, inventory: int)
    requires
        cfg.valid(),
    ensures
        0 <= quote_bid(cfg, w, mid, inventory) <= quote_ask(cfg, w, mid, inventory) <= ONE,
        cfg.min_spread <= adaptive_spread(cfg, w, inventory) <= cfg.max_spread,
        ONE <= quote_size(inventory) <= 20 * ONE,
{
}

/// Quoting twice with nothing in between gives the same quote: the quote reads
/// only the mid, the inventory and the window, and the first quote changes only
/// the spread, which the second writes back unchanged.
pub proof fn lemma_quote_idempotent(cfg: MarketMakerConfig, w: Seq<i64>, s: MarketState)
    requires
        cfg.valid(),
    ensures
        ({
            let s1 = s.with_spread(adaptive_spread(cfg, w, s.inventory as int));
            &&& quote_bid(cfg, w, s1.mid as int, s1.inventory as int) == quote_bid(cfg, w, s.mid as int, s.inventory as int)
            &&& quote_ask(cfg, w, s1.mid as int, s1.inventory as int) == quote_ask(cfg, w, s.mid as int, s.inventory as int)
            &&& quote_size(s1.inventory as int) == quote_size(s.inventory as int)
            &&& s1.with_spread(adaptive_spread(cfg, w, s1.inventory as int)) == s1
        }),
{
    lemma_quote_in_unit(cfg, w, s.mid as int, s.inventory as int);
}

/// The flow adjustment of one fill is less than 0.05 in magnitude.
pub proof fn lemma_flow_adjustment_bounded(delta: int)
    ensures
        -50_000 < flow_adjustment(delta) < 50_000,
{
    let den = 10 * ONE + abs_spec(delta);
    if delta >= 0 {
        assert(50_000 * delta / den < 50_000) by (nonlinear_arith)
            requires delta >= 0, den == 10_000_000 + delta;
        assert(50_000 * delta / den >= 0) by (nonlinear_arith)
            requires delta >= 0, den == 10_000_000 + delta;
    } else {
        assert((-(50_000 * delta)) / den < 50_000) by (nonlinear_arith)
            requires delta < 0, den == 10_000_000 - delta;
        assert((-(50_000 * delta)) / den >= 0) by (nonlinear_arith)
            requires delta < 0, den == 10_000_000 - delta;
    }
}

/// Whatever the mid, inventory and flow, a fill leaves the mid in `[0.01, 0.99]`.
pub proof fn lemma_fill_keeps_mid_in_bounds(mid: int, inventory: int, limit: int, delta: int)
    ensures
        MID_FLOOR <= mid_after_fill(mid, inventory, limit, delta) <= MID_CEIL,
{
}

/// When the inventory after a fill is long beyond `0.8 * limit`, the mid ends 0.05
/// below where the flow adjustment alone puts it (as long as that is at least
/// 0.06, so the floor does not cut the drop short); from a mid in `[0.01, 0.99]`
/// this is a net drop, since the flow moves the mid by less than 0.05. A short
/// position beyond the threshold is nudged up the same way.
pub proof fn lemma_corrective_nudge(mid: int, inventory: int, limit: int, delta: int)
    requires
        5 * abs_spec(inventory) > 4 * limit,
    ensures
        ({
            let m1 = clamp_spec(mid + flow_adjustment(delta), MID_FLOOR as int, MID_CEIL as int);
            &&& inventory > 0 && m1 >= MID_FLOOR + 50_000 ==> mid_after_fill(mid, inventory, limit, delta)
                == m1 - 50_000
            &&& inventory > 0 && m1 >= MID_FLOOR + 50_000 && MID_FLOOR <= mid <= MID_CEIL
                ==> mid_after_fill(mid, inventory, limit, delta) < mid
            &&& inventory <= 0 && m1 <= MID_CEIL - 50_000 ==> mid_after_fill(mid, inventory, limit, delta)
                == m1 + 50_000
        }),
{
    lemma_flow_adjustment_bounded(delta);
}

/// Against a quote in `[0, 1]`, marketable orders fill one for one and in order:
/// the maker sells each buy at the ask and buys each sell at the bid, at the
/// order's size.
pub proof fn lemma_marketable_orders_match(orders: Seq<Order>, bid: int, ask: int)
    requires
        all_marketable(orders),
        0 <= bid,
        ask <= ONE,
    ensures
        matched_fills(orders, bid, ask).len() == orders.len(),
        forall|i: int| 0 <= i < orders.len() ==> {
            &&& (#[trigger] matched_fills(orders, bid, ask)[i]).size == orders[i].size
            &&& orders[i].side == Side::Buy ==> matched_fills(orders, bid, ask)[i].side == Side::Sell
                && matched_fills(orders, bid, ask)[i].price == ask as i64
            &&& orders[i].side == Side::Sell ==> matched_fills(orders, bid, ask)[i].side == Side::Buy
                && matched_fills(orders, bid, ask)[i].price == bid as i64
        },
    decreases orders.len(),
{
    lemma_marketable_orders_fill(orders, bid, ask);
    if orders.len() > 0 {
        let prev = orders.drop_last();
        assert forall|i: int| 0 <= i < prev.len() implies #[trigger] prev[i].side == Side::Buy && prev[i].price
            == ONE || prev[i].side == Side::Sell && prev[i].price == 0 by {
            assert(prev[i] == orders[i]);
        }
        lemma_marketable_orders_match(prev, bid, ask);
        let fills = matched_fills(orders, bid, ask);
        assert(orders.last() == orders[orders.len() - 1]);
        assert forall|i: int| 0 <= i < orders.len() implies {
            &&& (#[trigger] matched_fills(orders, bid, ask)[i]).size == orders[i].size
            &&& orders[i].side == Side::Buy ==> matched_fills(orders, bid, ask)[i].side == Side::Sell
                && matched_fills(orders, bid, ask)[i].price == ask as i64
            &&& orders[i].side == Side::Sell ==> matched_fills(orders, bid, ask)[i].side == Side::Buy
                && matched_fills(orders, bid, ask)[i].price == bid as i64
        } by {
            if i < prev.len() {
                assert(prev[i] == orders[i]);
                assert(fills[i] == matched_fills(prev, bid, ask)[i]);
            }
        }
    }
}

/// Against a quote in `[0, 1]`, marketable orders all fill, one fill per order.
pub proof fn lemma_marketable_orders_fill(orders: Seq<Order>, bid: int, ask: int)
    requires
        all_marketable(orders),
        0 <= bid,
        ask <= ONE,
    ensures
        matched_fills(orders, bid, ask).len() == orders.len(),
    decreases orders.len(),
{
    if orders.len() > 0 {
        assert forall|i: int| 0 <= i < orders.drop_last().len() implies #[trigger] orders.drop_last()[i].side
            == Side::Buy && orders.drop_last()[i].price == ONE || orders.drop_last()[i].side == Side::Sell
            && orders.drop_last()[i].price == 0 by {
            assert(orders.drop_last()[i] == orders[i]);
        }
        lemma_marketable_orders_fill(orders.drop_last(), bid, ask);
        assert(orders.last() == orders[orders.len() - 1]);
    }
}

/// Fills matched from orders of bounded size against a quote in `[0, 1]` are
/// bounded, and there are no more of them than orders.
pub proof fn lemma_matched_fills_bounded(orders: Seq<Order>, bid: int, ask: int)
    requires
        sizes_bounded(orders),
        0 <= bid <= ONE,
        0 <= ask <= ONE,
    ensures
        fills_bounded(matched_fills(orders, bid, ask)),
        matched_fills(orders, bid, ask).len() <= orders.len(),
    decreases orders.len(),
{
    if orders.len() > 0 {
        assert forall|i: int| 0 <= i < orders.drop_last().len() implies -MAX_FILL_SIZE
            <= #[trigger] orders.drop_last()[i].size <= MAX_FILL_SIZE by {
            assert(orders.drop_last()[i] == orders[i]);
        }
        lemma_matched_fills_bounded(orders.drop_last(), bid, ask);
        assert(orders.last() == orders[orders.len() - 1]);
    }
}

/// Applying one more fill: how the running sums over a prefix of `fills` grow.
proof fn lemma_prefix_step(fills: Seq<FillResult>, j: int)
    requires
        0 <= j < fills.len(),
    ensures
        fills.subrange(0, j + 1).drop_last() == fills.subrange(0, j),
        fills.subrange(0, j + 1).last() == fills[j],
{
    assert(fills.subrange(0, j + 1).drop_last() == fills.subrange(0, j));
}

fn abs_wide(x: i64) -> (r: i128)
    ensures
        r == abs_spec(x as int),
{
    if x < 0 { -(x as i128) } else { x as i128 }
}

impl MarketState {
    /// The same state with its spread replaced.
    pub open spec fn with_spread(self, spread: int) -> MarketState {
        MarketState { spread: spread as i64, ..self }
    }
}

impl MarketMaker {
    /// The configuration is valid, the window holds at most `capacity` entries,
    /// and each entry is a fill size within `MAX_FILL_SIZE`.
    pub open spec fn valid(&self) -> bool {
        &&& self.config.valid()
        &&& self.imbalance_window@.len() <= self.config.capacity()
        &&& forall|j: int|
            0 <= j < self.imbalance_window@.len() ==> -MAX_FILL_SIZE <= #[trigger] self.imbalance_window@[j]
                <= MAX_FILL_SIZE
    }

    /// A maker for `state`, with `config` (or the default) and its base spread
    /// taken from the market's current spread; the window starts empty.
    pub fn new(state: &MarketState, config: Option<MarketMakerConfig>) -> (r: MarketMaker)
        ensures
            r.config.base_spread == state.spread,
            config.is_some() ==> r.config == (MarketMakerConfig {
                base_spread: state.spread,
                ..config.unwrap()
            }),
            config.is_none() ==> r.config == (MarketMakerConfig {
                window_size: 20,
                base_spread: state.spread,
                min_spread: 10_000,
                max_spread: 500_000,
                inventory_skew: 1_000,
            }),
            r.imbalance_window@.len() == 0,
    {
        let mut cfg = match config {
            Some(c) => c,
            None => MarketMakerConfig::default(),
        };
        cfg.base_spread = state.spread;
        MarketMaker { config: cfg, imbalance_window: VecDeque::new() }
    }

    fn imbalance(&self) -> (r: i128)
        requires
            self.valid(),
        ensures
            r == recent_sum(self.imbalance_window@, self.config.window_size as nat),
            -(MAX_WINDOW as int) * MAX_FILL_SIZE <= r <= (MAX_WINDOW as int) * MAX_FILL_SIZE,
    {
        let ghost w = self.imbalance_window@;
        let ghost k = self.config.window_size as nat;
        let n = self.imbalance_window.len();
        let mut sum: i128 = 0;
        let mut taken: usize = 0;
        let mut i: usize = n;
        assert(w.subrange(0, n as int) == w);
        while i > 0 && taken < self.config.window_size
            invariant
                self.valid(),
                w == self.imbalance_window@,
                n == w.len(),
                k == self.config.window_size,
                i <= n,
                taken == n - i,
                taken <= k,
                -(taken as int) * MAX_FILL_SIZE <= sum <= (taken as int) * MAX_FILL_SIZE,
                recent_sum(w, k) == sum + recent_sum(w.subrange(0, i as int), (k - taken) as nat),
            decreases i,
        {
            let x = self.imbalance_window[i - 1];
            proof {
                let pre = w.subrange(0, i as int);
                assert(pre.drop_last() == w.subrange(0, i - 1));
                assert(pre.last() == x);
            }
            sum = sum + x as i128;
            i = i - 1;
            taken = taken + 1;
        }
        sum
    }

    /// The current two-sided quote `(bid, ask, size)`. Writes the adaptive spread
    /// into `state.spread`; nothing else of the state or of the maker changes.
    pub fn quote(&mut self, state: &mut MarketState) -> (r: (i64, i64, i64))
        requires
            old(self).valid(),
        ensures
            final(self).config == old(self).config,
            final(self).imbalance_window@ == old(self).imbalance_window@,
            r.0 == quote_bid(old(self).config, old(self).imbalance_window@, old(state).mid as int,
                old(state).inventory as int),
            r.1 == quote_ask(old(self).config, old(self).imbalance_window@, old(state).mid as int,
                old(state).inventory as int),
            r.2 == quote_size(old(state).inventory as int),
            *final(state) == old(state).with_spread(
                adaptive_spread(old(self).config, old(self).imbalance_window@, old(state).inventory as int),
            ),
    {
        let cfg = self.config;
        let imb_signed = self.imbalance();
        let imb: i128 = if imb_signed < 0 { -imb_signed } else { imb_signed };
        let inv_abs = abs_wide(state.inventory);
        let unit: i128 = 10 * (ONE as i128) * (ONE as i128);
        proof {
            assert(0 <= inv_abs * 10 * (cfg.inventory_skew as i128) <= 0x8000_0000_0000_0000 * 10 * 1_000_000) by (nonlinear_arith)
                requires 0 <= inv_abs <= 0x8000_0000_0000_0000, 0 <= cfg.inventory_skew <= 1_000_000;
            assert(0 <= imb * (ONE as i128) <= 1_000_000_000_000_000_000 * 1_000_000) by (nonlinear_arith)
                requires 0 <= imb <= 1_000_000_000_000_000_000;
        }
        let factor: i128 = unit + imb * (ONE as i128) + 10 * inv_abs * (cfg.inventory_skew as i128);
        proof {
            assert(0 <= (cfg.base_spread as i128) * factor <= 1_000_000 * 0x1_0000_0000_0000_0000_0000_0000) by (nonlinear_arith)
                requires 0 <= factor <= 0x1_0000_0000_0000_0000_0000_0000, 0 <= cfg.base_spread <= 1_000_000;
        }
        let raw: i128 = (cfg.base_spread as i128) * factor / unit;
        let spread = clamp_wide(raw, cfg.min_spread as i128, cfg.max_spread as i128) as i64;

        proof {
            assert(-0x8000_0000_0000_0000 * 1_000_000 <= (state.inventory as i128) * (cfg.inventory_skew as i128) <= 0x8000_0000_0000_0000 * 1_000_000) by (nonlinear_arith)
                requires -0x8000_0000_0000_0000 <= state.inventory < 0x8000_0000_0000_0000, 0 <= cfg.inventory_skew <= 1_000_000;
        }
        let skew = div_toward_zero((state.inventory as i128) * (cfg.inventory_skew as i128), ONE as i128);
        let mid_shaded = clamp_wide((state.mid as i128) - skew, MID_FLOOR as i128, MID_CEIL as i128) as i64;

        let half = spread / 2;
        let bid = if mid_shaded - half < 0 { 0 } else { mid_shaded - half };
        let ask = if mid_shaded + half > ONE { ONE } else { mid_shaded + half };

        let size = clamp_wide(10 * (ONE as i128) - inv_abs / 10, ONE as i128, 20 * (ONE as i128)) as i64;

        state.spread = spread;
        (bid, ask, size)
    }
    /// Appends the signed flow of a fill to the imbalance window (dropping the
    /// oldest entries beyond capacity) and moves the mid: see `mid_after_fill`.
    pub fn on_fill(&mut self, state: &mut MarketState, side: Side, size: i64)
        requires
            old(self).valid(),
            -MAX_FILL_SIZE <= size <= MAX_FILL_SIZE,
        ensures
            final(self).valid(),
            final(self).config == old(self).config,
            final(self).imbalance_window@ == window_after(old(self).config, old(self).imbalance_window@,
                signed_size(side, size as int)),
            *final(state) == old(state).with_mid(
                mid_after_fill(old(state).mid as int, old(state).inventory as int,
                    old(state).inventory_limit as int, signed_size(side, size as int)),
            ),
    {
        let delta: i64 = match side {
            Side::Buy => size,
            Side::Sell => -size,
        };
        let ghost pushed = self.imbalance_window@.push(delta);
        self.imbalance_window.push_back(delta);
        let max_window: usize = if self.config.window_size * 4 > 100 { self.config.window_size * 4 } else { 100 };
        while self.imbalance_window.len() > max_window
            invariant
                self.config == old(self).config,
                max_window == self.config.capacity(),
                pushed.len() <= max_window + 1,
                pushed.len() <= max_window ==> self.imbalance_window@.len() == pushed.len(),
                self.imbalance_window@.len() <= pushed.len(),
                pushed.len() > max_window ==> self.imbalance_window@.len() >= max_window,
                self.imbalance_window@ == pushed.subrange(
                    pushed.len() - self.imbalance_window@.len(),
                    pushed.len() as int,
                ),
            decreases self.imbalance_window@.len(),
        {
            let ghost before = self.imbalance_window@;
            self.imbalance_window.pop_front();
            proof {
                assert(self.imbalance_window@ == pushed.subrange(
                    pushed.len() - self.imbalance_window@.len(),
                    pushed.len() as int,
                ));
            }
        }
        proof {
            if pushed.len() <= max_window {
                assert(self.imbalance_window@ == pushed.subrange(0, pushed.len() as int));
                assert(pushed.subrange(0, pushed.len() as int) == pushed);
            }
            assert forall|j: int| 0 <= j < self.imbalance_window@.len() implies -MAX_FILL_SIZE
                <= #[trigger] self.imbalance_window@[j] <= MAX_FILL_SIZE by {
                let k = pushed.len() - self.imbalance_window@.len() + j;
                assert(self.imbalance_window@[j] == pushed[k]);
                if k < old(self).imbalance_window@.len() {
                    assert(pushed[k] == old(self).imbalance_window@[k]);
                }
            }
        }

        let flow = delta as i128;
        let abs_flow: i128 = if flow < 0 { -flow } else { flow };
        let adjustment = div_toward_zero(50_000 * flow, 10 * (ONE as i128) + abs_flow);
        proof {
            assert(-50_000 <= adjustment <= 50_000) by {
                if flow >= 0 {
                    assert(50_000 * flow / (10 * 1_000_000 + abs_flow) <= 50_000) by (nonlinear_arith)
                        requires flow >= 0, abs_flow == flow;
                } else {
                    assert((-(50_000 * flow)) / (10 * 1_000_000 + abs_flow) <= 50_000) by (nonlinear_arith)
                        requires flow < 0, abs_flow == -flow;
                }
            }
        }
        let mid1 = clamp_wide(state.mid as i128 + adjustment, MID_FLOOR as i128, MID_CEIL as i128);
        state.mid = mid1 as i64;

        let inv = state.inventory;
        let inv_abs = abs_wide(inv);
        if 5 * inv_abs > 4 * (state.inventory_limit as i128) {
            let correction: i128 = if inv > 0 { -50_000 } else { 50_000 };
            state.mid = clamp_wide(state.mid as i128 + correction, MID_FLOOR as i128, MID_CEIL as i128) as i64;
        }
    }
    /// Quotes once, then matches each order in turn against that quote (see
    /// `matched_fills`); each fill is recorded in the state and then fed to
    /// `on_fill`. Returns the fills in the order they were made.
    pub fn on_tick(&mut self, state: &mut MarketState, market_order_flow: &[Order]) -> (r: Vec<FillResult>)
        requires
            old(self).valid(),
            sizes_bounded(market_order_flow@),
            old(state).has_room(market_order_flow@.len() as int),
        ensures
            ({
                let cfg = old(self).config;
                let w = old(self).imbalance_window@;
                let bid = quote_bid(cfg, w, old(state).mid as int, old(state).inventory as int);
                let ask = quote_ask(cfg, w, old(state).mid as int, old(state).inventory as int);
                let fills = matched_fills(market_order_flow@, bid, ask);
                let n = old(state).fills@.len();
                &&& r@ == fills
                &&& fills_bounded(fills)
                &&& fills.len() <= market_order_flow@.len()
                &&& final(self).valid()
                &&& final(self).config == cfg
                &&& final(self).imbalance_window@ == window_after_fills(cfg, w, fills)
                &&& final(state).spread == adaptive_spread(cfg, w, old(state).inventory as int)
                &&& final(state).mid == mid_after_fills(old(state).mid as int, old(state).inventory as int,
                    old(state).inventory_limit as int, fills)
                &&& final(state).inventory == old(state).inventory + net_flow(fills)
                &&& abs_spec(net_flow(fills)) <= fills.len() * MAX_FILL_SIZE
                &&& 0 <= traded_value(fills) <= fills.len() * MAX_FILL_MONEY
                &&& final(state).fill_count == old(state).fill_count + fills.len()
                &&& final(state).notional == old(state).notional + traded_value(fills)
                &&& fills.len() == 0 ==> final(state).exposure == old(state).exposure
                &&& fills.len() > 0 ==> final(state).exposure == abs_spec(final(state).inventory as int)
                    * mid_after_fills(old(state).mid as int, old(state).inventory as int,
                    old(state).inventory_limit as int, fills.drop_last())
                &&& final(state).fills@.len() == n + fills.len()
                &&& final(state).fills@.subrange(0, n as int) == old(state).fills@
                &&& forall|i: int| 0 <= i < fills.len() ==> {
                    &&& (#[trigger] final(state).fills@[n + i]).side == fills[i].side
                    &&& final(state).fills@[n + i].size == fills[i].size
                    &&& final(state).fills@[n + i].price == fills[i].price
                }
                &&& final(state).name == old(state).name
                &&& final(state).pnl == old(state).pnl
                &&& final(state).peak_pnl == old(state).peak_pnl
                &&& final(state).max_drawdown == old(state).max_drawdown
                &&& final(state).inventory_limit == old(state).inventory_limit
                &&& final(state).exposure_limit == old(state).exposure_limit
                &&& final(state).fee == old(state).fee
                &&& old(state).ledger_consistent() ==> final(state).ledger_consistent()
            }),
    {
        let ghost cfg = self.config;
        let ghost w0 = self.imbalance_window@;
        let ghost s0 = *state;
        let (bid, ask, _size) = self.quote(state);
        proof {
            lemma_quote_in_unit(cfg, w0, s0.mid as int, s0.inventory as int);
            lemma_matched_fills_bounded(market_order_flow@, bid as int, ask as int);
        }
        let ghost s1 = *state;
        let ghost orders = market_order_flow@;

        let mut fills: Vec<FillResult> = Vec::new();
        let mut i: usize = 0;
        while i < market_order_flow.len()
            invariant
                orders == market_order_flow@,
                i <= orders.len(),
                fills@ == matched_fills(orders.subrange(0, i as int), bid as int, ask as int),
            decreases orders.len() - i,
        {
            let order = market_order_flow[i];
            proof {
                assert(orders.subrange(0, i + 1).drop_last() == orders.subrange(0, i as int));
                assert(orders.subrange(0, i + 1).last() == order);
            }
            match order.side {
                Side::Buy => {
                    if order.price >= ask {
                        fills.push(FillResult { side: Side::Sell, size: order.size, price: ask });
                    }
                },
                Side::Sell => {
                    if order.price <= bid {
                        fills.push(FillResult { side: Side::Buy, size: order.size, price: bid });
                    }
                },
            }
            i = i + 1;
        }
        proof {
            assert(orders.subrange(0, orders.len() as int) == orders);
        }
        let ghost all = fills@;
        let ghost n0 = s0.fills@.len();

        let mut j: usize = 0;
        while j < fills.len()
            invariant
                all == fills@,
                fills_bounded(all),
                all.len() <= orders.len(),
                s0.has_room(orders.len() as int),
                j <= all.len(),
                self.valid(),
                self.config == cfg,
                self.imbalance_window@ == window_after_fills(cfg, w0, all.subrange(0, j as int)),
                state.mid == mid_after_fills(s0.mid as int, s0.inventory as int,
                    s0.inventory_limit as int, all.subrange(0, j as int)),
                state.inventory == s0.inventory + net_flow(all.subrange(0, j as int)),
                abs_spec(net_flow(all.subrange(0, j as int))) <= j * MAX_FILL_SIZE,
                state.fill_count == s0.fill_count + j,
                state.notional == s0.notional + traded_value(all.subrange(0, j as int)),
                0 <= traded_value(all.subrange(0, j as int)) <= j * MAX_FILL_MONEY,
                j == 0 ==> state.exposure == s0.exposure,
                j > 0 ==> state.exposure == abs_spec(state.inventory as int) * mid_after_fills(s0.mid as int,
                    s0.inventory as int, s0.inventory_limit as int, all.subrange(0, j as int).drop_last()),
                state.fills@.len() == n0 + j,
                state.fills@.subrange(0, n0 as int) == s0.fills@,
                forall|k: int| 0 <= k < j ==> {
                    &&& (#[trigger] state.fills@[n0 + k]).side == all[k].side
                    &&& state.fills@[n0 + k].size == all[k].size
                    &&& state.fills@[n0 + k].price == all[k].price
                },
                state.name == s0.name,
                state.spread == s1.spread,
                state.pnl == s0.pnl,
                state.peak_pnl == s0.peak_pnl,
                state.max_drawdown == s0.max_drawdown,
                state.inventory_limit == s0.inventory_limit,
                state.exposure_limit == s0.exposure_limit,
                state.fee == s0.fee,
                s0.ledger_consistent() ==> state.ledger_consistent(),
            decreases all.len() - j,
        {
            let f = fills[j];
            proof {
                lemma_prefix_step(all, j as int);
                assert(f == all[j as int]);
            }
            proof {
                assert(0 <= abs_spec(f.size as int) * f.price <= MAX_FILL_MONEY) by (nonlinear_arith)
                    requires 0 <= abs_spec(f.size as int) <= MAX_FILL_SIZE, 0 <= f.price <= ONE;
                assert((j + 1) * MAX_FILL_SIZE <= orders.len() * MAX_FILL_SIZE) by (nonlinear_arith)
                    requires j + 1 <= orders.len();
                assert((j + 1) * MAX_FILL_MONEY <= orders.len() * MAX_FILL_MONEY) by (nonlinear_arith)
                    requires j + 1 <= orders.len();
                assert(abs_spec(state.inventory as int) <= abs_spec(s0.inventory as int) + j * MAX_FILL_SIZE);
                assert(abs_spec(signed_size(f.side, f.size as int)) <= MAX_FILL_SIZE);
            }
            let ghost before = *state;
            state.record_fill(f.side, f.size, f.price);
            proof {
                assert forall|k: int| 0 <= k < n0 + j implies #[trigger] state.fills@[k] == before.fills@[k] by {
                    assert(state.fills@.drop_last()[k] == state.fills@[k]);
                }
                assert(state.fills@.subrange(0, n0 as int) =~= s0.fills@);
            }
            self.on_fill(state, f.side, f.size);
            j = j + 1;
        }
        proof {
            assert(all.subrange(0, all.len() as int) == all);
        }
        fills
    }
}

} // verus!
