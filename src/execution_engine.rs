//! The simulation loop: synthetic order flow, the maker's reaction, PnL and
//! drawdown accounting, and mean reversion of the mid.
use vstd::prelude::*;
use rand::{Rng, SeedableRng};
use rand_chacha::ChaCha8Rng;
use crate::fixed::{abs_spec, clamp_spec, clamp_wide, ONE, HALF, MAX_FILL_MONEY, MAX_FILL_SIZE};
use crate::market_maker::{
    adaptive_spread, all_marketable, fills_bounded, lemma_marketable_orders_fill, lemma_quote_in_unit,
    matched_fills, mid_after_fills, net_flow, quote_ask, quote_bid, sizes_bounded, traded_value,
    window_after_fills, FillResult, MarketMaker, MarketMakerConfig, Order,
};
use crate::market_state::{signed_size, MarketState, Side};

verus! {

/// rand_chacha's `ChaCha8Rng`, carried as an opaque value.
#[verifier::external_type_specification]
#[verifier::external_body]
pub struct ExChaCha8Rng(ChaCha8Rng);

/// Relies on `rand_core::SeedableRng::seed_from_u64` for `ChaCha8Rng`: a generator
/// whose whole output stream is fixed by the seed.
#[verifier::external_body]
fn seeded_rng(seed: u64) -> (r: ChaCha8Rng) {
    ChaCha8Rng::seed_from_u64(seed)
}

/// Relies on `rand::Rng::gen_range` over `low..high`: a value in `[low, high)`;
/// it panics on an empty range, which `requires` rules out.
#[verifier::external_body]
fn draw_between(rng: &mut ChaCha8Rng, low: i64, high: i64) -> (r: i64)
    requires
        low < high,
    ensures
        low <= r < high,
{
    rng.gen_range(low..high)
}

/// Half-width of the noise added to the mid when choosing an order's side (0.15).
pub const NOISE_WIDTH: i64 = 150_000;

/// The order made from the mid and two draws: `noise` in `[-0.15, 0.15)` and
/// `unit` in `[0, 1)`. It is a buy when `mid + noise > 0.5`, else a sell; its size
/// is `clamp(4 * unit + 4, 1, 30)`; its price is 1.0 for a buy and 0.0 for a sell.
pub open spec fn synthesized_order(mid: int, noise: int, unit: int) -> Order {
    let side = if mid + noise > HALF { Side::Buy } else { Side::Sell };
    Order {
        side,
        size: clamp_spec(4 * unit + 4 * ONE, ONE as int, 30 * ONE) as i64,
        price: if side == Side::Buy { ONE } else { 0 },
    }
}

/// One to three orders, each made from the mid and draws in range.
pub open spec fn valid_flow(mid: int, orders: Seq<Order>) -> bool {
    &&& 1 <= orders.len() <= 3
    &&& forall|k: int|
        0 <= k < orders.len() ==> exists|noise: int, unit: int|
            -NOISE_WIDTH <= noise < NOISE_WIDTH && 0 <= unit < ONE && #[trigger] orders[k]
                == synthesized_order(mid, noise, unit)
}

/// Builds the order for `mid` and the draws `noise` and `unit`.
pub fn synthesize_order(mid: i64, noise: i64, unit: i64) -> (r: Order)
    ensures
        r == synthesized_order(mid as int, noise as int, unit as int),
{
    let side = if (mid as i128) + (noise as i128) > HALF as i128 { Side::Buy } else { Side::Sell };
    let size = clamp_wide(4 * (unit as i128) + 4 * (ONE as i128), ONE as i128, 30 * (ONE as i128)) as i64;
    let price = match side {
        Side::Buy => ONE,
        Side::Sell => 0,
    };
    Order { side, size, price }
}

/// PnL of one fill marked against `mark`: `-signed_size * (price - mark)`.
pub open spec fn fill_pnl(f: FillResult, mark: int) -> int {
    -(signed_size(f.side, f.size as int) * (f.price - mark))
}

pub open spec fn pnl_after(pnl: int, mark: int, fills: Seq<FillResult>) -> int
    decreases fills.len(),
{
    if fills.len() == 0 {
        pnl
    } else {
        pnl_after(pnl, mark, fills.drop_last()) + fill_pnl(fills.last(), mark)
    }
}

pub open spec fn max_spec(a: int, b: int) -> int {
    if a >= b { a } else { b }
}

/// The running peak of PnL after each fill.
pub open spec fn peak_after(peak: int, pnl: int, mark: int, fills: Seq<FillResult>) -> int
    decreases fills.len(),
{
    if fills.len() == 0 {
        peak
    } else {
        max_spec(peak_after(peak, pnl, mark, fills.drop_last()), pnl_after(pnl, mark, fills))
    }
}

/// The running maximum of `peak - pnl` after each fill.
pub open spec fn drawdown_after(dd: int, peak: int, pnl: int, mark: int, fills: Seq<FillResult>) -> int
    decreases fills.len(),
{
    if fills.len() == 0 {
        dd
    } else {
        max_spec(
            drawdown_after(dd, peak, pnl, mark, fills.drop_last()),
            peak_after(peak, pnl, mark, fills) - pnl_after(pnl, mark, fills),
        )
    }
}

/// `mid * 0.995 + 0.5 * 0.005`, rounded down.
pub open spec fn mean_revert(mid: int) -> int {
    (995 * mid + 2_500_000) / 1000
}

/// A fill as reported in a step's result.
#[derive(Clone, Copy, Debug)]
pub struct FillInfo {
    pub side: Side,
    pub size: i64,
    pub price: i64,
}

impl FillInfo {
    pub fn from_fill(fill: &FillResult) -> (r: FillInfo)
        ensures
            r.side == fill.side,
            r.size == fill.size,
            r.price == fill.price,
    {
        FillInfo { side: fill.side, size: fill.size, price: fill.price }
    }
}

/// What one tick did to one market.
#[derive(Clone, Debug)]
pub struct StepResult {
    pub fills: Vec<FillInfo>,
    pub mid: i64,
    pub inventory: i64,
    pub pnl: i128,
    pub spread: i64,
}

/// `s1`, `m1` and `res` are what one tick with `orders` makes of `s0` and `m0`:
/// the maker quotes and matches the orders (see `MarketMaker::on_tick`), each
/// fill's PnL is marked against the mid from before the fills, peak and drawdown
/// follow each fill, and the mid then reverts toward 0.5.
pub open spec fn tick_outcome(
    s0: MarketState,
    m0: MarketMaker,
    orders: Seq<Order>,
    s1: MarketState,
    m1: MarketMaker,
    res: StepResult,
) -> bool {
    let cfg = m0.config;
    let w = m0.imbalance_window@;
    let bid = quote_bid(cfg, w, s0.mid as int, s0.inventory as int);
    let ask = quote_ask(cfg, w, s0.mid as int, s0.inventory as int);
    let fills = matched_fills(orders, bid, ask);
    let moved = mid_after_fills(s0.mid as int, s0.inventory as int, s0.inventory_limit as int, fills);
    let n = s0.fills@.len();
    &&& m1.config == cfg
    &&& m1.imbalance_window@ == window_after_fills(cfg, w, fills)
    &&& s1.mid == mean_revert(moved)
    &&& s1.spread == adaptive_spread(cfg, w, s0.inventory as int)
    &&& s1.inventory == s0.inventory + net_flow(fills)
    &&& s1.pnl == pnl_after(s0.pnl as int, s0.mid as int, fills)
    &&& s1.peak_pnl == peak_after(s0.peak_pnl as int, s0.pnl as int, s0.mid as int, fills)
    &&& s1.max_drawdown == drawdown_after(s0.max_drawdown as int, s0.peak_pnl as int, s0.pnl as int,
        s0.mid as int, fills)
    &&& s1.fill_count == s0.fill_count + fills.len()
    &&& s1.notional == s0.notional + traded_value(fills)
    &&& fills.len() == 0 ==> s1.exposure == s0.exposure
    &&& fills.len() > 0 ==> s1.exposure == abs_spec(s1.inventory as int) * mid_after_fills(
        s0.mid as int, s0.inventory as int, s0.inventory_limit as int, fills.drop_last())
    &&& s1.fills@.len() == n + fills.len()
    &&& s1.fills@.subrange(0, n as int) == s0.fills@
    &&& forall|i: int| 0 <= i < fills.len() ==> {
        &&& (#[trigger] s1.fills@[n + i]).side == fills[i].side
        &&& s1.fills@[n + i].size == fills[i].size
        &&& s1.fills@[n + i].price == fills[i].price
    }
    &&& s1.name == s0.name
    &&& s1.inventory_limit == s0.inventory_limit
    &&& s1.exposure_limit == s0.exposure_limit
    &&& s1.fee == s0.fee
    &&& res.fills@.len() == fills.len()
    &&& forall|i: int| 0 <= i < fills.len() ==> {
        &&& (#[trigger] res.fills@[i]).side == fills[i].side
        &&& res.fills@[i].size == fills[i].size
        &&& res.fills@[i].price == fills[i].price
    }
    &&& res.mid == s1.mid
    &&& res.inventory == s1.inventory
    &&& res.pnl == s1.pnl
    &&& res.spread == s1.spread
}

/// One fill moves PnL by at most `MAX_FILL_MONEY` when its price and the mark lie in `[0, 1]`.
proof fn lemma_fill_pnl_bounded(f: FillResult, mark: int)
    requires
        -MAX_FILL_SIZE <= f.size <= MAX_FILL_SIZE,
        0 <= f.price <= ONE,
        0 <= mark <= ONE,
    ensures
        abs_spec(fill_pnl(f, mark)) <= MAX_FILL_MONEY,
{
    let s = signed_size(f.side, f.size as int);
    let d = f.price - mark;
    assert(-MAX_FILL_SIZE <= s <= MAX_FILL_SIZE);
    assert(abs_spec(s * d) <= MAX_FILL_MONEY) by (nonlinear_arith)
        requires -1_000_000_000_000 <= s <= 1_000_000_000_000, -1_000_000 <= d <= 1_000_000,
            MAX_FILL_MONEY == 1_000_000_000_000_000_000;
}

/// Settles one tick of `market_order_flow` on one market: see `tick_outcome`.
pub fn settle_tick(state: &mut MarketState, mm: &mut MarketMaker, market_order_flow: &[Order]) -> (r: StepResult)
    requires
        old(mm).valid(),
        0 <= old(state).mid <= ONE,
        sizes_bounded(market_order_flow@),
        old(state).has_room(market_order_flow@.len() as int),
    ensures
        tick_outcome(*old(state), *old(mm), market_order_flow@, *final(state), *final(mm), r),
        final(mm).valid(),
        0 <= final(state).mid <= ONE,
        final(state).max_drawdown >= old(state).max_drawdown,
        old(state).ledger_consistent() ==> final(state).ledger_consistent(),
        forall|k: int| 0 <= k && old(state).has_room(k + market_order_flow@.len()) ==> #[trigger] final(state).has_room(k),
{
    let ghost s0 = *state;
    let ghost orders = market_order_flow@;
    let mark = state.mid;
    let fills = mm.on_tick(state, market_order_flow);
    let ghost all = fills@;
    let ghost s1 = *state;

    let mut infos: Vec<FillInfo> = Vec::new();
    let mut j: usize = 0;
    while j < fills.len()
        invariant
            all == fills@,
            fills_bounded(all),
            all.len() <= orders.len(),
            s0.has_room(orders.len() as int),
            0 <= mark <= ONE,
            mark == s0.mid,
            j <= all.len(),
            state.pnl == pnl_after(s0.pnl as int, mark as int, all.subrange(0, j as int)),
            abs_spec(state.pnl - s0.pnl) <= j * MAX_FILL_MONEY,
            state.peak_pnl == peak_after(s0.peak_pnl as int, s0.pnl as int, mark as int, all.subrange(0, j as int)),
            state.peak_pnl >= s0.peak_pnl,
            abs_spec(state.peak_pnl as int) <= max_spec(abs_spec(s0.peak_pnl as int),
                abs_spec(s0.pnl as int) + j * MAX_FILL_MONEY),
            state.max_drawdown == drawdown_after(s0.max_drawdown as int, s0.peak_pnl as int, s0.pnl as int,
                mark as int, all.subrange(0, j as int)),
            state.max_drawdown >= s0.max_drawdown,
            state.mid == s1.mid,
            state.spread == s1.spread,
            state.inventory == s1.inventory,
            state.exposure == s1.exposure,
            state.fills == s1.fills,
            state.fill_count == s1.fill_count,
            state.notional == s1.notional,
            state.name == s1.name,
            state.inventory_limit == s1.inventory_limit,
            state.exposure_limit == s1.exposure_limit,
            state.fee == s1.fee,
            infos@.len() == j,
            forall|i: int| 0 <= i < j ==> {
                &&& (#[trigger] infos@[i]).side == all[i].side
                &&& infos@[i].size == all[i].size
                &&& infos@[i].price == all[i].price
            },
        decreases all.len() - j,
    {
        let f = fills[j];
        proof {
            assert(all.subrange(0, j + 1).drop_last() == all.subrange(0, j as int));
            assert(all.subrange(0, j + 1).last() == f);
            assert(f == all[j as int]);
            lemma_fill_pnl_bounded(f, mark as int);
        }
        let signed: i128 = match f.side {
            Side::Buy => f.size as i128,
            Side::Sell => -(f.size as i128),
        };
        let diff: i128 = (f.price as i128) - (mark as i128);
        proof {
            assert(signed * diff == signed_size(f.side, f.size as int) * (f.price - mark));
        }
        state.pnl = state.pnl + -(signed * diff);
        if state.pnl > state.peak_pnl {
            state.peak_pnl = state.pnl;
        }
        let dd = state.peak_pnl - state.pnl;
        if dd > state.max_drawdown {
            state.max_drawdown = dd;
        }
        infos.push(FillInfo::from_fill(&f));
        j = j + 1;
    }
    proof {
        assert(all.subrange(0, all.len() as int) == all);
        assert(0 <= state.mid <= ONE);
        assert forall|k: int| 0 <= k && s0.has_room(k + orders.len()) implies #[trigger] state.has_room(k) by {
            assert(abs_spec(state.inventory as int) <= abs_spec(s0.inventory as int) + all.len() * MAX_FILL_SIZE);
            assert(all.len() * MAX_FILL_SIZE <= orders.len() * MAX_FILL_SIZE) by (nonlinear_arith)
                requires all.len() <= orders.len();
            assert(all.len() * MAX_FILL_MONEY <= orders.len() * MAX_FILL_MONEY) by (nonlinear_arith)
                requires all.len() <= orders.len();
            assert(abs_spec(state.notional as int) <= abs_spec(s0.notional as int) + all.len() * MAX_FILL_MONEY);
            assert(abs_spec(state.pnl as int) <= abs_spec(s0.pnl as int) + all.len() * MAX_FILL_MONEY);
        }
    }
    state.mid = ((995 * (state.mid as i128) + 2_500_000) / 1000) as i64;
    StepResult {
        fills: infos,
        mid: state.mid,
        inventory: state.inventory,
        pnl: state.pnl,
        spread: state.spread,
    }
}

/// Drawdown accounting never lowers `max_drawdown`: after any fills it is at
/// least what it was before.
pub proof fn lemma_drawdown_never_decreases(dd: int, peak: int, pnl: int, mark: int, fills: Seq<FillResult>)
    ensures
        drawdown_after(dd, peak, pnl, mark, fills) >= dd,
    decreases fills.len(),
{
    if fills.len() > 0 {
        lemma_drawdown_never_decreases(dd, peak, pnl, mark, fills.drop_last());
    }
}

/// Over a tick, a market's mid stays in `[0, 1]` and its spread lands in
/// `[min_spread, max_spread]`; `max_drawdown` does not decrease.
pub proof fn lemma_tick_stays_in_bounds(
    s0: MarketState,
    m0: MarketMaker,
    orders: Seq<Order>,
    s1: MarketState,
    m1: MarketMaker,
    res: StepResult,
)
    requires
        m0.valid(),
        0 <= s0.mid <= ONE,
        tick_outcome(s0, m0, orders, s1, m1, res),
    ensures
        0 <= s1.mid <= ONE,
        m0.config.min_spread <= s1.spread <= m0.config.max_spread,
        s1.max_drawdown >= s0.max_drawdown,
{
    let cfg = m0.config;
    let w = m0.imbalance_window@;
    lemma_quote_in_unit(cfg, w, s0.mid as int, s0.inventory as int);
    let bid = quote_bid(cfg, w, s0.mid as int, s0.inventory as int);
    let ask = quote_ask(cfg, w, s0.mid as int, s0.inventory as int);
    let fills = matched_fills(orders, bid, ask);
    lemma_drawdown_never_decreases(s0.max_drawdown as int, s0.peak_pnl as int, s0.pnl as int, s0.mid as int, fills);
    let moved = mid_after_fills(s0.mid as int, s0.inventory as int, s0.inventory_limit as int, fills);
    assert(0 <= moved <= ONE);
    assert(0 <= mean_revert(moved) <= ONE);
}

/// With no orders, a tick makes no fills and leaves PnL alone, and the mid still
/// reverts: `mid * 0.995 + 0.5 * 0.005`.
pub proof fn lemma_quiet_tick_reverts(s0: MarketState, m0: MarketMaker, s1: MarketState, m1: MarketMaker, res: StepResult)
    requires
        tick_outcome(s0, m0, Seq::<Order>::empty(), s1, m1, res),
    ensures
        res.fills@.len() == 0,
        s1.mid == mean_revert(s0.mid as int),
        s1.pnl == s0.pnl,
        s1.inventory == s0.inventory,
{
}

/// A tick's result and the market's new numbers depend only on the market, its
/// maker and the orders: two ticks from the same start with the same orders
/// report the same, and leave the same state but for fill timestamps.
pub proof fn lemma_tick_deterministic(
    s0: MarketState,
    m0: MarketMaker,
    orders: Seq<Order>,
    s1: MarketState,
    m1: MarketMaker,
    res1: StepResult,
    s2: MarketState,
    m2: MarketMaker,
    res2: StepResult,
)
    requires
        tick_outcome(s0, m0, orders, s1, m1, res1),
        tick_outcome(s0, m0, orders, s2, m2, res2),
    ensures
        res1.fills@ == res2.fills@,
        res1.mid == res2.mid,
        res1.inventory == res2.inventory,
        res1.pnl == res2.pnl,
        res1.spread == res2.spread,
        m1.config == m2.config,
        m1.imbalance_window@ == m2.imbalance_window@,
        s1.mid == s2.mid,
        s1.spread == s2.spread,
        s1.inventory == s2.inventory,
        s1.exposure == s2.exposure,
        s1.pnl == s2.pnl,
        s1.peak_pnl == s2.peak_pnl,
        s1.max_drawdown == s2.max_drawdown,
        s1.fill_count == s2.fill_count,
        s1.notional == s2.notional,
        s1.fills@.len() == s2.fills@.len(),
        forall|i: int| 0 <= i < s1.fills@.len() ==> {
            &&& (#[trigger] s1.fills@[i]).side == s2.fills@[i].side
            &&& s1.fills@[i].size == s2.fills@[i].size
            &&& s1.fills@[i].price == s2.fills@[i].price
        },
{
    let n = s0.fills@.len() as int;
    assert forall|i: int| 0 <= i < s1.fills@.len() implies {
        &&& (#[trigger] s1.fills@[i]).side == s2.fills@[i].side
        &&& s1.fills@[i].size == s2.fills@[i].size
        &&& s1.fills@[i].price == s2.fills@[i].price
    } by {
        if i < n {
            assert(s1.fills@.subrange(0, n)[i] == s1.fills@[i]);
            assert(s2.fills@.subrange(0, n)[i] == s2.fills@[i]);
        } else {
            assert(s1.fills@[n + (i - n)] == s1.fills@[i]);
        }
    }
    assert(res1.fills@ =~= res2.fills@);
}


/// No two markets share a name.
pub open spec fn names_unique(markets: Seq<MarketState>) -> bool {
    forall|i: int, j: int|
        #![trigger markets[i], markets[j]]
        0 <= i < markets.len() && 0 <= j < markets.len() && i != j ==> markets[i].name@ != markets[j].name@
}

/// `e1` and `r` are what one `step` makes of `e0`: every market, in order, drew
/// one to three orders (see `valid_flow`) and was settled with them (see
/// `tick_outcome`); `r` holds each market's name and result, and the clock
/// advanced by one.
pub open spec fn step_outcome(e0: ExecutionEngine, e1: ExecutionEngine, r: Seq<(String, StepResult)>) -> bool {
    &&& e1.valid()
    &&& e1.time == e0.time + 1
    &&& e1.markets@.len() == e0.markets@.len()
    &&& r.len() == e0.markets@.len()
    &&& forall|i: int| 0 <= i < e0.markets@.len() ==> {
        &&& (#[trigger] r[i]).0@ == e0.markets@[i].name@
        &&& 1 <= r[i].1.fills@.len() <= 3
        &&& e1.markets@[i].max_drawdown >= e0.markets@[i].max_drawdown
        &&& e0.markets@[i].ledger_consistent() ==> e1.markets@[i].ledger_consistent()
        &&& exists|orders: Seq<Order>| {
            &&& valid_flow(e0.markets@[i].mid as int, orders)
            &&& orders.len() == r[i].1.fills@.len()
            &&& tick_outcome(e0.markets@[i], e0.market_makers@[i], orders,
                e1.markets@[i], e1.market_makers@[i], r[i].1)
        }
    }
}

/// The markets under simulation, each with its maker, and the one random stream
/// that all order flow is drawn from.
pub struct ExecutionEngine {
    pub markets: Vec<MarketState>,
    pub market_makers: Vec<MarketMaker>,
    pub time: u64,
    pub rng: ChaCha8Rng,
}

impl ExecutionEngine {
    /// One maker per market, each valid, every mid in `[0, 1]`, and no two
    /// markets with the same name.
    pub open spec fn valid(&self) -> bool {
        &&& self.markets@.len() == self.market_makers@.len()
        &&& names_unique(self.markets@)
        &&& forall|i: int| 0 <= i < self.markets@.len() ==> (#[trigger] self.market_makers@[i]).valid()
        &&& forall|i: int| 0 <= i < self.markets@.len() ==> 0 <= (#[trigger] self.markets@[i]).mid <= ONE
    }

    /// Every market's ledger can take `steps` more ticks (at most three fills each).
    pub open spec fn has_room_for(&self, steps: int) -> bool {
        forall|i: int| 0 <= i < self.markets@.len() ==> (#[trigger] self.markets@[i]).has_room(3 * steps)
    }

    /// An engine over `markets`, in the order given, with a default-configured maker
    /// for each (its base spread taken from the market) and a generator seeded
    /// with `rng_seed`.
    pub fn new(markets: Vec<MarketState>, rng_seed: u64) -> (r: ExecutionEngine)
        requires
            forall|i: int| 0 <= i < markets@.len() ==> 0 <= (#[trigger] markets@[i]).mid <= ONE
                && 0 <= markets@[i].spread <= ONE,
            names_unique(markets@),
        ensures
            r.valid(),
            r.markets@ == markets@,
            r.time == 0,
            forall|i: int| 0 <= i < markets@.len() ==> {
                &&& (#[trigger] r.market_makers@[i]).config == (MarketMakerConfig {
                    window_size: 20,
                    base_spread: markets@[i].spread,
                    min_spread: 10_000,
                    max_spread: 500_000,
                    inventory_skew: 1_000,
                })
                &&& r.market_makers@[i].imbalance_window@.len() == 0
            },
    {
        let mut market_makers: Vec<MarketMaker> = Vec::new();
        let mut i: usize = 0;
        while i < markets.len()
            invariant
                i <= markets@.len(),
                market_makers@.len() == i,
                forall|j: int| 0 <= j < markets@.len() ==> 0 <= (#[trigger] markets@[j]).mid <= ONE
                    && 0 <= markets@[j].spread <= ONE,
                forall|j: int| 0 <= j < i ==> {
                    &&& (#[trigger] market_makers@[j]).config == (MarketMakerConfig {
                        window_size: 20,
                        base_spread: markets@[j].spread,
                        min_spread: 10_000,
                        max_spread: 500_000,
                        inventory_skew: 1_000,
                    })
                    &&& market_makers@[j].imbalance_window@.len() == 0
                    &&& market_makers@[j].valid()
                },
            decreases markets@.len() - i,
        {
            let mm = MarketMaker::new(&markets[i], None);
            market_makers.push(mm);
            i = i + 1;
        }
        ExecutionEngine { markets, market_makers, time: 0, rng: seeded_rng(rng_seed) }
    }

    /// One to three orders for market `index`, drawn from the engine's stream:
    /// for each, a noise in `[-0.15, 0.15)` and a unit in `[0, 1)` (see
    /// `synthesized_order`). Only the stream advances. The draws are integers
    /// in units of `ONE`, so the stream of orders is not draw for draw the one a
    /// generator of floating-point draws would give from the same seed.
    pub fn simulate_order_flow(&mut self, index: usize) -> (r: Vec<Order>)
        requires
            index < old(self).markets@.len(),
        ensures
            valid_flow(old(self).markets@[index as int].mid as int, r@),
            all_marketable(r@),
            sizes_bounded(r@),
            final(self).markets == old(self).markets,
            final(self).market_makers == old(self).market_makers,
            final(self).time == old(self).time,
    {
        let mid = self.markets[index].mid;
        let mut orders: Vec<Order> = Vec::new();
        let n = draw_between(&mut self.rng, 1, 4);
        let mut k: i64 = 0;
        while k < n
            invariant
                1 <= n <= 3,
                0 <= k <= n,
                orders@.len() == k,
                mid == old(self).markets@[index as int].mid,
                self.markets == old(self).markets,
                self.market_makers == old(self).market_makers,
                self.time == old(self).time,
                forall|j: int| 0 <= j < k ==> exists|noise: int, unit: int|
                    -NOISE_WIDTH <= noise < NOISE_WIDTH && 0 <= unit < ONE && #[trigger] orders@[j]
                        == synthesized_order(mid as int, noise, unit),
                all_marketable(orders@),
                sizes_bounded(orders@),
            decreases n - k,
        {
            let noise = draw_between(&mut self.rng, -NOISE_WIDTH, NOISE_WIDTH);
            let unit = draw_between(&mut self.rng, 0, ONE);
            let order = synthesize_order(mid, noise, unit);
            let ghost before = orders@;
            orders.push(order);
            proof {
                assert(orders@[k as int] == synthesized_order(mid as int, noise as int, unit as int));
                assert forall|j: int| 0 <= j < k + 1 implies exists|noise: int, unit: int|
                    -NOISE_WIDTH <= noise < NOISE_WIDTH && 0 <= unit < ONE && #[trigger] orders@[j]
                        == synthesized_order(mid as int, noise, unit) by {
                    if j < k {
                        assert(orders@[j] == before[j]);
                    }
                }
            }
            k = k + 1;
        }
        orders
    }

    /// One tick: every market in order draws its order flow and is settled
    /// (see `tick_outcome`). Returns each market's name and result, in market order.
    pub fn step(&mut self) -> (r: Vec<(String, StepResult)>)
        requires
            old(self).valid(),
            old(self).has_room_for(1),
            old(self).time < u64::MAX,
        ensures
            step_outcome(*old(self), *final(self), r@),
            forall|k: int| 0 <= k && old(self).has_room_for(k + 1) ==> #[trigger] final(self).has_room_for(k),
    {
        let ghost e0 = *self;
        let mut results: Vec<(String, StepResult)> = Vec::new();
        let count = self.markets.len();
        let mut i: usize = 0;
        while i < count
            invariant
                count == e0.markets@.len(),
                e0.valid(),
                e0.has_room_for(1),
                i <= count,
                self.markets@.len() == count,
                self.market_makers@.len() == count,
                self.time == e0.time,
                results@.len() == i,
                forall|j: int| i <= j < count ==> #[trigger] self.markets@[j] == e0.markets@[j]
                    && self.market_makers@[j] == e0.market_makers@[j],
                forall|j: int| 0 <= j < i ==> {
                    &&& (#[trigger] results@[j]).0@ == e0.markets@[j].name@
                    &&& self.markets@[j].name == e0.markets@[j].name
                    &&& 1 <= results@[j].1.fills@.len() <= 3
                    &&& self.market_makers@[j].valid()
                    &&& 0 <= self.markets@[j].mid <= ONE
                    &&& self.markets@[j].max_drawdown >= e0.markets@[j].max_drawdown
                    &&& e0.markets@[j].ledger_consistent() ==> self.markets@[j].ledger_consistent()
                    &&& forall|k: int| 0 <= k && e0.markets@[j].has_room(k + 3) ==> #[trigger] self.markets@[j].has_room(k)
                    &&& exists|orders: Seq<Order>| {
                        &&& valid_flow(e0.markets@[j].mid as int, orders)
                        &&& orders.len() == results@[j].1.fills@.len()
                        &&& tick_outcome(e0.markets@[j], e0.market_makers@[j], orders,
                            self.markets@[j], self.market_makers@[j], results@[j].1)
                    }
                },
            decreases count - i,
        {
            let orders = self.simulate_order_flow(i);
            let ghost m_before = self.markets@;
            let ghost mm_before = self.market_makers@;
            let mut state = self.markets.remove(i);
            let mut mm = self.market_makers.remove(i);
            proof {
                assert(state == e0.markets@[i as int]);
                assert(mm == e0.market_makers@[i as int]);
                lemma_quote_in_unit(mm.config, mm.imbalance_window@, state.mid as int, state.inventory as int);
                lemma_marketable_orders_fill(orders@,
                    quote_bid(mm.config, mm.imbalance_window@, state.mid as int, state.inventory as int),
                    quote_ask(mm.config, mm.imbalance_window@, state.mid as int, state.inventory as int));
                assert(state.has_room(3));
            }
            let ghost s0 = state;
            let ghost mm0 = mm;
            let result = settle_tick(&mut state, &mut mm, orders.as_slice());
            let name = state.name.clone();
            proof {
                assert forall|k: int| 0 <= k && s0.has_room(k + 3) implies #[trigger] state.has_room(k) by {
                    assert(s0.has_room((k + 3 - orders@.len()) + orders@.len()));
                    assert(state.has_room(k + 3 - orders@.len()));
                }
            }
            self.markets.insert(i, state);
            self.market_makers.insert(i, mm);
            let ghost prev_results = results@;
            results.push((name, result));
            proof {
                assert forall|j: int| i + 1 <= j < count implies #[trigger] self.markets@[j] == e0.markets@[j]
                    && self.market_makers@[j] == e0.market_makers@[j] by {
                    assert(self.markets@[j] == m_before[j]);
                    assert(self.market_makers@[j] == mm_before[j]);
                }
                assert forall|j: int| 0 <= j < i + 1 implies {
                    &&& (#[trigger] results@[j]).0@ == e0.markets@[j].name@
                    &&& self.markets@[j].name == e0.markets@[j].name
                    &&& 1 <= results@[j].1.fills@.len() <= 3
                    &&& self.market_makers@[j].valid()
                    &&& 0 <= self.markets@[j].mid <= ONE
                    &&& self.markets@[j].max_drawdown >= e0.markets@[j].max_drawdown
                    &&& e0.markets@[j].ledger_consistent() ==> self.markets@[j].ledger_consistent()
                    &&& forall|k: int| 0 <= k && e0.markets@[j].has_room(k + 3) ==> #[trigger] self.markets@[j].has_room(k)
                    &&& exists|orders: Seq<Order>| {
                        &&& valid_flow(e0.markets@[j].mid as int, orders)
                        &&& orders.len() == results@[j].1.fills@.len()
                        &&& tick_outcome(e0.markets@[j], e0.market_makers@[j], orders,
                            self.markets@[j], self.market_makers@[j], results@[j].1)
                    }
                } by {
                    if j < i {
                        assert(results@[j] == prev_results[j]);
                        assert(prev_results[j].0@ == e0.markets@[j].name@);
                        assert(self.markets@[j] == m_before[j]);
                        assert(self.market_makers@[j] == mm_before[j]);
                    } else {
                        assert(self.markets@[j] == state);
                        assert(self.market_makers@[j] == mm);
                        assert(tick_outcome(s0, mm0, orders@, state, mm, result));
                        assert(s0 == e0.markets@[j]);
                        assert(state.name == s0.name);
                    }
                }
            }
            i = i + 1;
        }
        self.time = self.time + 1;
        proof {
            assert forall|j: int| 0 <= j < self.markets@.len() implies (#[trigger] self.market_makers@[j]).valid() by {
                assert(results@[j].0@ == e0.markets@[j].name@);
            }
            assert forall|j: int| 0 <= j < self.markets@.len() implies 0 <= (#[trigger] self.markets@[j]).mid <= ONE by {
                assert(results@[j].0@ == e0.markets@[j].name@);
            }
            assert forall|a: int, b: int|
                #![trigger self.markets@[a], self.markets@[b]]
                0 <= a < self.markets@.len() && 0 <= b < self.markets@.len() && a != b implies
                self.markets@[a].name@ != self.markets@[b].name@ by {
                assert(results@[a].0@ == e0.markets@[a].name@);
                assert(results@[b].0@ == e0.markets@[b].name@);
                assert(e0.markets@[a].name@ != e0.markets@[b].name@);
            }
            assert(self.valid());
            assert forall|k: int| 0 <= k && e0.has_room_for(k + 1) implies #[trigger] self.has_room_for(k) by {
                assert forall|j: int| 0 <= j < self.markets@.len() implies (#[trigger] self.markets@[j]).has_room(3 * k) by {
                    assert(results@[j].0@ == e0.markets@[j].name@);
                    assert(e0.markets@[j].has_room(3 * k + 3));
                }
            }
        }
        results
    }

    /// Runs `steps` ticks, each one `step`, and returns their results in order:
    /// the engine passes through states `es[0] == old`, ..., `es[steps] == final`,
    /// and entry `t` of the trace is what the step from `es[t]` to `es[t + 1]` returned.
    pub fn run(&mut self, steps: usize) -> (r: Vec<Vec<(String, StepResult)>>)
        requires
            old(self).valid(),
            old(self).has_room_for(steps as int),
            old(self).time + steps <= u64::MAX,
        ensures
            r@.len() == steps,
            exists|es: Seq<ExecutionEngine>| {
                &&& es.len() == steps + 1
                &&& es[0] == *old(self)
                &&& es[steps as int] == *final(self)
                &&& forall|t: int| 0 <= t < steps ==> step_outcome(es[t], es[t + 1], (#[trigger] r@[t])@)
            },
            final(self).valid(),
            final(self).time == old(self).time + steps,
            final(self).markets@.len() == old(self).markets@.len(),
            forall|i: int| 0 <= i < old(self).markets@.len() ==> {
                &&& (#[trigger] final(self).markets@[i]).max_drawdown >= old(self).markets@[i].max_drawdown
                &&& final(self).markets@[i].name@ == old(self).markets@[i].name@
                &&& old(self).markets@[i].ledger_consistent() ==> final(self).markets@[i].ledger_consistent()
            },
    {
        let ghost e0 = *self;
        let ghost mut es: Seq<ExecutionEngine> = seq![*self];
        let mut trace: Vec<Vec<(String, StepResult)>> = Vec::new();
        let mut t: usize = 0;
        while t < steps
            invariant
                t <= steps,
                self.valid(),
                self.has_room_for((steps - t) as int),
                self.time == e0.time + t,
                e0.time + steps <= u64::MAX,
                self.markets@.len() == e0.markets@.len(),
                trace@.len() == t,
                es.len() == t + 1,
                es[0] == e0,
                es[t as int] == *self,
                forall|u: int| 0 <= u < t ==> step_outcome(es[u], es[u + 1], (#[trigger] trace@[u])@),
                forall|i: int| 0 <= i < e0.markets@.len() ==> {
                    &&& (#[trigger] self.markets@[i]).max_drawdown >= e0.markets@[i].max_drawdown
                    &&& self.markets@[i].name@ == e0.markets@[i].name@
                    &&& e0.markets@[i].ledger_consistent() ==> self.markets@[i].ledger_consistent()
                },
            decreases steps - t,
        {
            let ghost before = *self;
            proof {
                assert forall|i: int| 0 <= i < self.markets@.len() implies (#[trigger] self.markets@[i]).has_room(3int) by {
                    assert(self.markets@[i].has_room(3 * (steps - t)));
                }
            }
            let out = self.step();
            proof {
                assert(before.has_room_for((steps - t - 1) + 1));
                assert(self.has_room_for((steps - t - 1) as int));
                assert forall|i: int| 0 <= i < e0.markets@.len() implies {
                    &&& (#[trigger] self.markets@[i]).max_drawdown >= e0.markets@[i].max_drawdown
                    &&& self.markets@[i].name@ == e0.markets@[i].name@
                    &&& e0.markets@[i].ledger_consistent() ==> self.markets@[i].ledger_consistent()
                } by {
                    assert(out@[i].0@ == before.markets@[i].name@);
                    let orders = choose|orders: Seq<Order>| {
                        &&& valid_flow(before.markets@[i].mid as int, orders)
                        &&& orders.len() == out@[i].1.fills@.len()
                        &&& tick_outcome(before.markets@[i], before.market_makers@[i], orders,
                            self.markets@[i], self.market_makers@[i], out@[i].1)
                    };
                    assert(tick_outcome(before.markets@[i], before.market_makers@[i], orders,
                            self.markets@[i], self.market_makers@[i], out@[i].1));
                }
            }
            let ghost prev_trace = trace@;
            let ghost prev_es = es;
            trace.push(out);
            proof {
                es = es.push(*self);
                assert forall|u: int| 0 <= u < t + 1 implies step_outcome(es[u], es[u + 1], (#[trigger] trace@[u])@) by {
                    if u < t {
                        assert(trace@[u] == prev_trace[u]);
                        assert(es[u] == prev_es[u]);
                        assert(es[u + 1] == prev_es[u + 1]);
                    } else {
                        assert(trace@[u] == out);
                        assert(es[u] == before);
                    }
                }
            }
            t = t + 1;
        }
        trace
    }
}

} // verus!
