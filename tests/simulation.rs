use quant_bot::execution_engine::{settle_tick, synthesize_order, ExecutionEngine, StepResult};
use quant_bot::fixed::ONE;
use quant_bot::market_maker::{MarketMaker, MarketMakerConfig, Order};
use quant_bot::market_state::{Fill, MarketState, Side};

fn market(name: &str, mid: i64) -> MarketState {
    let mut m = MarketState::new(name, mid);
    m.inventory_limit = 200 * ONE;
    m.exposure_limit = 10_000 * (ONE as i128) * (ONE as i128);
    m.spread = 50_000;
    m
}

fn engine(seed: u64) -> ExecutionEngine {
    let markets = vec![
        market("inflation_gt_20", 300_000),
        market("election_candidate_a", 550_000),
        market("team_x_wins", 500_000),
    ];
    ExecutionEngine::new(markets, seed)
}

fn same_result(a: &StepResult, b: &StepResult) -> bool {
    a.mid == b.mid
        && a.inventory == b.inventory
        && a.pnl == b.pnl
        && a.spread == b.spread
        && a.fills.len() == b.fills.len()
        && a.fills.iter().zip(b.fills.iter()).all(|(x, y)| x.side == y.side && x.size == y.size && x.price == y.price)
}

#[test]
fn new_market_defaults() {
    let m = MarketState::new("x", 420_000);
    assert_eq!(m.name, "x");
    assert_eq!(m.mid, 420_000);
    assert_eq!(m.spread, 50_000);
    assert_eq!(m.inventory, 0);
    assert_eq!(m.fill_count, 0);
    assert_eq!(m.notional, 0);
    assert_eq!(m.inventory_limit, 100 * ONE);
    assert!(m.fills.is_empty());
    let snap = m.snapshot();
    assert_eq!(snap.name, "x");
    assert_eq!(snap.mid, 420_000);
    assert_eq!(snap.max_drawdown, 0);
}

#[test]
fn fill_carries_wall_clock_time() {
    let f = Fill::new(Side::Buy, 3 * ONE, 400_000);
    assert_eq!(f.side, Side::Buy);
    assert_eq!(f.size, 3 * ONE);
    assert_eq!(f.price, 400_000);
    assert!(f.timestamp > 0);
}

#[test]
fn record_fill_updates_ledger() {
    let mut m = MarketState::new("x", 500_000);
    m.record_fill(Side::Buy, 5 * ONE, 400_000);
    assert_eq!(m.inventory, 5 * ONE);
    assert_eq!(m.fill_count, 1);
    assert_eq!(m.notional, 5_000_000i128 * 400_000);
    assert_eq!(m.exposure, 5_000_000i128 * 500_000);
    m.record_fill(Side::Sell, 8 * ONE, 600_000);
    assert_eq!(m.inventory, -3 * ONE);
    assert_eq!(m.fill_count, 2);
    assert_eq!(m.notional, 5_000_000i128 * 400_000 + 8_000_000i128 * 600_000);
    assert_eq!(m.exposure, 3_000_000i128 * 500_000);
    assert_eq!(m.fills.len(), 2);
    assert_eq!(m.fills[1].side, Side::Sell);
}

#[test]
fn side_names() {
    assert_eq!(Side::Buy.as_str(), "buy");
    assert_eq!(Side::Sell.as_str(), "sell");
}

#[test]
fn maker_takes_base_spread_from_market() {
    let mut m = MarketState::new("x", 500_000);
    m.spread = 70_000;
    let mm = MarketMaker::new(&m, None);
    assert_eq!(mm.config.base_spread, 70_000);
    assert_eq!(mm.config.window_size, 20);
    assert_eq!(mm.config.min_spread, 10_000);
    assert_eq!(mm.config.max_spread, 500_000);
    assert_eq!(mm.config.inventory_skew, 1_000);
    let cfg = MarketMakerConfig { window_size: 5, base_spread: 1, min_spread: 2, max_spread: 300_000, inventory_skew: 7 };
    let mm2 = MarketMaker::new(&m, Some(cfg));
    assert_eq!(mm2.config.window_size, 5);
    assert_eq!(mm2.config.base_spread, 70_000);
    assert_eq!(mm2.config.inventory_skew, 7);
    assert!(mm2.imbalance_window.is_empty());
}

#[test]
fn quote_flat_book() {
    let mut m = market("x", 500_000);
    let mut mm = MarketMaker::new(&m, None);
    let (bid, ask, size) = mm.quote(&mut m);
    assert_eq!(bid, 475_000);
    assert_eq!(ask, 525_000);
    assert_eq!(size, 10 * ONE);
    assert_eq!(m.spread, 50_000);
    assert_eq!(m.mid, 500_000);
}

#[test]
fn quote_shades_and_widens_with_inventory() {
    let mut m = market("x", 500_000);
    let mut mm = MarketMaker::new(&m, None);
    m.inventory = 100 * ONE;
    let (bid, ask, size) = mm.quote(&mut m);
    // spread 0.05 * (1 + 100 * 0.001) = 0.055; shade 100 * 0.001 = 0.1
    assert_eq!(m.spread, 55_000);
    assert_eq!(bid, 400_000 - 27_500);
    assert_eq!(ask, 400_000 + 27_500);
    // size 10 - 100 / 10 = 0, raised to 1
    assert_eq!(size, ONE);
}

#[test]
fn quote_spread_clamped_to_max() {
    let mut m = market("x", 500_000);
    let mut mm = MarketMaker::new(&m, None);
    for _ in 0..20 {
        mm.on_fill(&mut m, Side::Buy, 30 * ONE);
    }
    m.mid = 500_000;
    let (bid, ask, _) = mm.quote(&mut m);
    assert_eq!(m.spread, 500_000);
    assert_eq!(bid, 250_000);
    assert_eq!(ask, 750_000);
}

#[test]
fn quote_twice_is_idempotent() {
    let mut m = market("x", 610_000);
    let mut mm = MarketMaker::new(&m, None);
    mm.on_fill(&mut m, Side::Sell, 7 * ONE);
    m.inventory = -12 * ONE;
    let first = mm.quote(&mut m);
    let spread_first = m.spread;
    let second = mm.quote(&mut m);
    assert_eq!(first, second);
    assert_eq!(m.spread, spread_first);
}

#[test]
fn on_fill_flow_adjustment() {
    let mut m = market("x", 500_000);
    let mut mm = MarketMaker::new(&m, None);
    mm.on_fill(&mut m, Side::Buy, 20 * ONE);
    // 0.05 * 20 / 30, rounded toward zero
    assert_eq!(m.mid, 533_333);
    mm.on_fill(&mut m, Side::Sell, 20 * ONE);
    assert_eq!(m.mid, 500_000);
    assert_eq!(mm.imbalance_window.len(), 2);
    assert_eq!(mm.imbalance_window[0], 20 * ONE);
    assert_eq!(mm.imbalance_window[1], -20 * ONE);
}

#[test]
fn window_keeps_newest_entries() {
    let mut m = market("x", 500_000);
    let mut mm = MarketMaker::new(&m, None);
    for k in 1..=105i64 {
        mm.on_fill(&mut m, Side::Buy, k);
    }
    assert_eq!(mm.imbalance_window.len(), 100);
    assert_eq!(mm.imbalance_window[0], 6);
    assert_eq!(mm.imbalance_window[99], 105);
}

#[test]
fn corrective_nudge_when_inventory_crosses_limit() {
    let mut m = market("x", 500_000);
    let mut mm = MarketMaker::new(&m, None);
    let mut mids = vec![m.mid];
    for _ in 0..9 {
        m.record_fill(Side::Buy, 20 * ONE, 500_000);
        mm.on_fill(&mut m, Side::Buy, 20 * ONE);
        mids.push(m.mid);
    }
    // Up to 160 contracts held only the flow adjustment (+0.0333) applies.
    for k in 1..=8 {
        assert_eq!(mids[k] - mids[k - 1], 33_333);
    }
    // At 180 > 0.8 * 200 the mid also drops by 0.05.
    assert_eq!(m.inventory, 180 * ONE);
    assert_eq!(mids[9], mids[8] + 33_333 - 50_000);
    assert!(mids[9] < mids[8]);
}

#[test]
fn corrective_nudge_for_short_position() {
    let mut m = market("x", 500_000);
    let mut mm = MarketMaker::new(&m, None);
    m.inventory = -170 * ONE;
    mm.on_fill(&mut m, Side::Sell, 20 * ONE);
    assert_eq!(m.mid, 500_000 - 33_333 + 50_000);
}

#[test]
fn mid_clamped_to_bounds() {
    let mut m = market("x", 985_000);
    let mut mm = MarketMaker::new(&m, None);
    mm.on_fill(&mut m, Side::Buy, 30 * ONE);
    assert_eq!(m.mid, 990_000);
    m.mid = 15_000;
    mm.on_fill(&mut m, Side::Sell, 30 * ONE);
    assert_eq!(m.mid, 10_000);
}

#[test]
fn on_tick_matches_crossing_orders_only() {
    let mut m = market("x", 500_000);
    let mut mm = MarketMaker::new(&m, None);
    let orders = vec![
        Order { side: Side::Buy, size: 5 * ONE, price: ONE },
        Order { side: Side::Buy, size: 5 * ONE, price: 400_000 },
        Order { side: Side::Sell, size: 4 * ONE, price: 0 },
        Order { side: Side::Sell, size: 4 * ONE, price: 480_000 },
    ];
    let fills = mm.on_tick(&mut m, &orders);
    assert_eq!(fills.len(), 2);
    assert_eq!(fills[0].side, Side::Sell);
    assert_eq!(fills[0].price, 525_000);
    assert_eq!(fills[0].size, 5 * ONE);
    assert_eq!(fills[1].side, Side::Buy);
    assert_eq!(fills[1].price, 475_000);
    assert_eq!(fills[1].size, 4 * ONE);
    assert_eq!(m.inventory, -ONE);
    assert_eq!(m.fill_count, 2);
    assert_eq!(m.fills.len(), 2);
}

#[test]
fn settle_tick_single_buy_order() {
    let mut m = MarketState::new("x", 500_000);
    let mut mm = MarketMaker::new(&m, None);
    let orders = vec![Order { side: Side::Buy, size: 5 * ONE, price: ONE }];
    let r = settle_tick(&mut m, &mut mm, &orders);
    assert_eq!(r.fills.len(), 1);
    assert_eq!(r.fills[0].side, Side::Sell);
    assert_eq!(r.fills[0].price, 525_000);
    assert_eq!(m.inventory, -5 * ONE);
    assert_eq!(m.pnl, 125_000_000_000);
    assert_eq!(m.peak_pnl, 125_000_000_000);
    assert_eq!(m.max_drawdown, 0);
    assert_eq!(m.notional, 2_625_000_000_000);
    assert_eq!(m.exposure, 2_500_000_000_000);
    // flow moves the mid to 0.483334, then it reverts toward 0.5
    assert_eq!(m.mid, 483_417);
    assert_eq!(r.mid, 483_417);
    assert_eq!(r.pnl, m.pnl);
    assert_eq!(r.spread, 50_000);
}

#[test]
fn settle_tick_pnl_marked_against_pre_fill_mid() {
    let mut m = MarketState::new("x", 500_000);
    let mut mm = MarketMaker::new(&m, None);
    let orders = vec![
        Order { side: Side::Sell, size: 5 * ONE, price: 0 },
        Order { side: Side::Sell, size: 5 * ONE, price: 0 },
    ];
    let r = settle_tick(&mut m, &mut mm, &orders);
    assert_eq!(r.fills.len(), 2);
    // both bought at 0.475 and marked against 0.5
    assert_eq!(m.pnl, 2 * 125_000_000_000);
    assert_eq!(m.inventory, 10 * ONE);
}

#[test]
fn settle_tick_drawdown_tracks_peak() {
    let mut m = MarketState::new("x", 500_000);
    let mut mm = MarketMaker::new(&m, None);
    m.pnl = 1_000_000_000_000;
    m.peak_pnl = 2_000_000_000_000;
    m.max_drawdown = 500_000_000_000;
    let orders = vec![Order { side: Side::Buy, size: 5 * ONE, price: ONE }];
    settle_tick(&mut m, &mut mm, &orders);
    assert_eq!(m.pnl, 1_125_000_000_000);
    assert_eq!(m.peak_pnl, 2_000_000_000_000);
    assert_eq!(m.max_drawdown, 875_000_000_000);
}

#[test]
fn quiet_tick_still_reverts() {
    let mut m = market("x", 300_000);
    let mut mm = MarketMaker::new(&m, None);
    let r = settle_tick(&mut m, &mut mm, &[]);
    assert!(r.fills.is_empty());
    // 0.3 * 0.995 + 0.5 * 0.005 = 0.301
    assert_eq!(m.mid, 301_000);
    assert_eq!(m.pnl, 0);
    assert_eq!(m.fill_count, 0);
}

#[test]
fn synthesize_order_sides_and_sizes() {
    let o = synthesize_order(500_000, 1, 500_000);
    assert_eq!(o, Order { side: Side::Buy, size: 6 * ONE, price: ONE });
    let o = synthesize_order(500_000, 0, 0);
    assert_eq!(o, Order { side: Side::Sell, size: 4 * ONE, price: 0 });
    let o = synthesize_order(400_000, 149_999, 999_999);
    assert_eq!(o, Order { side: Side::Buy, size: 7_999_996, price: ONE });
}

#[test]
fn order_flow_is_drawn_in_range() {
    let mut e = engine(7);
    for _ in 0..50 {
        for i in 0..3 {
            let orders = e.simulate_order_flow(i);
            assert!(!orders.is_empty() && orders.len() <= 3);
            for o in &orders {
                assert!(o.size >= 4 * ONE && o.size < 8 * ONE);
                match o.side {
                    Side::Buy => assert_eq!(o.price, ONE),
                    Side::Sell => assert_eq!(o.price, 0),
                }
            }
        }
    }
}

#[test]
fn one_step_every_order_fills() {
    let mut m = MarketState::new("team_x_wins", 500_000);
    m.inventory_limit = 200 * ONE;
    m.exposure_limit = 10_000 * (ONE as i128) * (ONE as i128);
    m.spread = 50_000;
    let mut e = ExecutionEngine::new(vec![m], 123);
    let r = e.step();
    assert_eq!(r.len(), 1);
    assert_eq!(r[0].0, "team_x_wins");
    let n = r[0].1.fills.len();
    assert!((1..=3).contains(&n));
    assert_eq!(e.markets[0].fill_count as usize, n);
    assert_eq!(e.time, 1);
}

#[test]
fn same_seed_same_trace() {
    let mut a = engine(123);
    let mut b = engine(123);
    let ta = a.run(60);
    let tb = b.run(60);
    assert_eq!(ta.len(), 60);
    for (sa, sb) in ta.iter().zip(tb.iter()) {
        assert_eq!(sa.len(), sb.len());
        for (x, y) in sa.iter().zip(sb.iter()) {
            assert_eq!(x.0, y.0);
            assert!(same_result(&x.1, &y.1));
        }
    }
}

#[test]
fn run_keeps_invariants() {
    let mut e = engine(42);
    let mut last_dd: Vec<i128> = e.markets.iter().map(|m| m.max_drawdown).collect();
    for _ in 0..200 {
        let results = e.step();
        for (i, m) in e.markets.iter().enumerate() {
            assert!(m.mid >= 0 && m.mid <= ONE);
            assert!(m.spread >= 10_000 && m.spread <= 500_000);
            assert!(m.max_drawdown >= last_dd[i]);
            last_dd[i] = m.max_drawdown;
            assert_eq!(m.fill_count as usize, m.fills.len());
            let total: i128 = m.fills.iter().map(|f| (f.size.abs() as i128) * (f.price as i128)).sum();
            assert_eq!(m.notional, total);
            assert_eq!(results[i].1.mid, m.mid);
        }
    }
    assert_eq!(e.time, 200);
}

#[test]
fn run_zero_steps_changes_nothing() {
    let mut e = engine(5);
    let trace = e.run(0);
    assert!(trace.is_empty());
    assert_eq!(e.time, 0);
    for m in &e.markets {
        assert_eq!(m.fill_count, 0);
        assert_eq!(m.pnl, 0);
    }
    assert_eq!(e.markets[0].mid, 300_000);
}

#[test]
fn run_trace_accounts_for_every_fill() {
    let mut e = engine(123);
    let trace = e.run(40);
    assert_eq!(trace.len(), 40);
    for (i, m) in e.markets.iter().enumerate() {
        let mut total: usize = 0;
        for step in &trace {
            assert_eq!(step.len(), 3);
            assert_eq!(step[i].0, m.name);
            let n = step[i].1.fills.len();
            assert!((1..=3).contains(&n));
            assert!(step[i].1.mid >= 0 && step[i].1.mid <= ONE);
            assert!(step[i].1.spread >= 10_000 && step[i].1.spread <= 500_000);
            total += n;
        }
        assert_eq!(m.fill_count as usize, total);
        assert_eq!(trace[39][i].1.mid, m.mid);
        assert_eq!(trace[39][i].1.pnl, m.pnl);
    }
}
