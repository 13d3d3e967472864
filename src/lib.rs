//! A market-making simulator for probability markets (prices in [0, 1]).
//!
//! Prices and sizes are exact fixed-point integers: `ONE` stands for 1.0.
//! Money amounts (notional, exposure, PnL) are products of a size and a price
//! and so carry the scale `ONE * ONE`; they are kept exactly, without rounding.

pub mod fixed;
pub mod market_state;
pub mod market_maker;
pub mod execution_engine;
