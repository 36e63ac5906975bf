//! Verified core of a lending protocol: fixed-point math, interest rate model,
//! liquidity pool accounting, liquidation math, oracle checks and position rules.
pub mod account;
pub mod controller;
pub mod factory;
pub mod lending;
pub mod liquidation;
pub mod liquidation_bp;
pub mod liquidation_flow;
pub mod liquidity;
pub mod math;
pub mod oracle;
pub mod pool;
pub mod position;
pub mod rates;
pub mod token;
pub mod u256;
pub mod valuation;
pub mod views;
pub mod wide;
