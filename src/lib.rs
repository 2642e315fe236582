//! Matching core of a grid trading bot: constant-product pool quotes, standing
//! grid orders and order ladders, the two greedy filling engines, and the
//! change gate and mempool overlay that decide when matching runs again.

pub mod token;
pub mod wide;
pub mod liquidity;
pub mod hex;
pub mod pool;
pub mod units;
pub mod grid_order;
pub mod multigrid_order;
pub mod multigrid_fill;
pub mod grid_fill;
pub mod matcher;
pub mod config;
