//! Monte Carlo return simulation, percentile scoring and top-N ranking of symbols.
pub mod distribution;
pub mod monte_carlo;
pub mod pipeline;
pub mod ranking;
pub mod ranking_laws;
pub mod series;
pub mod thresholds;
