//! Relative-value trading on ETF options: an arbitrage-free pricing surface, a
//! liquidity gate, tree-model scoring, multi-leg structures, and a box and
//! butterfly engine that trades against live quotes.

pub mod activation;
pub mod backtest;
pub mod calendar;
pub mod calibration;
pub mod capital_laws;
pub mod decimal;
pub mod entry_laws;
pub mod exact;
pub mod execution;
pub mod execution_laws;
pub mod exit_laws;
pub mod features;
pub mod feed;
pub mod fit_laws;
pub mod greeks_laws;
pub mod ingestion;
pub mod instruments;
pub mod lp;
pub mod market;
pub mod model;
pub mod number;
pub mod optimizer;
pub mod optimum_laws;
pub mod performance;
pub mod portfolio;
pub mod portfolio_laws;
pub mod pricing;
pub mod pricing_laws;
pub mod program_laws;
pub mod ranking;
pub mod replay;
pub mod report;
pub mod scan_laws;
pub mod scanner;
pub mod score_laws;
pub mod search_laws;
pub mod structure_laws;
pub mod structures;
pub mod surface_laws;
pub mod swarm;
pub mod text;
pub mod theta_laws;
pub mod trader;
pub mod trader_laws;
pub mod worth_laws;
