//! Decision logic of the BTC 15-minute Up/Down spread arbitrage bot: market discovery
//! over Gamma API events, instants and whole-second arithmetic, the entry state machine of
//! a market cycle, and the configuration values that the bot starts from.

pub mod time;
pub mod text;
pub mod order;
pub mod market;
pub mod config;
pub mod strategy;
pub mod redeem;
