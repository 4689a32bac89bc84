//! Configuration values the bot starts from: the command line, the Polymarket endpoints
//! and credentials, and the defaults of the strategy's integer and text settings.

use vstd::prelude::*;

verus! {

/// Command-line arguments.
pub struct Args {
    /// Path of the JSON configuration file (`config.json` unless given).
    pub config: String,
    /// Redeem winning tokens for completed markets instead of trading.
    pub redeem: bool,
    /// Condition id to redeem; only meaningful together with `redeem`.
    pub condition_id: Option<String>,
}

/// Polymarket endpoints and credentials.
pub struct PolymarketConfig {
    pub gamma_api_url: String,
    pub clob_api_url: String,
    pub api_key: Option<String>,
    pub api_secret: Option<String>,
    pub api_passphrase: Option<String>,
    pub private_key: Option<String>,
    pub proxy_wallet_address: Option<String>,
    pub signature_type: Option<u8>,
    pub rpc_url: Option<String>,
}

/// The Gamma API endpoint unless configured.
pub fn default_gamma_api_url() -> (r: String)
    ensures
        r@ == "https://gamma-api.polymarket.com"@,
{
    String::from_str("https://gamma-api.polymarket.com")
}

/// The CLOB API endpoint unless configured.
pub fn default_clob_api_url() -> (r: String)
    ensures
        r@ == "https://clob.polymarket.com"@,
{
    String::from_str("https://clob.polymarket.com")
}

/// Whether orders are only simulated unless configured: yes, so that no real order is
/// placed by accident.
pub fn default_simulation_mode() -> (r: bool)
    ensures
        r,
{
    true
}

/// Shares bought per leg unless configured: the text `100`.
pub fn default_shares() -> (r: String)
    ensures
        r@ == "100"@,
{
    String::from_str("100")
}

/// Milliseconds between price polls unless configured.
pub fn default_price_poll_interval_ms() -> (r: u64)
    ensures
        r == 5_000,
{
    5_000
}

/// Seconds between refreshes of the market list unless configured.
pub fn default_market_refresh_interval_secs() -> (r: u64)
    ensures
        r == 60,
{
    60
}

/// Fewest seconds before expiry at which a market may still be entered, unless configured.
pub fn default_min_seconds_before_expiry() -> (r: i64)
    ensures
        r == 120,
{
    120
}

impl Default for PolymarketConfig {
    /// The public Gamma and CLOB endpoints, with no credentials, wallet or RPC endpoint.
    fn default() -> (r: Self)
        ensures
            r.gamma_api_url@ == "https://gamma-api.polymarket.com"@,
            r.clob_api_url@ == "https://clob.polymarket.com"@,
            r.api_key is None,
            r.api_secret is None,
            r.api_passphrase is None,
            r.private_key is None,
            r.proxy_wallet_address is None,
            r.signature_type is None,
            r.rpc_url is None,
    {
        PolymarketConfig {
            gamma_api_url: default_gamma_api_url(),
            clob_api_url: default_clob_api_url(),
            api_key: None,
            api_secret: None,
            api_passphrase: None,
            private_key: None,
            proxy_wallet_address: None,
            signature_type: None,
            rpc_url: None,
        }
    }
}

} // verus!
