//! Configuration: defaults, command-line overrides, and where the configuration and the
//! snapshot database live.
use vstd::prelude::*;
use std::path::PathBuf;
use crate::text::{chars_of, string_of_range};

verus! {

#[verifier::external_type_specification]
#[verifier::external_body]
pub struct ExPathBuf(PathBuf);

pub struct ValidatorConfig {
    pub vote_pubkey: Option<String>,
}

pub struct RpcConfig {
    pub url: String,
    pub requests_per_second: u32,
}

pub struct SnapshotConfig {
    pub db_path: String,
    pub auto_snapshot: bool,
}

/// Analysis settings. The minimum opportunity is in lamports, the gaming threshold in
/// parts per million.
pub struct AnalysisConfig {
    pub lookback_epochs: u32,
    pub threat_overtake_horizon_epochs: u32,
    pub min_opportunity_stake_lamports: u64,
    pub gaming_confidence_threshold_ppm: u64,
}

pub struct CohortsConfig {
    pub custom: Vec<CustomCohort>,
}

pub struct CustomCohort {
    pub name: String,
    pub filter: String,
}

pub struct AlertsConfig {
    pub discord_webhook: String,
    pub telegram_bot_token: String,
    pub telegram_chat_id: String,
    pub enable_stdout: bool,
    pub rules: AlertRulesConfig,
}

#[derive(Clone, Copy)]
pub struct AlertRulesConfig {
    pub threat_critical: bool,
    pub opportunity_easy: bool,
    pub queue_drop: bool,
    pub gaming_detected: bool,
}

pub struct AppConfig {
    pub validator: ValidatorConfig,
    pub rpc: RpcConfig,
    pub snapshot: SnapshotConfig,
    pub analysis: AnalysisConfig,
    pub cohorts: CohortsConfig,
    pub alerts: AlertsConfig,
}

/// Values given on the command line that take precedence over the configuration file.
pub struct ConfigOverrides {
    pub vote_pubkey: Option<String>,
    pub rpc_url: Option<String>,
    pub lookback_epochs: Option<u32>,
}

impl Default for ValidatorConfig {
    fn default() -> (c: Self)
        ensures
            c.vote_pubkey is None,
    {
        ValidatorConfig { vote_pubkey: None }
    }
}

impl Default for RpcConfig {
    fn default() -> (c: Self)
        ensures
            c.url@ == "https://api.mainnet-beta.solana.com"@,
            c.requests_per_second == 5,
    {
        RpcConfig { url: String::from_str("https://api.mainnet-beta.solana.com"), requests_per_second: 5 }
    }
}

impl Default for SnapshotConfig {
    fn default() -> (c: Self)
        ensures
            c.db_path@ == "~/.local/share/stake-radar/snapshots.db"@,
            c.auto_snapshot,
    {
        SnapshotConfig { db_path: String::from_str("~/.local/share/stake-radar/snapshots.db"), auto_snapshot: true }
    }
}

impl Default for AnalysisConfig {
    /// Ten epochs of lookback, a fifteen-epoch overtake horizon, 5,000 SOL minimum
    /// opportunity and a 0.65 gaming confidence threshold.
    fn default() -> (c: Self)
        ensures
            c.lookback_epochs == 10,
            c.threat_overtake_horizon_epochs == 15,
            c.min_opportunity_stake_lamports == 5_000_000_000_000,
            c.gaming_confidence_threshold_ppm == 650_000,
    {
        AnalysisConfig {
            lookback_epochs: 10,
            threat_overtake_horizon_epochs: 15,
            min_opportunity_stake_lamports: 5_000_000_000_000,
            gaming_confidence_threshold_ppm: 650_000,
        }
    }
}

impl Default for CohortsConfig {
    fn default() -> (c: Self)
        ensures
            c.custom.len() == 0,
    {
        CohortsConfig { custom: Vec::new() }
    }
}

impl Default for AlertRulesConfig {
    fn default() -> (c: Self)
        ensures
            c.threat_critical && c.opportunity_easy && c.queue_drop && c.gaming_detected,
    {
        AlertRulesConfig { threat_critical: true, opportunity_easy: true, queue_drop: true, gaming_detected: true }
    }
}

impl Default for AlertsConfig {
    fn default() -> (c: Self)
        ensures
            c.discord_webhook@.len() == 0,
            c.telegram_bot_token@.len() == 0,
            c.telegram_chat_id@.len() == 0,
            c.enable_stdout,
            c.rules.threat_critical && c.rules.opportunity_easy && c.rules.queue_drop && c.rules.gaming_detected,
    {
        AlertsConfig {
            discord_webhook: String::new(),
            telegram_bot_token: String::new(),
            telegram_chat_id: String::new(),
            enable_stdout: true,
            rules: AlertRulesConfig::default(),
        }
    }
}

impl Default for ConfigOverrides {
    fn default() -> (c: Self)
        ensures
            c.vote_pubkey is None,
            c.rpc_url is None,
            c.lookback_epochs is None,
    {
        ConfigOverrides { vote_pubkey: None, rpc_url: None, lookback_epochs: None }
    }
}

impl Default for AppConfig {
    fn default() -> (c: Self)
        ensures
            c.validator.vote_pubkey is None,
            c.rpc.url@ == "https://api.mainnet-beta.solana.com"@,
            c.rpc.requests_per_second == 5,
            c.snapshot.db_path@ == "~/.local/share/stake-radar/snapshots.db"@,
            c.snapshot.auto_snapshot,
            c.analysis.lookback_epochs == 10,
            c.analysis.threat_overtake_horizon_epochs == 15,
            c.analysis.min_opportunity_stake_lamports == 5_000_000_000_000,
            c.analysis.gaming_confidence_threshold_ppm == 650_000,
            c.cohorts.custom.len() == 0,
            c.alerts.discord_webhook@.len() == 0,
            c.alerts.telegram_bot_token@.len() == 0,
            c.alerts.telegram_chat_id@.len() == 0,
            c.alerts.enable_stdout,
            c.alerts.rules.threat_critical && c.alerts.rules.opportunity_easy && c.alerts.rules.queue_drop
                && c.alerts.rules.gaming_detected,
    {
        AppConfig {
            validator: ValidatorConfig::default(),
            rpc: RpcConfig::default(),
            snapshot: SnapshotConfig::default(),
            analysis: AnalysisConfig::default(),
            cohorts: CohortsConfig::default(),
            alerts: AlertsConfig::default(),
        }
    }
}

/// A path as the configuration describes it: taken literally, the home directory itself,
/// or a relative path under the home directory.
pub enum ExpandedPath {
    Literal(String),
    Home(PathBuf),
    UnderHome { home: PathBuf, rest: String },
}

/// `dirs::home_dir`: the current user's home directory, if one can be determined. It
/// depends on the environment; nothing is promised of it.
#[verifier::external_body]
fn home_dir() -> (r: Option<PathBuf>) {
    dirs::home_dir()
}

/// Expands a leading `~` with the given home directory: `~` is the home directory and
/// `~/rest` is `rest` under it; without a home directory, and for any other path, the path
/// is taken literally.
pub fn expand_home_with(raw: &str, home: Option<PathBuf>) -> (r: ExpandedPath)
    ensures
        raw@ == "~"@ ==> (match home {
            Some(h) => r == ExpandedPath::Home(h),
            None => r matches ExpandedPath::Literal(s) && s@ == "~"@,
        }),
        raw@ != "~"@ && raw@.len() >= 2 && raw@[0] == '~' && raw@[1] == '/' && home is Some ==> (r matches ExpandedPath::UnderHome { home: h, rest }
            && Some(h) == home && rest@ == raw@.subrange(2, raw@.len() as int)),
        raw@ != "~"@ && !(raw@.len() >= 2 && raw@[0] == '~' && raw@[1] == '/' && home is Some) ==> (r matches ExpandedPath::Literal(s) && s@ == raw@),
{
    let chars = chars_of(raw);
    let tilde = String::from_str("~");
    let whole = String::from_str(raw);
    if whole == tilde {
        return match home {
            Some(h) => ExpandedPath::Home(h),
            None => ExpandedPath::Literal(tilde),
        };
    }
    let n = chars.len();
    if n >= 2 && chars[0] == '~' && chars[1] == '/' {
        if let Some(h) = home {
            let rest = string_of_range(&chars, 2, n);
            return ExpandedPath::UnderHome { home: h, rest };
        }
    }
    ExpandedPath::Literal(whole)
}

/// What `~`-expansion may give for `raw`, whichever home directory is found: `~` is the home
/// directory or stays `~`; `~/rest` is `rest` under the home directory or stays as given;
/// any other path is taken literally.
pub open spec fn expansion_of(raw: Seq<char>, r: ExpandedPath) -> bool {
    if raw == "~"@ {
        r is Home || (r matches ExpandedPath::Literal(s) && s@ == "~"@)
    } else if raw.len() >= 2 && raw[0] == '~' && raw[1] == '/' {
        (r matches ExpandedPath::UnderHome { home: _, rest } && rest@ == raw.subrange(2, raw.len() as int))
            || (r matches ExpandedPath::Literal(s) && s@ == raw)
    } else {
        r matches ExpandedPath::Literal(s) && s@ == raw
    }
}

/// Expands a leading `~` with the current user's home directory (see `expand_home_with`).
pub fn expand_home(raw: &str) -> (r: ExpandedPath)
    ensures
        expansion_of(raw@, r),
{
    let home = home_dir();
    proof {
        reveal_strlit("~");
    }
    expand_home_with(raw, home)
}

/// The configuration file's path for a home directory: `.config/stake-radar/config.toml`
/// under it, else `./config.toml`.
pub fn default_path_with(home: Option<PathBuf>) -> (r: ExpandedPath)
    ensures
        home matches Some(h) ==> (r matches ExpandedPath::UnderHome { home: rh, rest } && rh == h
            && rest@ == ".config/stake-radar/config.toml"@),
        home is None ==> (r matches ExpandedPath::Literal(s) && s@ == "./config.toml"@),
{
    match home {
        Some(home) => ExpandedPath::UnderHome { home, rest: String::from_str(".config/stake-radar/config.toml") },
        None => ExpandedPath::Literal(String::from_str("./config.toml")),
    }
}

impl AppConfig {
    /// `.config/stake-radar/config.toml` under the current user's home directory, else
    /// `./config.toml` (see `default_path_with`).
    pub fn default_path() -> (r: ExpandedPath)
        ensures
            (r matches ExpandedPath::UnderHome { home: _, rest } && rest@ == ".config/stake-radar/config.toml"@)
                || (r matches ExpandedPath::Literal(s) && s@ == "./config.toml"@),
    {
        default_path_with(home_dir())
    }

    /// Replaces the validator, the RPC URL and the lookback window by the overrides given.
    pub fn apply_overrides(&mut self, overrides: &ConfigOverrides)
        ensures
            final(self).validator.vote_pubkey == (match overrides.vote_pubkey {
                Some(v) => Some(v),
                None => old(self).validator.vote_pubkey,
            }),
            final(self).rpc.url == (match overrides.rpc_url {
                Some(u) => u,
                None => old(self).rpc.url,
            }),
            final(self).analysis.lookback_epochs == (match overrides.lookback_epochs {
                Some(l) => l,
                None => old(self).analysis.lookback_epochs,
            }),
            final(self).rpc.requests_per_second == old(self).rpc.requests_per_second,
            final(self).snapshot == old(self).snapshot,
            final(self).analysis.threat_overtake_horizon_epochs == old(self).analysis.threat_overtake_horizon_epochs,
            final(self).analysis.min_opportunity_stake_lamports == old(self).analysis.min_opportunity_stake_lamports,
            final(self).analysis.gaming_confidence_threshold_ppm == old(self).analysis.gaming_confidence_threshold_ppm,
            final(self).cohorts == old(self).cohorts,
            final(self).alerts == old(self).alerts,
            overrides.vote_pubkey is None && overrides.rpc_url is None && overrides.lookback_epochs is None
                ==> *final(self) == *old(self),
    {
        if let Some(vote_pubkey) = &overrides.vote_pubkey {
            self.validator.vote_pubkey = Some(vote_pubkey.clone());
        }
        if let Some(rpc_url) = &overrides.rpc_url {
            self.rpc.url = rpc_url.clone();
        }
        if let Some(lookback) = overrides.lookback_epochs {
            self.analysis.lookback_epochs = lookback;
        }
    }

    /// The snapshot database path, with a leading `~` expanded.
    pub fn snapshot_db_path(&self) -> (r: ExpandedPath)
        ensures
            expansion_of(self.snapshot.db_path@, r),
    {
        expand_home(self.snapshot.db_path.as_str())
    }
}

} // verus!
