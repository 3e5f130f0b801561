//! Alerting: which findings raise an alert, with what severity, category and title, and
//! where the alerts go.
use vstd::prelude::*;
use crate::config::AlertsConfig;
use crate::text::{trim_spec, trim_string};

pub mod rules;

verus! {

/// The sinks that a batch of alerts goes to.
pub struct AlertChannels {
    pub stdout: bool,
    pub discord: bool,
    pub telegram: bool,
}

/// Where `alert_count` alerts go: nowhere when there are none; to standard output when it is
/// enabled; to Discord when a webhook is set, and to Telegram when a bot token and a chat id
/// are set (each ignoring surrounding white space).
pub fn alert_channels(config: &AlertsConfig, alert_count: usize) -> (c: AlertChannels)
    ensures
        c.stdout == (alert_count > 0 && config.enable_stdout),
        c.discord == (alert_count > 0 && trim_spec(config.discord_webhook@).len() > 0),
        c.telegram == (alert_count > 0 && trim_spec(config.telegram_bot_token@).len() > 0
            && trim_spec(config.telegram_chat_id@).len() > 0),
{
    if alert_count == 0 {
        return AlertChannels { stdout: false, discord: false, telegram: false };
    }
    let webhook = trim_string(config.discord_webhook.as_str());
    let token = trim_string(config.telegram_bot_token.as_str());
    let chat = trim_string(config.telegram_chat_id.as_str());
    AlertChannels {
        stdout: config.enable_stdout,
        discord: !webhook.as_str().is_empty(),
        telegram: !token.as_str().is_empty() && !chat.as_str().is_empty(),
    }
}

/// The watch loop stops after cycle `cycle` when a cycle limit is set and reached.
pub fn watch_should_stop(cycle: u32, max_cycles: Option<u32>) -> (stop: bool)
    ensures
        stop == (max_cycles matches Some(m) && cycle >= m),
{
    match max_cycles {
        Some(m) => cycle >= m,
        None => false,
    }
}

} // verus!
