use stake_radar::alert::rules::{evaluate_rules, AlertPlan};
use stake_radar::analysis::adversarial::{GamingEvidence, GamingSignal};
use stake_radar::analysis::queue::PoolQueuePosition;
use stake_radar::config::{expand_home_with, AppConfig, ConfigOverrides, ExpandedPath};
use stake_radar::models::{
    AlertCategory, AlertSeverity, CaptureDifficulty, DecayCause, DecayOpportunity, GamingType, QueueDirection,
    StakePoolId, StakeSource, ThreatProfile, ThreatTier,
};
use std::path::PathBuf;

#[test]
fn defaults_match_the_documented_configuration() {
    let c = AppConfig::default();
    assert!(c.validator.vote_pubkey.is_none());
    assert_eq!(c.rpc.url, "https://api.mainnet-beta.solana.com");
    assert_eq!(c.analysis.lookback_epochs, 10);
    assert_eq!(c.analysis.threat_overtake_horizon_epochs, 15);
    assert_eq!(c.analysis.min_opportunity_stake_lamports, 5_000_000_000_000);
    assert_eq!(c.analysis.gaming_confidence_threshold_ppm, 650_000);
    assert!(c.alerts.rules.threat_critical && c.alerts.rules.gaming_detected);
}

#[test]
fn overrides_replace_only_what_is_given() {
    let mut c = AppConfig::default();
    c.apply_overrides(&ConfigOverrides { vote_pubkey: None, rpc_url: None, lookback_epochs: None });
    assert!(c.validator.vote_pubkey.is_none());
    assert_eq!(c.analysis.lookback_epochs, 10);
    c.apply_overrides(&ConfigOverrides {
        vote_pubkey: Some("Vote1".to_string()),
        rpc_url: Some("http://localhost:8899".to_string()),
        lookback_epochs: Some(20),
    });
    assert_eq!(c.validator.vote_pubkey.as_deref(), Some("Vote1"));
    assert_eq!(c.rpc.url, "http://localhost:8899");
    assert_eq!(c.analysis.lookback_epochs, 20);
    assert_eq!(c.analysis.threat_overtake_horizon_epochs, 15);
}

#[test]
fn home_is_expanded_only_for_a_leading_tilde() {
    let home = Some(PathBuf::from("/home/op"));
    assert!(matches!(expand_home_with("~", home.clone()), ExpandedPath::Home(h) if h == PathBuf::from("/home/op")));
    match expand_home_with("~/.local/db.sqlite", home.clone()) {
        ExpandedPath::UnderHome { home, rest } => {
            assert_eq!(home, PathBuf::from("/home/op"));
            assert_eq!(rest, ".local/db.sqlite");
        },
        _ => panic!("expected a path under home"),
    }
    assert!(matches!(expand_home_with("/abs/~/x", home.clone()), ExpandedPath::Literal(s) if s == "/abs/~/x"));
    assert!(matches!(expand_home_with("~user/x", home), ExpandedPath::Literal(s) if s == "~user/x"));
    assert!(matches!(expand_home_with("~/x", None), ExpandedPath::Literal(s) if s == "~/x"));
    assert!(matches!(expand_home_with("~", None), ExpandedPath::Literal(s) if s == "~"));
}

fn threat(key: &str, tier: ThreatTier) -> ThreatProfile {
    ThreatProfile {
        vote_pubkey: key.to_string(),
        current_stake_lamports: 1,
        velocity_lamports_per_epoch: 1,
        acceleration_lamports: 0,
        epochs_to_overtake: Some(2),
        threat_tier: tier,
        primary_stake_source: StakeSource::Unknown,
    }
}

fn opportunity(key: &str, d: CaptureDifficulty) -> DecayOpportunity {
    DecayOpportunity {
        vote_pubkey: key.to_string(),
        stake_lost_lamports: 10,
        stake_lost_ppm: 1,
        loss_duration_epochs: 3,
        probable_cause: DecayCause::Unknown,
        estimated_orphan_stake_lamports: 6,
        capture_difficulty: d,
    }
}

fn position(direction: QueueDirection) -> PoolQueuePosition {
    PoolQueuePosition { pool: StakePoolId::Marinade, rank: 3, total_eligible: 9, direction, entry_index: 2, ahead_index: Some(1) }
}

fn signal(key: &str) -> GamingSignal {
    GamingSignal {
        vote_pubkey: key.to_string(),
        signal_type: GamingType::CommissionSniping,
        confidence_ppm: 700_000,
        evidence: GamingEvidence::CreditSwing { jump_numerator: 1, jump_denominator: 2 },
        first_detected_epoch: 5,
    }
}

fn summary(a: &AlertPlan) -> (AlertSeverity, AlertCategory, Option<String>, usize) {
    (a.severity, a.category, a.related_validator.clone(), a.source_index)
}

#[test]
fn enabled_rules_raise_one_alert_per_qualifying_finding() {
    let rules = AppConfig::default().alerts.rules;
    let threats = vec![threat("t0", ThreatTier::Rising), threat("t1", ThreatTier::Critical)];
    let opps = vec![opportunity("o0", CaptureDifficulty::Easy), opportunity("o1", CaptureDifficulty::Hard)];
    let queue = vec![position(QueueDirection::Stable), position(QueueDirection::Falling)];
    let gaming = vec![signal("g0"), signal("g1")];
    let alerts = evaluate_rules(&rules, &threats, &opps, &queue, &gaming);
    let got: Vec<_> = alerts.iter().map(summary).collect();
    assert_eq!(got, vec![
        (AlertSeverity::Critical, AlertCategory::ThreatApproaching, Some("t1".to_string()), 1),
        (AlertSeverity::Warning, AlertCategory::OpportunityWindow, Some("o0".to_string()), 0),
        (AlertSeverity::Warning, AlertCategory::QueuePositionDrop, None, 1),
        (AlertSeverity::Info, AlertCategory::GamingDetected, Some("g0".to_string()), 0),
        (AlertSeverity::Info, AlertCategory::GamingDetected, Some("g1".to_string()), 1),
    ]);
    assert_eq!(alerts[0].title, "Critical overtake risk detected");
    assert_eq!(alerts[1].title, "Easy capture opportunity");
    assert_eq!(alerts[2].title, "Stake pool queue position dropped");
    assert_eq!(alerts[3].title, "Adversarial signal detected");
    assert_eq!(alerts[0].body, "t1 may overtake within 2 epochs (velocity 0.00 SOL/epoch)");
    assert_eq!(alerts[1].body, "o0 lost 0 SOL over 3 epochs");
    assert_eq!(alerts[2].body, "marinade rank moved to #3 of 9 in marinade");
    assert_eq!(alerts[3].body, "g0: commission-sniping (confidence 0.70)");
}

#[test]
fn alert_bodies_describe_the_finding() {
    let mut rules = AppConfig::default().alerts.rules;
    rules.opportunity_easy = false;
    let mut a = threat("a", ThreatTier::Critical);
    a.velocity_lamports_per_epoch = 5_000_000_000;
    let mut b = threat("b", ThreatTier::Rising);
    b.epochs_to_overtake = Some(8);
    let q = vec![
        PoolQueuePosition { pool: StakePoolId::Marinade, rank: 5, total_eligible: 10, direction: QueueDirection::Falling, entry_index: 4, ahead_index: Some(3) },
        PoolQueuePosition { pool: StakePoolId::Jito, rank: 1, total_eligible: 10, direction: QueueDirection::Rising, entry_index: 0, ahead_index: None },
    ];
    let alerts = evaluate_rules(&rules, &vec![a, b], &vec![opportunity("c", CaptureDifficulty::Easy)], &q, &vec![]);
    assert_eq!(alerts.len(), 2);
    assert_eq!(alerts[0].severity, AlertSeverity::Critical);
    assert_eq!(alerts[0].category, AlertCategory::ThreatApproaching);
    assert_eq!(alerts[0].related_validator.as_deref(), Some("a"));
    assert_eq!(alerts[0].body, "a may overtake within 2 epochs (velocity 5.00 SOL/epoch)");
    assert_eq!(alerts[1].severity, AlertSeverity::Warning);
    assert_eq!(alerts[1].category, AlertCategory::QueuePositionDrop);
    assert_eq!(alerts[1].related_validator, None);
    assert_eq!(alerts[1].body, "marinade rank moved to #5 of 10 in marinade");
}

#[test]
fn alert_bodies_round_amounts_to_their_shown_decimals() {
    let rules = AppConfig::default().alerts.rules;
    let mut t = threat("v", ThreatTier::Critical);
    t.velocity_lamports_per_epoch = -1_234_567_890;
    t.epochs_to_overtake = None;
    let mut o = opportunity("w", CaptureDifficulty::Easy);
    o.stake_lost_lamports = 12_500_000_000_000;
    o.loss_duration_epochs = 4;
    let mut g = signal("x");
    g.signal_type = GamingType::SybilCluster;
    g.confidence_ppm = 1_000_000;
    let alerts = evaluate_rules(&rules, &vec![t], &vec![o], &vec![], &vec![g]);
    assert_eq!(alerts.len(), 3);
    assert_eq!(alerts[0].body, "v may overtake within unknown epochs (velocity -1.23 SOL/epoch)");
    assert_eq!(alerts[1].body, "w lost 12500 SOL over 4 epochs");
    assert_eq!(alerts[2].body, "x: sybil-cluster (confidence 1.00)");
}

#[test]
fn disabled_rules_raise_nothing() {
    let mut rules = AppConfig::default().alerts.rules;
    rules.threat_critical = false;
    rules.opportunity_easy = false;
    rules.queue_drop = false;
    rules.gaming_detected = false;
    let alerts = evaluate_rules(
        &rules,
        &vec![threat("t", ThreatTier::Critical)],
        &vec![opportunity("o", CaptureDifficulty::Easy)],
        &vec![position(QueueDirection::Falling)],
        &vec![signal("g")],
    );
    assert!(alerts.is_empty());
}

#[test]
fn alerts_get_fresh_version_four_ids_and_the_current_time() {
    let rules = AppConfig::default().alerts.rules;
    let gaming = vec![signal("g0"), signal("g1"), signal("g2")];
    let alerts = evaluate_rules(&rules, &vec![], &vec![], &vec![], &gaming);
    assert_eq!(alerts.len(), 3);
    for a in &alerts {
        assert_eq!((a.id >> 76) & 0xF, 4);
        assert_eq!((a.id >> 62) & 0x3, 2);
        // Later than 2020-01-01.
        assert!(a.timestamp_millis > 1_577_836_800_000);
    }
    assert!(alerts[0].id != alerts[1].id && alerts[1].id != alerts[2].id);
}

use stake_radar::alert::{alert_channels, watch_should_stop};
use stake_radar::config::default_path_with;

#[test]
fn default_path_follows_the_home_directory() {
    match default_path_with(Some(PathBuf::from("/home/op"))) {
        ExpandedPath::UnderHome { home, rest } => {
            assert_eq!(home, PathBuf::from("/home/op"));
            assert_eq!(rest, ".config/stake-radar/config.toml");
        },
        _ => panic!("expected a path under home"),
    }
    assert!(matches!(default_path_with(None), ExpandedPath::Literal(s) if s == "./config.toml"));
}

#[test]
fn alert_channels_follow_the_configuration() {
    let mut config = AppConfig::default().alerts;
    let c = alert_channels(&config, 2);
    assert!(c.stdout && !c.discord && !c.telegram);
    assert!(!alert_channels(&config, 0).stdout);
    config.discord_webhook = "  https://discord.example/hook ".to_string();
    config.telegram_bot_token = "token".to_string();
    config.telegram_chat_id = "   ".to_string();
    config.enable_stdout = false;
    let c = alert_channels(&config, 1);
    assert!(!c.stdout && c.discord && !c.telegram);
    config.telegram_chat_id = "42".to_string();
    assert!(alert_channels(&config, 1).telegram);
}

#[test]
fn watch_stops_at_the_cycle_limit() {
    assert!(!watch_should_stop(3, None));
    assert!(!watch_should_stop(2, Some(3)));
    assert!(watch_should_stop(3, Some(3)));
}
