use stake_radar::commands::{ensure_non_empty_epochs, parse_csv_set, parse_pools, require_validator, RadarError};
use stake_radar::config::AppConfig;
use stake_radar::models::{short_pubkey, StakePoolId, ThreatTier};
use stake_radar::output::tier_label;
use stake_radar::rpc::amounts::{stake_amount_from_i64, stake_amount_from_text, AmountError};
use stake_radar::text::{split_fields, trim_lower, trim_string};

#[test]
fn csv_sets_are_trimmed_lowercased_and_deduplicated() {
    let out = parse_csv_set(" Critical, rising ,CRITICAL,,\tWatching ");
    let mut sorted = out.clone();
    sorted.sort();
    assert_eq!(sorted, vec!["critical".to_string(), "rising".to_string(), "watching".to_string()]);
    assert!(parse_csv_set("").is_empty());
    assert!(parse_csv_set(" , ,").is_empty());
}

#[test]
fn pools_parse_in_order_and_report_the_first_unknown() {
    let pools = parse_pools("marinade, JPool ,blaze").ok().unwrap();
    assert_eq!(pools, vec![StakePoolId::Marinade, StakePoolId::JPool, StakePoolId::BlazeStake]);
    assert_eq!(parse_pools("").ok().unwrap(), Vec::<StakePoolId>::new());
    assert_eq!(parse_pools("jito,,sanctum").ok().unwrap(), vec![StakePoolId::Jito, StakePoolId::Sanctum]);
    match parse_pools("jito, Lido ,nope") {
        Err(RadarError::UnsupportedPool(m)) => assert_eq!(m, "unsupported stake pool: Lido"),
        _ => panic!("expected an unsupported pool"),
    }
}

#[test]
fn pool_labels_parse_back() {
    for p in [StakePoolId::Marinade, StakePoolId::JPool, StakePoolId::BlazeStake, StakePoolId::Jito, StakePoolId::Sanctum] {
        assert_eq!(StakePoolId::from_str(&p.label()).ok(), Some(p));
    }
    assert_eq!(StakePoolId::from_str("  BLAZESTAKE\n").ok(), Some(StakePoolId::BlazeStake));
    assert_eq!(StakePoolId::from_str("foo").err(), Some("unsupported stake pool: foo".to_string()));
}

#[test]
fn command_errors_carry_their_messages() {
    assert!(matches!(ensure_non_empty_epochs(&vec![]), Err(RadarError::NoSnapshots)));
    assert!(ensure_non_empty_epochs(&vec![7]).is_ok());
    assert_eq!(RadarError::NoSnapshots.message(), "no snapshots available. run `stake-radar snapshot` first");
    let mut config = AppConfig::default();
    match require_validator(&config) {
        Err(e) => {
            assert!(matches!(e, RadarError::ValidatorRequired));
            assert_eq!(e.message(), "validator vote account required (--validator or config)");
        },
        Ok(_) => panic!("no validator configured"),
    }
    config.validator.vote_pubkey = Some("Vote111".to_string());
    assert_eq!(require_validator(&config).ok(), Some("Vote111".to_string()));
}

#[test]
fn short_pubkeys_keep_four_bytes_each_side() {
    assert_eq!(short_pubkey("7xKpAbCdEfGh3nRd"), "7xKp..3nRd");
    assert_eq!(short_pubkey("0123456789"), "0123456789");
    assert_eq!(short_pubkey("01234567890"), "0123..7890");
    assert_eq!(short_pubkey(""), "");
}

#[test]
fn tier_labels_are_capitalised() {
    assert_eq!(tier_label(ThreatTier::Critical), "CRITICAL");
    assert_eq!(tier_label(ThreatTier::Rising), "RISING");
    assert_eq!(tier_label(ThreatTier::Watching), "WATCHING");
    assert_eq!(tier_label(ThreatTier::Neutral), "NEUTRAL");
    assert_eq!(ThreatTier::Critical.severity_rank(), 0);
    assert_eq!(ThreatTier::Neutral.severity_rank(), 3);
}

#[test]
fn text_helpers_trim_split_and_lowercase() {
    assert_eq!(trim_string("\u{a0} x y \u{3000}"), "x y");
    assert_eq!(trim_lower("  MiXeD Ä "), "mixed Ä");
    assert_eq!(split_fields("a,,b,", ','), vec!["a".to_string(), "".to_string(), "b".to_string(), "".to_string()]);
    assert_eq!(split_fields("", ','), vec!["".to_string()]);
}

#[test]
fn stake_amounts_read_numbers_and_decimal_text() {
    assert_eq!(stake_amount_from_i64(42), Ok(42));
    assert_eq!(stake_amount_from_i64(-1), Err(AmountError::Negative));
    assert_eq!(stake_amount_from_text("123456789012"), Ok(123_456_789_012));
    assert_eq!(stake_amount_from_text("+7"), Ok(7));
    assert_eq!(stake_amount_from_text("18446744073709551615"), Ok(u64::MAX));
    assert_eq!(stake_amount_from_text("18446744073709551616"), Err(AmountError::Overflow));
    assert_eq!(stake_amount_from_text(""), Err(AmountError::Empty));
    assert_eq!(stake_amount_from_text("+"), Err(AmountError::InvalidDigit));
    assert_eq!(stake_amount_from_text("-3"), Err(AmountError::InvalidDigit));
    assert_eq!(stake_amount_from_text("12a"), Err(AmountError::InvalidDigit));
    assert_eq!(stake_amount_from_text(" 12"), Err(AmountError::InvalidDigit));
}

#[test]
fn stake_amounts_agree_with_std_parsing() {
    for s in ["0", "00", "+0", "+", "-", "-0", "1_000", "99999999999999999999", "18446744073709551615", "9x", "x9", "٣"] {
        let ours = stake_amount_from_text(s).ok();
        let std = s.parse::<u64>().ok();
        assert_eq!(ours, std, "input {s:?}");
    }
}

use stake_radar::commands::{api_lookback_epochs, filter_flows_by_cohort, filter_opportunities_by_cause, filter_threats_by_tier, flow_epoch_range};
use stake_radar::models::{CaptureDifficulty, CohortFlow, CohortId, DecayCause, DecayOpportunity, StakeSource, StakeTierBucket, ThreatProfile};
use stake_radar::text::{contains_text, lower_ascii};

fn threat(key: &str, tier: ThreatTier) -> ThreatProfile {
    ThreatProfile {
        vote_pubkey: key.to_string(),
        current_stake_lamports: 1,
        velocity_lamports_per_epoch: 1,
        acceleration_lamports: 0,
        epochs_to_overtake: None,
        threat_tier: tier,
        primary_stake_source: StakeSource::Unknown,
    }
}

#[test]
fn threats_are_filtered_by_tier_names() {
    let threats = vec![threat("a", ThreatTier::Critical), threat("b", ThreatTier::Neutral), threat("c", ThreatTier::Rising)];
    let tiers = parse_csv_set("Critical, rising");
    let kept: Vec<String> = filter_threats_by_tier(&threats, &tiers).into_iter().map(|t| t.vote_pubkey).collect();
    assert_eq!(kept, vec!["a".to_string(), "c".to_string()]);
    assert!(filter_threats_by_tier(&threats, &vec![]).is_empty());
}

#[test]
fn opportunities_are_filtered_by_cause_names() {
    let mk = |k: &str, c: DecayCause| DecayOpportunity {
        vote_pubkey: k.to_string(),
        stake_lost_lamports: 1,
        stake_lost_ppm: 1,
        loss_duration_epochs: 3,
        probable_cause: c,
        estimated_orphan_stake_lamports: 0,
        capture_difficulty: CaptureDifficulty::Easy,
    };
    let ops = vec![mk("a", DecayCause::Delinquency), mk("b", DecayCause::CommissionIncrease), mk("c", DecayCause::Unknown)];
    let causes = parse_csv_set("delinquency,commission-increase");
    let kept: Vec<String> = filter_opportunities_by_cause(&ops, &causes).into_iter().map(|o| o.vote_pubkey).collect();
    assert_eq!(kept, vec!["a".to_string(), "b".to_string()]);
}

#[test]
fn flows_are_filtered_by_cohort_text() {
    let mk = |a: StakeTierBucket, b: StakeTierBucket| CohortFlow {
        from_cohort: CohortId::StakeTier(a),
        to_cohort: CohortId::StakeTier(b),
        flow_lamports: 1,
        epoch_range: (1, 2),
        delegator_count: 0,
    };
    let flows = vec![
        mk(StakeTierBucket::Small, StakeTierBucket::Mid),
        mk(StakeTierBucket::Mid, StakeTierBucket::Small),
        mk(StakeTierBucket::Micro, StakeTierBucket::Mid),
    ];
    assert_eq!(filter_flows_by_cohort(&flows, Some("SMALL"), Some("mid")).len(), 1);
    assert_eq!(filter_flows_by_cohort(&flows, None, Some("mid")).len(), 2);
    assert_eq!(filter_flows_by_cohort(&flows, Some("stake-tier"), None).len(), 3);
    assert_eq!(filter_flows_by_cohort(&flows, Some("whale"), None).len(), 0);
}

#[test]
fn flow_epochs_need_two_snapshots() {
    assert!(matches!(flow_epoch_range(&vec![]), Err(RadarError::NoSnapshots)));
    match flow_epoch_range(&vec![9]) {
        Err(e) => assert_eq!(e.message(), "at least two snapshot epochs are needed for cohort flow analysis"),
        Ok(_) => panic!("one epoch is not enough"),
    }
    assert_eq!(flow_epoch_range(&vec![12, 11, 10]).ok(), Some((10, 12)));
}

#[test]
fn substring_search_and_lowercasing() {
    assert!(contains_text("stake-tier:small", "small"));
    assert!(contains_text("abc", ""));
    assert!(!contains_text("ab", "abc"));
    assert!(!contains_text("stake-tier:mid", "MID"));
    assert_eq!(lower_ascii("Stake-Tier:MID Ä"), "stake-tier:mid Ä");
}

#[test]
fn api_lookback_is_at_least_two_epochs() {
    assert_eq!(api_lookback_epochs(Some(7), 10), 7);
    assert_eq!(api_lookback_epochs(Some(1), 10), 2);
    assert_eq!(api_lookback_epochs(None, 10), 10);
    assert_eq!(api_lookback_epochs(None, 0), 2);
}

use stake_radar::output::{
    cluster_peers_evidence, decimal, hundredths, queue_alert_body, round_half_even, shared_authority_evidence,
    sniping_evidence,
};
use stake_radar::pools::{first_present_key, flag_from_text, flag_from_value, FlagValue};
use stake_radar::text::{char_is_whitespace, lex_le_exec, sort_strings};

#[test]
fn whitespace_matches_std() {
    for u in 0u32..0x3100 {
        if let Some(c) = char::from_u32(u) {
            assert_eq!(char_is_whitespace(c), c.is_whitespace(), "code point {u:#x}");
        }
    }
}

#[test]
fn strings_sort_as_std_sorts_them() {
    let input = vec!["vote-b", "Vote-a", "vote-a", "", "é", "vote-ab", "z"];
    let mut expected: Vec<String> = input.iter().map(|s| s.to_string()).collect();
    expected.sort();
    let got = sort_strings(input.iter().map(|s| s.to_string()).collect());
    assert_eq!(got, expected);
    assert!(lex_le_exec(&"ab".to_string(), &"abc".to_string()));
    assert!(!lex_le_exec(&"b".to_string(), &"abc".to_string()));
}

#[test]
fn report_texts_with_integers() {
    assert_eq!(decimal(0), "0");
    assert_eq!(decimal(1_234_567_890), "1234567890");
    assert_eq!(decimal(u64::MAX), u64::MAX.to_string());
    assert_eq!(queue_alert_body(StakePoolId::Marinade, 5, 10), "marinade rank moved to #5 of 10 in marinade");
    assert_eq!(sniping_evidence(8, 5, 8, 2), "Commission dropped 8% -> 5% then rebounded to 8% within 2 epochs");
    assert_eq!(shared_authority_evidence(&"A".to_string(), 3), "Shared authority A across 3 validators");
    let peers = vec!["v1".to_string(), "v2".to_string(), "v3".to_string()];
    assert_eq!(cluster_peers_evidence(&peers), "Cluster peers: v1, v2, v3");
    assert_eq!(cluster_peers_evidence(&vec![]), "Cluster peers: ");
}

#[test]
fn eligibility_flags_read_text() {
    assert_eq!(flag_from_text("YES"), Some(true));
    assert_eq!(flag_from_text("1"), Some(true));
    assert_eq!(flag_from_text("False"), Some(false));
    assert_eq!(flag_from_text("no"), Some(false));
    assert_eq!(flag_from_text(" yes"), None);
    assert_eq!(flag_from_text("maybe"), None);
}

#[test]
fn shortened_keys_stay_short() {
    for key in ["7xKpAbCdEfGh3nRd", "0123456789", "01234567890", "ab"] {
        let once = short_pubkey(key);
        assert!(once.len() <= 10);
        assert_eq!(short_pubkey(&once), once);
    }
}

#[test]
fn rounding_goes_to_the_nearest_and_ties_to_even() {
    assert_eq!(round_half_even(14, 10), 1);
    assert_eq!(round_half_even(16, 10), 2);
    assert_eq!(round_half_even(15, 10), 2);
    assert_eq!(round_half_even(25, 10), 2);
    assert_eq!(round_half_even(7, 1), 7);
    assert_eq!(round_half_even(u64::MAX, 2), 1u64 << 63);
}

#[test]
fn hundredths_show_two_decimals() {
    assert_eq!(hundredths(0), "0.00");
    assert_eq!(hundredths(7), "0.07");
    assert_eq!(hundredths(1234), "12.34");
    assert_eq!(hundredths(100), "1.00");
}

#[test]
fn the_first_present_field_name_wins() {
    let names = |xs: &[&str]| xs.iter().map(|x| x.to_string()).collect::<Vec<String>>();
    let candidates = names(&["votePubkey", "vote_pubkey", "voteAccount"]);
    assert_eq!(first_present_key(&candidates, &names(&["score", "voteAccount", "vote_pubkey"])), Some(1));
    assert_eq!(first_present_key(&candidates, &names(&["voteAccount"])), Some(2));
    assert_eq!(first_present_key(&candidates, &names(&["score"])), None);
    assert_eq!(first_present_key(&vec![], &names(&["score"])), None);
}

#[test]
fn eligibility_fields_are_read_by_kind() {
    assert_eq!(flag_from_value(&FlagValue::Bool(false)), Some(false));
    assert_eq!(flag_from_value(&FlagValue::Text("No".to_string())), Some(false));
    assert_eq!(flag_from_value(&FlagValue::Text("maybe".to_string())), None);
    assert_eq!(flag_from_value(&FlagValue::Number(Some(3))), Some(true));
    assert_eq!(flag_from_value(&FlagValue::Number(Some(0))), Some(false));
    assert_eq!(flag_from_value(&FlagValue::Number(None)), None);
    assert_eq!(flag_from_value(&FlagValue::Other), None);
}
