use vstd::prelude::*;
use crate::text::{ascii_lower_seq, trim_spec, trim_lower};
use vstd::string::StringSliceAdditionalSpecFns;
use vstd::string::StrSliceExecFns;

verus! {

/// Number of lamports in one SOL.
pub const LAMPORTS_PER_SOL: u64 = 1_000_000_000;

/// Scale of rates and confidences held as parts per million (1.0 == 1_000_000).
pub const PPM: u64 = 1_000_000;

/// A point-in-time snapshot of a single validator.
/// Stake is held in lamports and the skip rate in parts per million.
pub struct ValidatorSnapshot {
    pub vote_pubkey: String,
    pub identity: String,
    pub epoch: u64,
    pub slot_captured: u64,
    pub activated_stake_lamports: u64,
    pub commission_pct: u8,
    pub vote_credits_epoch: u64,
    pub vote_credits_prior_epoch: u64,
    pub skip_rate_ppm: u32,
    pub delinquent: bool,
    pub version: Option<String>,
    pub dc_location: Option<String>,
    pub superminority_member: bool,
}

impl Clone for ValidatorSnapshot {
    fn clone(&self) -> (res: Self)
        ensures
            res == *self,
    {
        ValidatorSnapshot {
            vote_pubkey: self.vote_pubkey.clone(),
            identity: self.identity.clone(),
            epoch: self.epoch,
            slot_captured: self.slot_captured,
            activated_stake_lamports: self.activated_stake_lamports,
            commission_pct: self.commission_pct,
            vote_credits_epoch: self.vote_credits_epoch,
            vote_credits_prior_epoch: self.vote_credits_prior_epoch,
            skip_rate_ppm: self.skip_rate_ppm,
            delinquent: self.delinquent,
            version: self.version.clone(),
            dc_location: self.dc_location.clone(),
            superminority_member: self.superminority_member,
        }
    }
}

/// Stake above which a validator is a whale: 1,000,000 SOL.
pub const WHALE_STAKE_LAMPORTS: u64 = 1_000_000_000_000_000;
/// Stake above which a validator is large: 200,000 SOL.
pub const LARGE_STAKE_LAMPORTS: u64 = 200_000_000_000_000;
/// Stake above which a validator is mid-sized: 50,000 SOL.
pub const MID_STAKE_LAMPORTS: u64 = 50_000_000_000_000;
/// Stake from which a validator is small: 10,000 SOL.
pub const SMALL_STAKE_LAMPORTS: u64 = 10_000_000_000_000;

/// Stake tier: whale above 1,000,000 SOL, large above 200,000, mid above 50,000, small from
/// 10,000, micro below 10,000.
pub open spec fn stake_tier_of(lamports: u64) -> StakeTierBucket {
    if lamports > WHALE_STAKE_LAMPORTS {
        StakeTierBucket::Whale
    } else if lamports > LARGE_STAKE_LAMPORTS {
        StakeTierBucket::Large
    } else if lamports > MID_STAKE_LAMPORTS {
        StakeTierBucket::Mid
    } else if lamports >= SMALL_STAKE_LAMPORTS {
        StakeTierBucket::Small
    } else {
        StakeTierBucket::Micro
    }
}

pub open spec fn commission_bucket_of(commission_pct: u8) -> CommissionBucket {
    if commission_pct == 0 {
        CommissionBucket::Zero
    } else if commission_pct <= 5 {
        CommissionBucket::Low
    } else if commission_pct <= 10 {
        CommissionBucket::Standard
    } else {
        CommissionBucket::High
    }
}

impl ValidatorSnapshot {
    pub fn stake_tier_bucket(&self) -> (b: StakeTierBucket)
        ensures
            b == stake_tier_of(self.activated_stake_lamports),
    {
        let x = self.activated_stake_lamports;
        if x > WHALE_STAKE_LAMPORTS {
            StakeTierBucket::Whale
        } else if x > LARGE_STAKE_LAMPORTS {
            StakeTierBucket::Large
        } else if x > MID_STAKE_LAMPORTS {
            StakeTierBucket::Mid
        } else if x >= SMALL_STAKE_LAMPORTS {
            StakeTierBucket::Small
        } else {
            StakeTierBucket::Micro
        }
    }

    pub fn commission_bucket(&self) -> (b: CommissionBucket)
        ensures
            b == commission_bucket_of(self.commission_pct),
    {
        match self.commission_pct {
            0 => CommissionBucket::Zero,
            1..=5 => CommissionBucket::Low,
            6..=10 => CommissionBucket::Standard,
            _ => CommissionBucket::High,
        }
    }
}

/// Delta between two epoch snapshots for one validator.
/// The relative stake change and the skip-rate change are in parts per million.
pub struct ValidatorDelta {
    pub vote_pubkey: String,
    pub epoch_from: u64,
    pub epoch_to: u64,
    pub stake_change_lamports: i128,
    pub stake_change_ppm: i128,
    pub commission_change: i16,
    pub vote_credit_delta: i128,
    pub skip_rate_delta_ppm: i64,
}

/// Threat assessment for a specific validator relative to you.
/// Velocity and acceleration are in lamports per epoch.
pub struct ThreatProfile {
    pub vote_pubkey: String,
    pub current_stake_lamports: u64,
    pub velocity_lamports_per_epoch: i64,
    pub acceleration_lamports: i64,
    pub epochs_to_overtake: Option<u32>,
    pub threat_tier: ThreatTier,
    pub primary_stake_source: StakeSource,
}

impl Clone for ThreatProfile {
    fn clone(&self) -> (res: Self)
        ensures
            res == *self,
    {
        ThreatProfile {
            vote_pubkey: self.vote_pubkey.clone(),
            current_stake_lamports: self.current_stake_lamports,
            velocity_lamports_per_epoch: self.velocity_lamports_per_epoch,
            acceleration_lamports: self.acceleration_lamports,
            epochs_to_overtake: self.epochs_to_overtake,
            threat_tier: self.threat_tier,
            primary_stake_source: self.primary_stake_source,
        }
    }
}

#[derive(PartialEq, Eq, Structural, Clone, Copy, Debug, Hash)]
pub enum ThreatTier {
    Critical,
    Rising,
    Watching,
    Neutral,
}

pub open spec fn severity_rank_of(t: ThreatTier) -> u8 {
    match t {
        ThreatTier::Critical => 0,
        ThreatTier::Rising => 1,
        ThreatTier::Watching => 2,
        ThreatTier::Neutral => 3,
    }
}

pub open spec fn threat_tier_text(t: ThreatTier) -> Seq<char> {
    match t {
        ThreatTier::Critical => "critical"@,
        ThreatTier::Rising => "rising"@,
        ThreatTier::Watching => "watching"@,
        ThreatTier::Neutral => "neutral"@,
    }
}

impl ThreatTier {
    pub fn severity_rank(&self) -> (r: u8)
        ensures
            r == severity_rank_of(*self),
    {
        match self {
            ThreatTier::Critical => 0,
            ThreatTier::Rising => 1,
            ThreatTier::Watching => 2,
            ThreatTier::Neutral => 3,
        }
    }

    /// The tier's display text.
    pub fn label(&self) -> (s: String)
        ensures
            s@ == threat_tier_text(*self),
    {
        match self {
            ThreatTier::Critical => String::from_str("critical"),
            ThreatTier::Rising => String::from_str("rising"),
            ThreatTier::Watching => String::from_str("watching"),
            ThreatTier::Neutral => String::from_str("neutral"),
        }
    }
}

#[derive(PartialEq, Eq, Structural, Clone, Copy, Debug)]
pub enum StakeSource {
    NativeStake,
    MarinadePool,
    JPool,
    BlazeStake,
    JitoPool,
    Sanctum,
    Mixed,
    Unknown,
}

/// An opportunity: a validator bleeding stake.
/// `stake_lost_ppm` sums the per-epoch relative losses, in parts per million.
pub struct DecayOpportunity {
    pub vote_pubkey: String,
    pub stake_lost_lamports: u64,
    pub stake_lost_ppm: u128,
    pub loss_duration_epochs: u32,
    pub probable_cause: DecayCause,
    pub estimated_orphan_stake_lamports: u64,
    pub capture_difficulty: CaptureDifficulty,
}

impl Clone for DecayOpportunity {
    fn clone(&self) -> (res: Self)
        ensures
            res == *self,
    {
        DecayOpportunity {
            vote_pubkey: self.vote_pubkey.clone(),
            stake_lost_lamports: self.stake_lost_lamports,
            stake_lost_ppm: self.stake_lost_ppm,
            loss_duration_epochs: self.loss_duration_epochs,
            probable_cause: self.probable_cause,
            estimated_orphan_stake_lamports: self.estimated_orphan_stake_lamports,
            capture_difficulty: self.capture_difficulty,
        }
    }
}

#[derive(PartialEq, Eq, Structural, Clone, Copy, Debug)]
pub enum DecayCause {
    HighSkipRate,
    CommissionIncrease,
    Delinquency,
    VersionLag,
    DatacenterConcentration,
    StakePoolDelisting,
    Unknown,
}

pub open spec fn decay_cause_text(c: DecayCause) -> Seq<char> {
    match c {
        DecayCause::HighSkipRate => "high-skip-rate"@,
        DecayCause::CommissionIncrease => "commission-increase"@,
        DecayCause::Delinquency => "delinquency"@,
        DecayCause::VersionLag => "version-lag"@,
        DecayCause::DatacenterConcentration => "datacenter-concentration"@,
        DecayCause::StakePoolDelisting => "stake-pool-delisting"@,
        DecayCause::Unknown => "unknown"@,
    }
}

impl DecayCause {
    /// The cause's display text.
    pub fn label(&self) -> (s: String)
        ensures
            s@ == decay_cause_text(*self),
    {
        match self {
            DecayCause::HighSkipRate => String::from_str("high-skip-rate"),
            DecayCause::CommissionIncrease => String::from_str("commission-increase"),
            DecayCause::Delinquency => String::from_str("delinquency"),
            DecayCause::VersionLag => String::from_str("version-lag"),
            DecayCause::DatacenterConcentration => String::from_str("datacenter-concentration"),
            DecayCause::StakePoolDelisting => String::from_str("stake-pool-delisting"),
            DecayCause::Unknown => String::from_str("unknown"),
        }
    }
}

#[derive(PartialEq, Eq, Structural, Clone, Copy, Debug)]
pub enum CaptureDifficulty {
    Easy,
    Medium,
    Hard,
}

pub open spec fn capture_difficulty_text(d: CaptureDifficulty) -> Seq<char> {
    match d {
        CaptureDifficulty::Easy => "easy"@,
        CaptureDifficulty::Medium => "medium"@,
        CaptureDifficulty::Hard => "hard"@,
    }
}

impl CaptureDifficulty {
    /// The difficulty's display text.
    pub fn label(&self) -> (s: String)
        ensures
            s@ == capture_difficulty_text(*self),
    {
        match self {
            CaptureDifficulty::Easy => String::from_str("easy"),
            CaptureDifficulty::Medium => String::from_str("medium"),
            CaptureDifficulty::Hard => String::from_str("hard"),
        }
    }
}

#[derive(PartialEq, Eq, Structural, Clone, Copy, Debug)]
pub enum QueueDirection {
    Rising,
    Stable,
    Falling,
}

pub open spec fn queue_direction_text(d: QueueDirection) -> Seq<char> {
    match d {
        QueueDirection::Rising => "rising"@,
        QueueDirection::Stable => "stable"@,
        QueueDirection::Falling => "falling"@,
    }
}

impl QueueDirection {
    /// The direction's display text.
    pub fn label(&self) -> (s: String)
        ensures
            s@ == queue_direction_text(*self),
    {
        match self {
            QueueDirection::Rising => String::from_str("rising"),
            QueueDirection::Stable => String::from_str("stable"),
            QueueDirection::Falling => String::from_str("falling"),
        }
    }
}

#[derive(PartialEq, Eq, Structural, Clone, Copy, Debug, Hash)]
pub enum StakePoolId {
    Marinade,
    JPool,
    BlazeStake,
    Jito,
    Sanctum,
}

pub open spec fn stake_pool_text(p: StakePoolId) -> Seq<char> {
    match p {
        StakePoolId::Marinade => "marinade"@,
        StakePoolId::JPool => "jpool"@,
        StakePoolId::BlazeStake => "blazestake"@,
        StakePoolId::Jito => "jito"@,
        StakePoolId::Sanctum => "sanctum"@,
    }
}

/// The pool named by `s` once trimmed and lowercased, if any.
pub open spec fn stake_pool_named(s: Seq<char>) -> Option<StakePoolId> {
    let key = ascii_lower_seq(trim_spec(s));
    if key == "marinade"@ {
        Some(StakePoolId::Marinade)
    } else if key == "jpool"@ {
        Some(StakePoolId::JPool)
    } else if key == "blaze"@ || key == "blazestake"@ {
        Some(StakePoolId::BlazeStake)
    } else if key == "jito"@ {
        Some(StakePoolId::Jito)
    } else if key == "sanctum"@ {
        Some(StakePoolId::Sanctum)
    } else {
        None
    }
}

impl StakePoolId {
    /// The pool's display text.
    pub fn label(&self) -> (s: String)
        ensures
            s@ == stake_pool_text(*self),
    {
        match self {
            StakePoolId::Marinade => String::from_str("marinade"),
            StakePoolId::JPool => String::from_str("jpool"),
            StakePoolId::BlazeStake => String::from_str("blazestake"),
            StakePoolId::Jito => String::from_str("jito"),
            StakePoolId::Sanctum => String::from_str("sanctum"),
        }
    }

    /// Parses a pool name, ignoring surrounding white space and ASCII case;
    /// the error message names the input as given.
    pub fn from_str(s: &str) -> (r: Result<StakePoolId, String>)
        ensures
            stake_pool_named(s@) matches Some(p) ==> r == Ok::<StakePoolId, String>(p),
            stake_pool_named(s@) is None ==> (r matches Err(m) && m@ == "unsupported stake pool: "@ + s@),
    {
        let key = trim_lower(s);
        if key == String::from_str("marinade") {
            Ok(StakePoolId::Marinade)
        } else if key == String::from_str("jpool") {
            Ok(StakePoolId::JPool)
        } else if key == String::from_str("blaze") || key == String::from_str("blazestake") {
            Ok(StakePoolId::BlazeStake)
        } else if key == String::from_str("jito") {
            Ok(StakePoolId::Jito)
        } else if key == String::from_str("sanctum") {
            Ok(StakePoolId::Sanctum)
        } else {
            Err(String::from_str("unsupported stake pool: ").concat(s))
        }
    }
}

/// Validator cohort for cross-group flow analysis.
/// `avg_commission_milli` is the members' mean commission in thousandths of a percent point.
pub struct Cohort {
    pub id: CohortId,
    pub label: String,
    pub member_count: u32,
    pub total_stake_lamports: u128,
    pub avg_commission_milli: u64,
}

pub enum CohortId {
    StakeTier(StakeTierBucket),
    Region(String),
    Commission(CommissionBucket),
    Custom(String),
}

impl Clone for CohortId {
    fn clone(&self) -> (res: Self)
        ensures
            res == *self,
    {
        match self {
            CohortId::StakeTier(b) => CohortId::StakeTier(*b),
            CohortId::Region(r) => CohortId::Region(r.clone()),
            CohortId::Commission(b) => CohortId::Commission(*b),
            CohortId::Custom(c) => CohortId::Custom(c.clone()),
        }
    }
}

pub open spec fn cohort_id_text(c: CohortId) -> Seq<char> {
    match c {
        CohortId::StakeTier(b) => "stake-tier:"@ + stake_tier_text(b),
        CohortId::Region(r) => "region:"@ + r@,
        CohortId::Commission(b) => "commission:"@ + commission_bucket_text(b),
        CohortId::Custom(n) => "custom:"@ + n@,
    }
}

impl CohortId {
    /// The cohort's display text, `kind:name`.
    pub fn label(&self) -> (s: String)
        ensures
            s@ == cohort_id_text(*self),
    {
        match self {
            CohortId::StakeTier(b) => {
                let t = b.label();
                String::from_str("stake-tier:").concat(t.as_str())
            },
            CohortId::Region(r) => String::from_str("region:").concat(r.as_str()),
            CohortId::Commission(b) => {
                let t = b.label();
                String::from_str("commission:").concat(t.as_str())
            },
            CohortId::Custom(n) => String::from_str("custom:").concat(n.as_str()),
        }
    }
}

#[derive(PartialEq, Eq, Structural, Clone, Copy, Debug, Hash)]
pub enum StakeTierBucket {
    Whale,
    Large,
    Mid,
    Small,
    Micro,
}

pub open spec fn stake_tier_text(b: StakeTierBucket) -> Seq<char> {
    match b {
        StakeTierBucket::Whale => "whale"@,
        StakeTierBucket::Large => "large"@,
        StakeTierBucket::Mid => "mid"@,
        StakeTierBucket::Small => "small"@,
        StakeTierBucket::Micro => "micro"@,
    }
}

impl StakeTierBucket {
    /// The bucket's display text.
    pub fn label(&self) -> (s: String)
        ensures
            s@ == stake_tier_text(*self),
    {
        match self {
            StakeTierBucket::Whale => String::from_str("whale"),
            StakeTierBucket::Large => String::from_str("large"),
            StakeTierBucket::Mid => String::from_str("mid"),
            StakeTierBucket::Small => String::from_str("small"),
            StakeTierBucket::Micro => String::from_str("micro"),
        }
    }
}

#[derive(PartialEq, Eq, Structural, Clone, Copy, Debug, Hash)]
pub enum CommissionBucket {
    Zero,
    Low,
    Standard,
    High,
}

pub open spec fn commission_bucket_text(b: CommissionBucket) -> Seq<char> {
    match b {
        CommissionBucket::Zero => "zero"@,
        CommissionBucket::Low => "low"@,
        CommissionBucket::Standard => "standard"@,
        CommissionBucket::High => "high"@,
    }
}

impl CommissionBucket {
    /// The bucket's display text.
    pub fn label(&self) -> (s: String)
        ensures
            s@ == commission_bucket_text(*self),
    {
        match self {
            CommissionBucket::Zero => String::from_str("zero"),
            CommissionBucket::Low => String::from_str("low"),
            CommissionBucket::Standard => String::from_str("standard"),
            CommissionBucket::High => String::from_str("high"),
        }
    }
}

/// Directional stake flow between two cohorts, in lamports.
pub struct CohortFlow {
    pub from_cohort: CohortId,
    pub to_cohort: CohortId,
    pub flow_lamports: u128,
    pub epoch_range: (u64, u64),
    pub delegator_count: u32,
}

impl Clone for CohortFlow {
    fn clone(&self) -> (res: Self)
        ensures
            res == *self,
    {
        CohortFlow {
            from_cohort: self.from_cohort.clone(),
            to_cohort: self.to_cohort.clone(),
            flow_lamports: self.flow_lamports,
            epoch_range: self.epoch_range,
            delegator_count: self.delegator_count,
        }
    }
}

#[derive(PartialEq, Eq, Structural, Clone, Copy, Debug)]
pub enum GamingType {
    SelfStakeInflation,
    CommissionSniping,
    VoteCreditManipulation,
    SybilCluster,
    StakePoolCriteriaTuning,
}

pub open spec fn gaming_type_text(g: GamingType) -> Seq<char> {
    match g {
        GamingType::SelfStakeInflation => "self-stake-inflation"@,
        GamingType::CommissionSniping => "commission-sniping"@,
        GamingType::VoteCreditManipulation => "vote-credit-manipulation"@,
        GamingType::SybilCluster => "sybil-cluster"@,
        GamingType::StakePoolCriteriaTuning => "pool-criteria-tuning"@,
    }
}

impl GamingType {
    /// The signal type's display text.
    pub fn label(&self) -> (s: String)
        ensures
            s@ == gaming_type_text(*self),
    {
        match self {
            GamingType::SelfStakeInflation => String::from_str("self-stake-inflation"),
            GamingType::CommissionSniping => String::from_str("commission-sniping"),
            GamingType::VoteCreditManipulation => String::from_str("vote-credit-manipulation"),
            GamingType::SybilCluster => String::from_str("sybil-cluster"),
            GamingType::StakePoolCriteriaTuning => String::from_str("pool-criteria-tuning"),
        }
    }
}

#[derive(PartialEq, Eq, Structural, Clone, Copy, Debug)]
pub enum AlertSeverity {
    Critical,
    Warning,
    Info,
}

pub open spec fn alert_severity_text(s: AlertSeverity) -> Seq<char> {
    match s {
        AlertSeverity::Critical => "critical"@,
        AlertSeverity::Warning => "warning"@,
        AlertSeverity::Info => "info"@,
    }
}

impl AlertSeverity {
    /// The severity's display text.
    pub fn label(&self) -> (s: String)
        ensures
            s@ == alert_severity_text(*self),
    {
        match self {
            AlertSeverity::Critical => String::from_str("critical"),
            AlertSeverity::Warning => String::from_str("warning"),
            AlertSeverity::Info => String::from_str("info"),
        }
    }
}

#[derive(PartialEq, Eq, Structural, Clone, Copy, Debug)]
pub enum AlertCategory {
    ThreatApproaching,
    OpportunityWindow,
    QueuePositionDrop,
    GamingDetected,
    CohortShift,
}

pub open spec fn alert_category_text(c: AlertCategory) -> Seq<char> {
    match c {
        AlertCategory::ThreatApproaching => "threat-approaching"@,
        AlertCategory::OpportunityWindow => "opportunity-window"@,
        AlertCategory::QueuePositionDrop => "queue-position-drop"@,
        AlertCategory::GamingDetected => "gaming-detected"@,
        AlertCategory::CohortShift => "cohort-shift"@,
    }
}

impl AlertCategory {
    /// The category's display text.
    pub fn label(&self) -> (s: String)
        ensures
            s@ == alert_category_text(*self),
    {
        match self {
            AlertCategory::ThreatApproaching => String::from_str("threat-approaching"),
            AlertCategory::OpportunityWindow => String::from_str("opportunity-window"),
            AlertCategory::QueuePositionDrop => String::from_str("queue-position-drop"),
            AlertCategory::GamingDetected => String::from_str("gaming-detected"),
            AlertCategory::CohortShift => String::from_str("cohort-shift"),
        }
    }
}

proof fn lemma_encode_utf8_concat(a: Seq<char>, b: Seq<char>)
    ensures
        vstd::utf8::encode_utf8(a + b) == vstd::utf8::encode_utf8(a) + vstd::utf8::encode_utf8(b),
    decreases a.len(),
{
    if a.len() == 0 {
        assert(a + b =~= b);
    } else {
        assert((a + b).drop_first() =~= a.drop_first() + b);
        lemma_encode_utf8_concat(a.drop_first(), b);
        assert((a + b)[0] == a[0]);
    }
}

/// The UTF-8 bytes of `..`.
pub open spec fn ellipsis_bytes() -> Seq<u8> {
    seq![46u8, 46u8]
}

/// The bytes of an abbreviated key: a key of at most ten bytes whole, a longer one as its
/// first four bytes, `..`, and its last four bytes.
pub open spec fn short_key_bytes(b: Seq<u8>) -> Seq<u8> {
    if b.len() <= 10 {
        b
    } else {
        b.subrange(0, 4) + ellipsis_bytes() + b.subrange(b.len() - 4, b.len() as int)
    }
}

/// Abbreviates a public key longer than ten bytes to its first four bytes, `..`,
/// and its last four bytes; shorter keys are returned whole.
pub fn short_pubkey(pubkey: &str) -> (out: String)
    requires
        pubkey.spec_bytes().len() <= usize::MAX,
        pubkey.spec_bytes().len() > 10 ==> vstd::utf8::is_char_boundary(pubkey.spec_bytes(), 4)
            && vstd::utf8::is_char_boundary(pubkey.spec_bytes(), pubkey.spec_bytes().len() - 4),
    ensures
        vstd::utf8::encode_utf8(out@) == short_key_bytes(pubkey.spec_bytes()),
        pubkey.spec_bytes().len() <= 10 ==> out@ == pubkey@,
        pubkey.spec_bytes().len() > 10 ==> vstd::utf8::encode_utf8(out@) == pubkey.spec_bytes().subrange(0, 4)
            + ellipsis_bytes() + pubkey.spec_bytes().subrange(
            pubkey.spec_bytes().len() - 4,
            pubkey.spec_bytes().len() as int,
        ),
{
    let n = pubkey.len();
    if n <= 10 {
        return pubkey.to_owned();
    }
    let (head, _) = pubkey.split_at(4);
    let (_, tail) = pubkey.split_at(n - 4);
    let dots = "..";
    proof {
        reveal_strlit("..");
    }
    let out = String::from_str(head).concat(dots).concat(tail);
    proof {
        broadcast use vstd::utf8::encode_utf8_decode_utf8, vstd::utf8::decode_utf8_encode_utf8;
        lemma_encode_utf8_concat(head@ + dots@, tail@);
        lemma_encode_utf8_concat(head@, dots@);
        assert(dots@ =~= seq!['.', '.']);
        let d = seq!['.', '.'];
        assert(d.drop_first() =~= seq!['.']);
        assert(d.drop_first().drop_first() =~= Seq::<char>::empty());
        assert(('.' as u32) == 46);
        assert(((46u32 & 0x7F) as u8) == 46u8) by (bit_vector);
        assert(vstd::utf8::encode_scalar(46u32) =~= seq![46u8]);
        assert(vstd::utf8::encode_utf8(d.drop_first().drop_first()) =~= Seq::<u8>::empty());
        assert(vstd::utf8::encode_utf8(d.drop_first()) =~= seq![46u8]);
        assert(vstd::utf8::encode_utf8(d) =~= ellipsis_bytes());
    }
    out
}

} // verus!
