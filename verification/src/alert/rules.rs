//! Alert rules: critical threats, easy opportunities, falling queue positions and every
//! gaming signal raise alerts, each kind only while its rule is enabled.
use vstd::prelude::*;
use crate::analysis::adversarial::GamingSignal;
use crate::analysis::queue::PoolQueuePosition;
use crate::config::AlertRulesConfig;
use crate::output::{
    gaming_alert_body, gaming_alert_body_text, opportunity_alert_body, opportunity_alert_body_text,
    position_alert_body_text, queue_alert_body, threat_alert_body, threat_alert_body_text,
};
use crate::models::{
    AlertCategory, AlertSeverity, CaptureDifficulty, DecayOpportunity, QueueDirection, ThreatProfile,
    ThreatTier,
};

verus! {

/// An alert to raise: its id, when it was raised (milliseconds since the Unix epoch), its
/// classification, title and body text, the validator it concerns, and the position of the
/// finding it reports within that finding's list.
pub struct AlertPlan {
    pub id: u128,
    pub timestamp_millis: i64,
    pub severity: AlertSeverity,
    pub category: AlertCategory,
    pub title: String,
    pub body: String,
    pub related_validator: Option<String>,
    pub source_index: usize,
}

pub struct AlertPlanView {
    pub severity: AlertSeverity,
    pub category: AlertCategory,
    pub title: Seq<char>,
    pub body: Seq<char>,
    pub related_validator: Option<Seq<char>>,
    pub source_index: int,
}

impl View for AlertPlan {
    type V = AlertPlanView;

    open spec fn view(&self) -> AlertPlanView {
        AlertPlanView {
            severity: self.severity,
            category: self.category,
            title: self.title@,
            body: self.body@,
            related_validator: match self.related_validator {
                Some(v) => Some(v@),
                None => None,
            },
            source_index: self.source_index as int,
        }
    }
}

/// `uuid::Uuid::new_v4`, as the UUID's 128-bit value: a random version-4 UUID. Which value
/// comes out is not stated; its version field (4) and its variant bits (`10`) are, as the
/// crate sets them.
#[verifier::external_body]
fn new_alert_id() -> (id: u128)
    ensures
        (id >> 76u128) & 0xFu128 == 4,
        (id >> 62u128) & 3u128 == 2,
{
    uuid::Uuid::new_v4().as_u128()
}

/// `chrono::Utc::now`, as milliseconds since the Unix epoch. Which time is read is not
/// stated; it is never before the epoch (the crate panics when the system clock reads
/// earlier than the Unix epoch).
#[verifier::external_body]
fn now_millis() -> (ms: i64)
    ensures
        ms >= 0,
{
    chrono::Utc::now().timestamp_millis()
}

/// The alert's id is a version-4 UUID (version field 4, variant bits `10`) and its time
/// stamp is not before the Unix epoch.
pub open spec fn well_stamped(p: AlertPlan) -> bool {
    &&& (p.id >> 76u128) & 0xFu128 == 4
    &&& (p.id >> 62u128) & 3u128 == 2
    &&& p.timestamp_millis >= 0
}

pub open spec fn all_stamped(v: Seq<AlertPlan>) -> bool {
    forall|i: int| 0 <= i < v.len() ==> well_stamped(#[trigger] v[i])
}

pub open spec fn plan_views(v: Seq<AlertPlan>) -> Seq<AlertPlanView> {
    v.map_values(|p: AlertPlan| p@)
}

pub open spec fn threat_alert(t: ThreatProfile, i: int) -> AlertPlanView {
    AlertPlanView {
        severity: AlertSeverity::Critical,
        category: AlertCategory::ThreatApproaching,
        title: "Critical overtake risk detected"@,
        body: threat_alert_body_text(t),
        related_validator: Some(t.vote_pubkey@),
        source_index: i,
    }
}

pub open spec fn opportunity_alert(o: DecayOpportunity, i: int) -> AlertPlanView {
    AlertPlanView {
        severity: AlertSeverity::Warning,
        category: AlertCategory::OpportunityWindow,
        title: "Easy capture opportunity"@,
        body: opportunity_alert_body_text(o),
        related_validator: Some(o.vote_pubkey@),
        source_index: i,
    }
}

pub open spec fn queue_alert(q: PoolQueuePosition, i: int) -> AlertPlanView {
    AlertPlanView {
        severity: AlertSeverity::Warning,
        category: AlertCategory::QueuePositionDrop,
        title: "Stake pool queue position dropped"@,
        body: position_alert_body_text(q),
        related_validator: None,
        source_index: i,
    }
}

pub open spec fn gaming_alert(g: GamingSignal, i: int) -> AlertPlanView {
    AlertPlanView {
        severity: AlertSeverity::Info,
        category: AlertCategory::GamingDetected,
        title: "Adversarial signal detected"@,
        body: gaming_alert_body_text(g),
        related_validator: Some(g.vote_pubkey@),
        source_index: i,
    }
}

/// Alerts for the critical threats among the first `m`.
pub open spec fn threat_alerts(ts: Seq<ThreatProfile>, m: int) -> Seq<AlertPlanView>
    decreases m,
{
    if m <= 0 {
        Seq::empty()
    } else if ts[m - 1].threat_tier == ThreatTier::Critical {
        threat_alerts(ts, m - 1).push(threat_alert(ts[m - 1], m - 1))
    } else {
        threat_alerts(ts, m - 1)
    }
}

/// Alerts for the easy opportunities among the first `m`.
pub open spec fn opportunity_alerts(os: Seq<DecayOpportunity>, m: int) -> Seq<AlertPlanView>
    decreases m,
{
    if m <= 0 {
        Seq::empty()
    } else if os[m - 1].capture_difficulty == CaptureDifficulty::Easy {
        opportunity_alerts(os, m - 1).push(opportunity_alert(os[m - 1], m - 1))
    } else {
        opportunity_alerts(os, m - 1)
    }
}

/// Alerts for the falling queue positions among the first `m`.
pub open spec fn queue_alerts(qs: Seq<PoolQueuePosition>, m: int) -> Seq<AlertPlanView>
    decreases m,
{
    if m <= 0 {
        Seq::empty()
    } else if qs[m - 1].direction == QueueDirection::Falling {
        queue_alerts(qs, m - 1).push(queue_alert(qs[m - 1], m - 1))
    } else {
        queue_alerts(qs, m - 1)
    }
}

/// Alerts for the first `m` gaming signals.
pub open spec fn gaming_alerts(gs: Seq<GamingSignal>, m: int) -> Seq<AlertPlanView>
    decreases m,
{
    if m <= 0 {
        Seq::empty()
    } else {
        gaming_alerts(gs, m - 1).push(gaming_alert(gs[m - 1], m - 1))
    }
}

/// All alerts, by rule in order (threats, opportunities, queue, gaming), findings in order.
pub open spec fn planned_alerts(
    rules: AlertRulesConfig,
    ts: Seq<ThreatProfile>,
    os: Seq<DecayOpportunity>,
    qs: Seq<PoolQueuePosition>,
    gs: Seq<GamingSignal>,
) -> Seq<AlertPlanView> {
    (if rules.threat_critical { threat_alerts(ts, ts.len() as int) } else { Seq::empty() })
        + (if rules.opportunity_easy { opportunity_alerts(os, os.len() as int) } else { Seq::empty() })
        + (if rules.queue_drop { queue_alerts(qs, qs.len() as int) } else { Seq::empty() })
        + (if rules.gaming_detected { gaming_alerts(gs, gs.len() as int) } else { Seq::empty() })
}

fn push_threat_alerts(out: &mut Vec<AlertPlan>, threats: &Vec<ThreatProfile>)
    requires
        all_stamped(old(out)@),
    ensures
        plan_views(final(out)@) == plan_views(old(out)@) + threat_alerts(threats@, threats.len() as int),
        all_stamped(final(out)@),
{
    let mut i: usize = 0;
    while i < threats.len()
        invariant
            all_stamped(out@),
            i <= threats.len(),
            plan_views(out@) == plan_views(old(out)@) + threat_alerts(threats@, i as int),
        decreases threats.len() - i,
    {
        let ghost before = plan_views(out@);
        if threats[i].threat_tier == ThreatTier::Critical {
            let p = AlertPlan {
                id: new_alert_id(),
                timestamp_millis: now_millis(),
                severity: AlertSeverity::Critical,
                category: AlertCategory::ThreatApproaching,
                title: String::from_str("Critical overtake risk detected"),
                body: threat_alert_body(&threats[i]),
                related_validator: Some(threats[i].vote_pubkey.clone()),
                source_index: i,
            };
            out.push(p);
            assert(plan_views(out@) =~= before.push(threat_alert(threats@[i as int], i as int)));
        }
        i = i + 1;
    }
}

fn push_opportunity_alerts(out: &mut Vec<AlertPlan>, opportunities: &Vec<DecayOpportunity>)
    requires
        all_stamped(old(out)@),
    ensures
        plan_views(final(out)@) == plan_views(old(out)@) + opportunity_alerts(opportunities@, opportunities.len() as int),
        all_stamped(final(out)@),
{
    let mut i: usize = 0;
    while i < opportunities.len()
        invariant
            all_stamped(out@),
            i <= opportunities.len(),
            plan_views(out@) == plan_views(old(out)@) + opportunity_alerts(opportunities@, i as int),
        decreases opportunities.len() - i,
    {
        let ghost before = plan_views(out@);
        if opportunities[i].capture_difficulty == CaptureDifficulty::Easy {
            let p = AlertPlan {
                id: new_alert_id(),
                timestamp_millis: now_millis(),
                severity: AlertSeverity::Warning,
                category: AlertCategory::OpportunityWindow,
                title: String::from_str("Easy capture opportunity"),
                body: opportunity_alert_body(&opportunities[i]),
                related_validator: Some(opportunities[i].vote_pubkey.clone()),
                source_index: i,
            };
            out.push(p);
            assert(plan_views(out@) =~= before.push(opportunity_alert(opportunities@[i as int], i as int)));
        }
        i = i + 1;
    }
}

fn push_queue_alerts(out: &mut Vec<AlertPlan>, positions: &Vec<PoolQueuePosition>)
    requires
        all_stamped(old(out)@),
    ensures
        plan_views(final(out)@) == plan_views(old(out)@) + queue_alerts(positions@, positions.len() as int),
        all_stamped(final(out)@),
{
    let mut i: usize = 0;
    while i < positions.len()
        invariant
            all_stamped(out@),
            i <= positions.len(),
            plan_views(out@) == plan_views(old(out)@) + queue_alerts(positions@, i as int),
        decreases positions.len() - i,
    {
        let ghost before = plan_views(out@);
        if positions[i].direction == QueueDirection::Falling {
            let p = AlertPlan {
                id: new_alert_id(),
                timestamp_millis: now_millis(),
                severity: AlertSeverity::Warning,
                category: AlertCategory::QueuePositionDrop,
                title: String::from_str("Stake pool queue position dropped"),
                body: queue_alert_body(positions[i].pool, positions[i].rank, positions[i].total_eligible),
                related_validator: None,
                source_index: i,
            };
            out.push(p);
            assert(plan_views(out@) =~= before.push(queue_alert(positions@[i as int], i as int)));
        }
        i = i + 1;
    }
}

fn push_gaming_alerts(out: &mut Vec<AlertPlan>, signals: &Vec<GamingSignal>)
    requires
        all_stamped(old(out)@),
    ensures
        plan_views(final(out)@) == plan_views(old(out)@) + gaming_alerts(signals@, signals.len() as int),
        all_stamped(final(out)@),
{
    let mut i: usize = 0;
    while i < signals.len()
        invariant
            all_stamped(out@),
            i <= signals.len(),
            plan_views(out@) == plan_views(old(out)@) + gaming_alerts(signals@, i as int),
        decreases signals.len() - i,
    {
        let ghost before = plan_views(out@);
        let p = AlertPlan {
            id: new_alert_id(),
            timestamp_millis: now_millis(),
            severity: AlertSeverity::Info,
            category: AlertCategory::GamingDetected,
            title: String::from_str("Adversarial signal detected"),
            body: gaming_alert_body(&signals[i]),
            related_validator: Some(signals[i].vote_pubkey.clone()),
            source_index: i,
        };
        out.push(p);
        assert(plan_views(out@) =~= before.push(gaming_alert(signals@[i as int], i as int)));
        i = i + 1;
    }
}

/// The alerts the enabled rules raise: one critical alert per critical threat, one warning
/// per easy opportunity and per falling queue position, and one info alert per gaming signal,
/// each with a title and a body that describes the finding. Each gets a random version-4 UUID
/// and the current time.
pub fn evaluate_rules(
    rules: &AlertRulesConfig,
    threats: &Vec<ThreatProfile>,
    opportunities: &Vec<DecayOpportunity>,
    queue_positions: &Vec<PoolQueuePosition>,
    gaming_signals: &Vec<GamingSignal>,
) -> (out: Vec<AlertPlan>)
    ensures
        plan_views(out@) == planned_alerts(*rules, threats@, opportunities@, queue_positions@, gaming_signals@),
        all_stamped(out@),
{
    let mut out: Vec<AlertPlan> = Vec::new();
    let ghost e = plan_views(out@);
    assert(e =~= Seq::<AlertPlanView>::empty());
    if rules.threat_critical {
        push_threat_alerts(&mut out, threats);
    }
    let ghost a = plan_views(out@);
    assert(a =~= (if rules.threat_critical { threat_alerts(threats@, threats.len() as int) } else { Seq::empty() }));
    if rules.opportunity_easy {
        push_opportunity_alerts(&mut out, opportunities);
    }
    let ghost b = plan_views(out@);
    assert(b =~= a + (if rules.opportunity_easy { opportunity_alerts(opportunities@, opportunities.len() as int) } else { Seq::empty() }));
    if rules.queue_drop {
        push_queue_alerts(&mut out, queue_positions);
    }
    let ghost c = plan_views(out@);
    assert(c =~= b + (if rules.queue_drop { queue_alerts(queue_positions@, queue_positions.len() as int) } else { Seq::empty() }));
    if rules.gaming_detected {
        push_gaming_alerts(&mut out, gaming_signals);
    }
    assert(plan_views(out@) =~= c + (if rules.gaming_detected { gaming_alerts(gaming_signals@, gaming_signals.len() as int) } else { Seq::empty() }));
    out
}

} // verus!
