//! Command-level checks and argument parsing shared by the command line and the HTTP API.
use vstd::prelude::*;
use crate::config::AppConfig;
use crate::models::{
    cohort_id_text, decay_cause_text, stake_pool_named, threat_tier_text, CohortFlow, DecayOpportunity, StakePoolId,
    ThreatProfile,
};
use crate::text::{
    ascii_lower_seq, contains_string, contains_text, has_substring, lower_ascii, split_fields, split_spec, trim_lower,
    trim_spec, trim_string, views,
};

verus! {

/// Why a command cannot proceed.
pub enum RadarError {
    /// The snapshot store holds no epochs yet.
    NoSnapshots,
    /// No validator vote account was given.
    ValidatorRequired,
    /// A stake pool name is not recognised; the message names it.
    UnsupportedPool(String),
    /// Flow analysis needs snapshots of two epochs at least.
    TooFewEpochs,
}

pub open spec fn radar_error_text(e: RadarError) -> Seq<char> {
    match e {
        RadarError::NoSnapshots => "no snapshots available. run `stake-radar snapshot` first"@,
        RadarError::ValidatorRequired => "validator vote account required (--validator or config)"@,
        RadarError::UnsupportedPool(m) => m@,
        RadarError::TooFewEpochs => "at least two snapshot epochs are needed for cohort flow analysis"@,
    }
}

impl RadarError {
    /// The error's message.
    pub fn message(&self) -> (s: String)
        ensures
            s@ == radar_error_text(*self),
    {
        match self {
            RadarError::NoSnapshots => String::from_str("no snapshots available. run `stake-radar snapshot` first"),
            RadarError::ValidatorRequired => String::from_str("validator vote account required (--validator or config)"),
            RadarError::UnsupportedPool(m) => m.clone(),
            RadarError::TooFewEpochs => String::from_str("at least two snapshot epochs are needed for cohort flow analysis"),
        }
    }
}

/// Fails when no snapshot epoch is available.
pub fn ensure_non_empty_epochs(epochs: &Vec<u64>) -> (r: Result<(), RadarError>)
    ensures
        epochs.len() == 0 <==> r matches Err(RadarError::NoSnapshots),
        epochs.len() > 0 <==> r is Ok,
{
    if epochs.len() == 0 {
        Err(RadarError::NoSnapshots)
    } else {
        Ok(())
    }
}

/// The epochs that flow analysis compares, from the most recent first list of stored
/// epochs: the oldest and the newest. Fails without epochs, and with a single epoch.
pub fn flow_epoch_range(epochs: &Vec<u64>) -> (r: Result<(u64, u64), RadarError>)
    ensures
        epochs.len() == 0 ==> r matches Err(RadarError::NoSnapshots),
        epochs.len() == 1 ==> r matches Err(RadarError::TooFewEpochs),
        epochs.len() >= 2 ==> r == Ok::<(u64, u64), RadarError>((epochs@.last(), epochs@[0])),
{
    if epochs.len() == 0 {
        return Err(RadarError::NoSnapshots);
    }
    if epochs.len() < 2 {
        return Err(RadarError::TooFewEpochs);
    }
    Ok((epochs[epochs.len() - 1], epochs[0]))
}

/// Lookback window of an API request: the requested number of epochs, else the configured
/// one, and never fewer than two.
pub fn api_lookback_epochs(requested: Option<u32>, configured: u32) -> (n: u32)
    ensures
        n == (match requested {
            Some(r) => if r >= 2 { r } else { 2 },
            None => if configured >= 2 { configured } else { 2 },
        }),
{
    let n = match requested {
        Some(r) => r,
        None => configured,
    };
    if n >= 2 { n } else { 2 }
}

/// The configured validator vote account, required by the validator-specific commands.
pub fn require_validator(config: &AppConfig) -> (r: Result<String, RadarError>)
    ensures
        match config.validator.vote_pubkey {
            Some(v) => r == Ok::<String, RadarError>(v),
            None => r matches Err(RadarError::ValidatorRequired),
        },
{
    match &config.validator.vote_pubkey {
        Some(v) => Ok(v.clone()),
        None => Err(RadarError::ValidatorRequired),
    }
}

/// A comma-separated item: trimmed and lowercased.
pub open spec fn csv_item(f: Seq<char>) -> Seq<char> {
    ascii_lower_seq(trim_spec(f))
}

/// `x` is one of the non-empty items of the comma-separated list `raw`.
pub open spec fn in_csv(raw: Seq<char>, x: Seq<char>) -> bool {
    x.len() > 0 && exists|i: int| 0 <= i < split_spec(raw, ',').len() && #[trigger] csv_item(split_spec(raw, ',')[i]) == x
}

fn contains_view(v: &Vec<String>, x: &String) -> (b: bool)
    ensures
        b == exists|j: int| 0 <= j < v.len() && (#[trigger] v@[j])@ == x@,
{
    let mut i: usize = 0;
    while i < v.len()
        invariant
            i <= v.len(),
            forall|j: int| 0 <= j < i ==> (#[trigger] v@[j])@ != x@,
        decreases v.len() - i,
    {
        if v[i] == *x {
            return true;
        }
        i = i + 1;
    }
    false
}

/// The set of non-empty, trimmed, lowercased items of a comma-separated list; each item once.
pub fn parse_csv_set(raw: &str) -> (out: Vec<String>)
    ensures
        forall|a: int, b: int| 0 <= a < out.len() && 0 <= b < out.len() && a != b ==> #[trigger] out@[a]@ != #[trigger] out@[b]@,
        forall|j: int| 0 <= j < out.len() ==> in_csv(raw@, (#[trigger] out@[j])@),
        forall|x: Seq<char>| #[trigger] in_csv(raw@, x) ==> exists|j: int| 0 <= j < out.len() && (#[trigger] out@[j])@ == x,
{
    let fields = split_fields(raw, ',');
    let ghost fs = split_spec(raw@, ',');
    let mut out: Vec<String> = Vec::new();
    let ghost mut origin: Seq<int> = Seq::empty();
    let ghost mut slot: Seq<int> = Seq::empty();
    let mut k: usize = 0;
    while k < fields.len()
        invariant
            k <= fields.len(),
            views(fields@) == fs,
            fs == split_spec(raw@, ','),
            forall|a: int, b: int| 0 <= a < out.len() && 0 <= b < out.len() && a != b ==> #[trigger] out@[a]@ != #[trigger] out@[b]@,
            origin.len() == out.len(),
            forall|j: int| 0 <= j < out.len() ==> 0 <= #[trigger] origin[j] < k && csv_item(fs[origin[j]]) == out@[j]@
                && out@[j]@.len() > 0,
            slot.len() == k,
            forall|i: int| 0 <= i < k && csv_item(fs[i]).len() > 0 ==> 0 <= #[trigger] slot[i] < out.len()
                && out@[slot[i]]@ == csv_item(fs[i]),
        decreases fields.len() - k,
    {
        let item = trim_lower(fields[k].as_str());
        assert(views(fields@)[k as int] == fields@[k as int]@);
        assert(item@ == csv_item(fs[k as int]));
        if !item.as_str().is_empty() {
            match position_of(&out, &item) {
                Some(p) => {
                    proof {
                        slot = slot.push(p as int);
                    }
                },
                None => {
                    out.push(item);
                    proof {
                        origin = origin.push(k as int);
                        slot = slot.push(out.len() - 1);
                    }
                },
            }
        } else {
            proof {
                slot = slot.push(0);
            }
        }
        k = k + 1;
    }
    proof {
        assert forall|j: int| 0 <= j < out.len() implies in_csv(raw@, (#[trigger] out@[j])@) by {
            let i = origin[j];
            assert(csv_item(split_spec(raw@, ',')[i]) == out@[j]@);
        }
        assert forall|x: Seq<char>| #[trigger] in_csv(raw@, x) implies exists|j: int| 0 <= j < out.len() && (#[trigger] out@[j])@ == x by {
            let i = choose|i: int| 0 <= i < split_spec(raw@, ',').len() && #[trigger] csv_item(split_spec(raw@, ',')[i]) == x;
            assert(out@[slot[i]]@ == x);
        }
    }
    out
}

fn position_of(v: &Vec<String>, x: &String) -> (r: Option<usize>)
    ensures
        r matches Some(p) ==> p < v.len() && v@[p as int]@ == x@,
        r is None ==> forall|j: int| 0 <= j < v.len() ==> (#[trigger] v@[j])@ != x@,
{
    let mut i: usize = 0;
    while i < v.len()
        invariant
            i <= v.len(),
            forall|j: int| 0 <= j < i ==> (#[trigger] v@[j])@ != x@,
        decreases v.len() - i,
    {
        if v[i] == *x {
            return Some(i);
        }
        i = i + 1;
    }
    None
}

/// The pools of the first `m` fields of a comma-separated list: empty (after trimming)
/// fields are skipped, the first unrecognised one is reported.
pub open spec fn pools_spec(fields: Seq<Seq<char>>, m: int) -> Result<Seq<StakePoolId>, Seq<char>>
    decreases m,
{
    if m <= 0 {
        Ok(Seq::empty())
    } else {
        match pools_spec(fields, m - 1) {
            Err(e) => Err(e),
            Ok(prev) => {
                let t = trim_spec(fields[m - 1]);
                if t.len() == 0 {
                    Ok(prev)
                } else {
                    match stake_pool_named(t) {
                        Some(p) => Ok(prev.push(p)),
                        None => Err("unsupported stake pool: "@ + t),
                    }
                }
            },
        }
    }
}

/// Parses a comma-separated list of stake pool names.
pub fn parse_pools(raw: &str) -> (r: Result<Vec<StakePoolId>, RadarError>)
    ensures
        match pools_spec(split_spec(raw@, ','), split_spec(raw@, ',').len() as int) {
            Ok(ps) => r matches Ok(v) && v@ == ps,
            Err(m) => r matches Err(RadarError::UnsupportedPool(s)) && s@ == m,
        },
{
    let fields = split_fields(raw, ',');
    let ghost fs = split_spec(raw@, ',');
    let mut out: Vec<StakePoolId> = Vec::new();
    let mut k: usize = 0;
    while k < fields.len()
        invariant
            k <= fields.len(),
            views(fields@) == fs,
            fs == split_spec(raw@, ','),
            pools_spec(fs, k as int) == Ok::<Seq<StakePoolId>, Seq<char>>(out@),
        decreases fields.len() - k,
    {
        let t = trim_string(fields[k].as_str());
        assert(views(fields@)[k as int] == fields@[k as int]@);
        if !t.as_str().is_empty() {
            match StakePoolId::from_str(t.as_str()) {
                Ok(p) => {
                    out.push(p);
                },
                Err(m) => {
                    proof {
                        let ghost e = pools_spec(fs, k + 1);
                        assert(pools_spec(fs, k + 1) == Err::<Seq<StakePoolId>, Seq<char>>(m@));
                        lemma_pools_error_sticks(fs, k + 1, fs.len() as int);
                    }
                    return Err(RadarError::UnsupportedPool(m));
                },
            }
        }
        k = k + 1;
    }
    Ok(out)
}

proof fn lemma_pools_error_sticks(fs: Seq<Seq<char>>, m: int, n: int)
    requires
        m <= n,
        pools_spec(fs, m) is Err,
    ensures
        pools_spec(fs, n) == pools_spec(fs, m),
    decreases n - m,
{
    if m < n {
        lemma_pools_error_sticks(fs, m, n - 1);
    }
}

/// The threat is in one of the named tiers.
pub open spec fn tier_selected(t: ThreatProfile, tiers: Seq<Seq<char>>) -> bool {
    tiers.contains(threat_tier_text(t.threat_tier))
}

/// The threats whose tier is named in `tiers` (as `parse_csv_set` gives them), in order.
pub fn filter_threats_by_tier(threats: &Vec<ThreatProfile>, tiers: &Vec<String>) -> (out: Vec<ThreatProfile>)
    ensures
        out@ == threats@.filter(|t: ThreatProfile| tier_selected(t, views(tiers@))),
{
    let ghost pred = |t: ThreatProfile| tier_selected(t, views(tiers@));
    let mut out: Vec<ThreatProfile> = Vec::new();
    let mut i: usize = 0;
    while i < threats.len()
        invariant
            i <= threats.len(),
            pred == (|t: ThreatProfile| tier_selected(t, views(tiers@))),
            out@ == threats@.subrange(0, i as int).filter(pred),
        decreases threats.len() - i,
    {
        proof {
            broadcast use Seq::lemma_filter_push;
            assert(threats@.subrange(0, i + 1) =~= threats@.subrange(0, i as int).push(threats@[i as int]));
        }
        let label = threats[i].threat_tier.label();
        if contains_string(tiers, &label) {
            out.push(threats[i].clone());
        }
        i = i + 1;
    }
    assert(threats@.subrange(0, threats.len() as int) =~= threats@);
    out
}

/// The opportunity's probable cause is one of the named causes.
pub open spec fn cause_selected(o: DecayOpportunity, causes: Seq<Seq<char>>) -> bool {
    causes.contains(decay_cause_text(o.probable_cause))
}

/// The opportunities whose probable cause is named in `causes`, in order.
pub fn filter_opportunities_by_cause(opportunities: &Vec<DecayOpportunity>, causes: &Vec<String>) -> (out: Vec<DecayOpportunity>)
    ensures
        out@ == opportunities@.filter(|o: DecayOpportunity| cause_selected(o, views(causes@))),
{
    let ghost pred = |o: DecayOpportunity| cause_selected(o, views(causes@));
    let mut out: Vec<DecayOpportunity> = Vec::new();
    let mut i: usize = 0;
    while i < opportunities.len()
        invariant
            i <= opportunities.len(),
            pred == (|o: DecayOpportunity| cause_selected(o, views(causes@))),
            out@ == opportunities@.subrange(0, i as int).filter(pred),
        decreases opportunities.len() - i,
    {
        proof {
            broadcast use Seq::lemma_filter_push;
            assert(opportunities@.subrange(0, i + 1) =~= opportunities@.subrange(0, i as int).push(opportunities@[i as int]));
        }
        let label = opportunities[i].probable_cause.label();
        if contains_string(causes, &label) {
            out.push(opportunities[i].clone());
        }
        i = i + 1;
    }
    assert(opportunities@.subrange(0, opportunities.len() as int) =~= opportunities@);
    out
}

/// The flow leaves a cohort whose text contains `from` and enters one whose text contains
/// `to`, each compared in ASCII lowercase; an absent filter admits every cohort.
pub open spec fn flow_selected(f: CohortFlow, from: Option<Seq<char>>, to: Option<Seq<char>>) -> bool {
    &&& (from matches Some(x) ==> has_substring(cohort_id_text(f.from_cohort), ascii_lower_seq(x)))
    &&& (to matches Some(y) ==> has_substring(cohort_id_text(f.to_cohort), ascii_lower_seq(y)))
}

/// The characters of an optional text.
pub open spec fn text_of(o: Option<&str>) -> Option<Seq<char>> {
    match o {
        Some(x) => Some(x@),
        None => None,
    }
}

/// The flows between the cohorts that the `--from` and `--to` filters select, in order.
pub fn filter_flows_by_cohort(flows: &Vec<CohortFlow>, from: Option<&str>, to: Option<&str>) -> (out: Vec<CohortFlow>)
    ensures
        out@ == flows@.filter(|f: CohortFlow| flow_selected(f, text_of(from), text_of(to))),
{
    let ghost fv: Option<Seq<char>> = text_of(from);
    let ghost tv: Option<Seq<char>> = text_of(to);
    let ghost pred = |f: CohortFlow| flow_selected(f, fv, tv);
    let from_lower: Option<String> = match from {
        Some(x) => Some(lower_ascii(x)),
        None => None,
    };
    let to_lower: Option<String> = match to {
        Some(y) => Some(lower_ascii(y)),
        None => None,
    };
    let mut out: Vec<CohortFlow> = Vec::new();
    let mut i: usize = 0;
    while i < flows.len()
        invariant
            i <= flows.len(),
            pred == (|f: CohortFlow| flow_selected(f, fv, tv)),
            from_lower is Some <==> fv is Some,
            to_lower is Some <==> tv is Some,
            from_lower matches Some(x) ==> x@ == ascii_lower_seq(fv->0),
            to_lower matches Some(y) ==> y@ == ascii_lower_seq(tv->0),
            out@ == flows@.subrange(0, i as int).filter(pred),
        decreases flows.len() - i,
    {
        proof {
            broadcast use Seq::lemma_filter_push;
            assert(flows@.subrange(0, i + 1) =~= flows@.subrange(0, i as int).push(flows@[i as int]));
        }
        let from_ok = match &from_lower {
            Some(x) => contains_text(flows[i].from_cohort.label().as_str(), x.as_str()),
            None => true,
        };
        let to_ok = match &to_lower {
            Some(y) => contains_text(flows[i].to_cohort.label().as_str(), y.as_str()),
            None => true,
        };
        if from_ok && to_ok {
            out.push(flows[i].clone());
        }
        i = i + 1;
    }
    assert(flows@.subrange(0, flows.len() as int) =~= flows@);
    assert(pred =~= (|f: CohortFlow| flow_selected(f, text_of(from), text_of(to))));
    out
}

} // verus!
