//! Adversarial gaming detection: commission sniping, vote-credit swings, identity-linked
//! self-stake and clusters of validators sharing a stake authority.
use vstd::prelude::*;
use crate::analysis::{distinct_keys, ValidatorHistory};
use crate::models::{GamingType, ValidatorSnapshot};
use crate::rpc::StakeAccountRecord;
use crate::text::{contains_string, sort_lex, sort_strings, views};
use crate::ordering::{sort_desc_by_key, sorted_desc_by};

verus! {

/// What a signal rests on, in numbers; the text shown to users is formatted from these.
pub enum GamingEvidence {
    /// Commission fell from `before_pct` to `low_pct` and came back to `rebound_pct`
    /// `epochs` epochs later, while stake grew by `stake_gain_lamports`.
    CommissionSniping { before_pct: u8, low_pct: u8, rebound_pct: u8, epochs: u64, stake_gain_lamports: u64 },
    /// The largest epoch-to-epoch change of vote credits, as the fraction
    /// `jump_numerator / jump_denominator` of the earlier epoch's credits.
    CreditSwing { jump_numerator: u64, jump_denominator: u64 },
    /// `linked_lamports` of `delegated_lamports` delegated stake is controlled by the
    /// validator's identity; stake grew by `growth_lamports` over a baseline of `baseline_lamports`.
    IdentityLinked { linked_lamports: u128, delegated_lamports: u128, growth_lamports: u64, baseline_lamports: u64 },
    /// `authority` controls stake delegated to every validator in `peers`, together `combined_lamports`.
    SharedAuthority { authority: String, peers: Vec<String>, combined_lamports: u128 },
}

/// Adversarial gaming signal; confidence in parts per million.
pub struct GamingSignal {
    pub vote_pubkey: String,
    pub signal_type: GamingType,
    pub confidence_ppm: u64,
    pub evidence: GamingEvidence,
    pub first_detected_epoch: u64,
}

fn clone_evidence(e: &GamingEvidence) -> (r: GamingEvidence)
    ensures
        r@ == e@,
{
    match e {
        GamingEvidence::CommissionSniping { before_pct, low_pct, rebound_pct, epochs, stake_gain_lamports } =>
            GamingEvidence::CommissionSniping {
                before_pct: *before_pct,
                low_pct: *low_pct,
                rebound_pct: *rebound_pct,
                epochs: *epochs,
                stake_gain_lamports: *stake_gain_lamports,
            },
        GamingEvidence::CreditSwing { jump_numerator, jump_denominator } => GamingEvidence::CreditSwing {
            jump_numerator: *jump_numerator,
            jump_denominator: *jump_denominator,
        },
        GamingEvidence::IdentityLinked { linked_lamports, delegated_lamports, growth_lamports, baseline_lamports } =>
            GamingEvidence::IdentityLinked {
                linked_lamports: *linked_lamports,
                delegated_lamports: *delegated_lamports,
                growth_lamports: *growth_lamports,
                baseline_lamports: *baseline_lamports,
            },
        GamingEvidence::SharedAuthority { authority, peers, combined_lamports } => GamingEvidence::SharedAuthority {
            authority: authority.clone(),
            peers: clone_strings(peers),
            combined_lamports: *combined_lamports,
        },
    }
}

impl GamingSignal {
    /// A copy of the signal.
    pub fn duplicate(&self) -> (r: GamingSignal)
        ensures
            r@ == self@,
    {
        GamingSignal {
            vote_pubkey: self.vote_pubkey.clone(),
            signal_type: self.signal_type,
            confidence_ppm: self.confidence_ppm,
            evidence: clone_evidence(&self.evidence),
            first_detected_epoch: self.first_detected_epoch,
        }
    }
}

pub enum EvidenceView {
    CommissionSniping { before_pct: u8, low_pct: u8, rebound_pct: u8, epochs: u64, stake_gain_lamports: u64 },
    CreditSwing { jump_numerator: u64, jump_denominator: u64 },
    IdentityLinked { linked_lamports: u128, delegated_lamports: u128, growth_lamports: u64, baseline_lamports: u64 },
    SharedAuthority { authority: Seq<char>, peers: Seq<Seq<char>>, combined_lamports: u128 },
}

pub struct SignalView {
    pub vote_pubkey: Seq<char>,
    pub signal_type: GamingType,
    pub confidence_ppm: u64,
    pub evidence: EvidenceView,
    pub first_detected_epoch: u64,
}

pub open spec fn string_views(v: Seq<String>) -> Seq<Seq<char>> {
    views(v)
}

impl View for GamingEvidence {
    type V = EvidenceView;

    open spec fn view(&self) -> EvidenceView {
        match self {
            GamingEvidence::CommissionSniping { before_pct, low_pct, rebound_pct, epochs, stake_gain_lamports } =>
                EvidenceView::CommissionSniping {
                    before_pct: *before_pct,
                    low_pct: *low_pct,
                    rebound_pct: *rebound_pct,
                    epochs: *epochs,
                    stake_gain_lamports: *stake_gain_lamports,
                },
            GamingEvidence::CreditSwing { jump_numerator, jump_denominator } => EvidenceView::CreditSwing {
                jump_numerator: *jump_numerator,
                jump_denominator: *jump_denominator,
            },
            GamingEvidence::IdentityLinked { linked_lamports, delegated_lamports, growth_lamports, baseline_lamports } =>
                EvidenceView::IdentityLinked {
                    linked_lamports: *linked_lamports,
                    delegated_lamports: *delegated_lamports,
                    growth_lamports: *growth_lamports,
                    baseline_lamports: *baseline_lamports,
                },
            GamingEvidence::SharedAuthority { authority, peers, combined_lamports } => EvidenceView::SharedAuthority {
                authority: authority@,
                peers: string_views(peers@),
                combined_lamports: *combined_lamports,
            },
        }
    }
}

impl View for GamingSignal {
    type V = SignalView;

    open spec fn view(&self) -> SignalView {
        SignalView {
            vote_pubkey: self.vote_pubkey@,
            signal_type: self.signal_type,
            confidence_ppm: self.confidence_ppm,
            evidence: self.evidence@,
            first_detected_epoch: self.first_detected_epoch,
        }
    }
}

// ---------------------------------------------------------------------------------------
// Stake flows: per delegated vote account, the stake delegated to it and its authorities.
// ---------------------------------------------------------------------------------------

pub open spec fn delegated_to(a: StakeAccountRecord, v: Seq<char>) -> bool {
    a.delegated_vote_pubkey matches Some(d) && d@ == v
}

pub open spec fn account_authorities(a: StakeAccountRecord) -> Seq<Seq<char>> {
    let s: Seq<Seq<char>> = match a.staker {
        Some(x) => seq![x@],
        None => Seq::empty(),
    };
    match a.withdrawer {
        Some(x) => s.push(x@),
        None => s,
    }
}

/// The account's staker or withdrawer is `identity`.
pub open spec fn controlled_by(a: StakeAccountRecord, identity: Seq<char>) -> bool {
    (a.staker matches Some(x) && x@ == identity) || (a.withdrawer matches Some(x) && x@ == identity)
}

/// Stake delegated to `v` by the accounts `s`.
pub open spec fn vote_total(s: Seq<StakeAccountRecord>, v: Seq<char>) -> nat
    decreases s.len(),
{
    if s.len() == 0 {
        0
    } else {
        vote_total(s.drop_last(), v) + if delegated_to(s.last(), v) {
            s.last().delegated_stake_lamports as nat
        } else {
            0nat
        }
    }
}

/// Stake delegated to `v` by accounts that `identity` controls.
pub open spec fn vote_linked(s: Seq<StakeAccountRecord>, v: Seq<char>, identity: Option<Seq<char>>) -> nat
    decreases s.len(),
{
    if s.len() == 0 {
        0
    } else {
        vote_linked(s.drop_last(), v, identity) + if delegated_to(s.last(), v) && (identity matches Some(id)
            && controlled_by(s.last(), id)) {
            s.last().delegated_stake_lamports as nat
        } else {
            0nat
        }
    }
}

/// Stakers and withdrawers of the accounts delegated to `v`, in account order.
pub open spec fn vote_authorities(s: Seq<StakeAccountRecord>, v: Seq<char>) -> Seq<Seq<char>>
    decreases s.len(),
{
    if s.len() == 0 {
        Seq::empty()
    } else {
        vote_authorities(s.drop_last(), v) + if delegated_to(s.last(), v) {
            account_authorities(s.last())
        } else {
            Seq::empty()
        }
    }
}

/// The latest identity of the validator whose history is keyed `v`, if it has snapshots.
pub open spec fn identity_for(hs: Seq<ValidatorHistory>, v: Seq<char>) -> Option<Seq<char>> {
    if exists|i: int| 0 <= i < hs.len() && (#[trigger] hs[i]).vote_pubkey@ == v && hs[i].snapshots.len() > 0 {
        let i = choose|i: int| 0 <= i < hs.len() && (#[trigger] hs[i]).vote_pubkey@ == v && hs[i].snapshots.len() > 0;
        Some(hs[i].snapshots@.last().identity@)
    } else {
        None
    }
}

pub struct FlowView {
    pub vote_pubkey: Seq<char>,
    pub total_lamports: nat,
    pub linked_lamports: nat,
    pub authorities: Seq<Seq<char>>,
}

/// The stake flow into `v`.
pub open spec fn flow_of(hs: Seq<ValidatorHistory>, s: Seq<StakeAccountRecord>, v: Seq<char>) -> FlowView {
    FlowView {
        vote_pubkey: v,
        total_lamports: vote_total(s, v),
        linked_lamports: vote_linked(s, v, identity_for(hs, v)),
        authorities: vote_authorities(s, v),
    }
}

/// Summary of the stake delegated to one vote account.
struct StakeFlowSummary {
    vote_pubkey: String,
    total_delegated_lamports: u128,
    identity_linked_lamports: u128,
    authorities: Vec<String>,
}

spec fn summary_view(f: StakeFlowSummary) -> FlowView {
    FlowView {
        vote_pubkey: f.vote_pubkey@,
        total_lamports: f.total_delegated_lamports as nat,
        linked_lamports: f.identity_linked_lamports as nat,
        authorities: string_views(f.authorities@),
    }
}

proof fn lemma_vote_sums_bound(s: Seq<StakeAccountRecord>, v: Seq<char>, id: Option<Seq<char>>)
    ensures
        vote_total(s, v) <= s.len() * 0xFFFF_FFFF_FFFF_FFFF,
        vote_linked(s, v, id) <= vote_total(s, v),
    decreases s.len(),
{
    if s.len() > 0 {
        lemma_vote_sums_bound(s.drop_last(), v, id);
    }
}

fn opt_eq(a: &Option<String>, b: &String) -> (r: bool)
    ensures
        r == (a matches Some(x) && x@ == b@),
{
    match a {
        Some(x) => *x == *b,
        None => false,
    }
}

fn latest_identity(histories: &Vec<ValidatorHistory>, v: &String) -> (r: Option<String>)
    requires
        distinct_keys(histories@),
    ensures
        (match r {
            Some(x) => identity_for(histories@, v@) == Some(x@),
            None => identity_for(histories@, v@) is None,
        }),
{
    let mut i: usize = 0;
    while i < histories.len()
        invariant
            i <= histories.len(),
            distinct_keys(histories@),
            forall|j: int| 0 <= j < i ==> (#[trigger] histories@[j]).vote_pubkey@ != v@,
        decreases histories.len() - i,
    {
        if histories[i].vote_pubkey == *v {
            let n = histories[i].snapshots.len();
            proof {
                if exists|k: int| 0 <= k < histories.len() && (#[trigger] histories@[k]).vote_pubkey@ == v@
                    && histories@[k].snapshots.len() > 0 {
                    let k = choose|k: int| 0 <= k < histories.len() && (#[trigger] histories@[k]).vote_pubkey@ == v@
                        && histories@[k].snapshots.len() > 0;
                    if k != i {
                        assert(histories@[k].vote_pubkey@ != histories@[i as int].vote_pubkey@);
                    }
                }
            }
            if n == 0 {
                return None;
            }
            return Some(histories[i].snapshots[n - 1].identity.clone());
        }
        i = i + 1;
    }
    None
}

/// The flow into `v` from the accounts.
fn flow_for(histories: &Vec<ValidatorHistory>, accounts: &Vec<StakeAccountRecord>, v: &String) -> (f: StakeFlowSummary)
    requires
        distinct_keys(histories@),
    ensures
        summary_view(f) == flow_of(histories@, accounts@, v@),
{
    let identity = latest_identity(histories, v);
    let ghost id: Option<Seq<char>> = match &identity {
        Some(x) => Some(x@),
        None => None,
    };
    let n = accounts.len();
    let mut total: u128 = 0;
    let mut linked: u128 = 0;
    let mut authorities: Vec<String> = Vec::new();
    let mut i: usize = 0;
    while i < n
        invariant
            n == accounts.len(),
            i <= n,
            id == identity_for(histories@, v@),
            match identity {
                Some(x) => id == Some(x@),
                None => id is None,
            },
            total == vote_total(accounts@.subrange(0, i as int), v@),
            linked == vote_linked(accounts@.subrange(0, i as int), v@, id),
            string_views(authorities@) == vote_authorities(accounts@.subrange(0, i as int), v@),
        decreases n - i,
    {
        let ghost pre = accounts@.subrange(0, i as int);
        assert(accounts@.subrange(0, i + 1).drop_last() =~= pre);
        proof {
            lemma_vote_sums_bound(pre, v@, id);
        }
        let a = &accounts[i];
        let delegated = match &a.delegated_vote_pubkey {
            Some(d) => *d == *v,
            None => false,
        };
        if delegated {
            total = total + a.delegated_stake_lamports as u128;
            let ghost before = authorities@;
            if let Some(s) = &a.staker {
                authorities.push(s.clone());
            }
            if let Some(w) = &a.withdrawer {
                authorities.push(w.clone());
            }
            assert(string_views(authorities@) =~= string_views(before) + account_authorities(*a));
            let linked_here = match &identity {
                Some(idv) => opt_eq(&a.staker, idv) || opt_eq(&a.withdrawer, idv),
                None => false,
            };
            if linked_here {
                linked = linked + a.delegated_stake_lamports as u128;
            }
        } else {
            assert(vote_authorities(accounts@.subrange(0, i + 1), v@) =~= vote_authorities(pre, v@));
        }
        i = i + 1;
    }
    assert(accounts@.subrange(0, n as int) =~= accounts@);
    StakeFlowSummary {
        vote_pubkey: v.clone(),
        total_delegated_lamports: total,
        identity_linked_lamports: linked,
        authorities,
    }
}

/// Vote accounts that receive delegations, in the order of their first delegation.
pub open spec fn flow_votes(s: Seq<StakeAccountRecord>) -> Seq<Seq<char>>
    decreases s.len(),
{
    if s.len() == 0 {
        Seq::empty()
    } else {
        let prev = flow_votes(s.drop_last());
        match s.last().delegated_vote_pubkey {
            Some(d) => if prev.contains(d@) {
                prev
            } else {
                prev.push(d@)
            },
            None => prev,
        }
    }
}

/// One flow per vote account that receives delegations, in the order of first delegation.
pub open spec fn flows_spec(hs: Seq<ValidatorHistory>, s: Seq<StakeAccountRecord>) -> Seq<FlowView> {
    flow_votes(s).map_values(|v: Seq<char>| flow_of(hs, s, v))
}


fn build_stake_flow_summary(histories: &Vec<ValidatorHistory>, accounts: &Vec<StakeAccountRecord>) -> (out: Vec<StakeFlowSummary>)
    requires
        distinct_keys(histories@),
    ensures
        out@.map_values(|f: StakeFlowSummary| summary_view(f)) == flows_spec(histories@, accounts@),
{
    let n = accounts.len();
    let mut votes: Vec<String> = Vec::new();
    let mut i: usize = 0;
    while i < n
        invariant
            n == accounts.len(),
            i <= n,
            string_views(votes@) == flow_votes(accounts@.subrange(0, i as int)),
        decreases n - i,
    {
        let ghost pre = accounts@.subrange(0, i as int);
        assert(accounts@.subrange(0, i + 1).drop_last() =~= pre);
        if let Some(d) = &accounts[i].delegated_vote_pubkey {
            if !contains_string(&votes, d) {
                let ghost before = votes@;
                votes.push(d.clone());
                assert(string_views(votes@) =~= string_views(before).push(d@));
            }
        }
        i = i + 1;
    }
    assert(accounts@.subrange(0, n as int) =~= accounts@);
    let mut out: Vec<StakeFlowSummary> = Vec::new();
    let mut k: usize = 0;
    while k < votes.len()
        invariant
            n == accounts.len(),
            distinct_keys(histories@),
            k <= votes.len(),
            string_views(votes@) == flow_votes(accounts@),
            out.len() == k,
            forall|x: int| 0 <= x < k ==> summary_view(#[trigger] out@[x]) == flow_of(histories@, accounts@, votes@[x]@),
        decreases votes.len() - k,
    {
        let f = flow_for(histories, accounts, &votes[k]);
        out.push(f);
        k = k + 1;
    }
    assert(out@.map_values(|f: StakeFlowSummary| summary_view(f)) =~= flows_spec(histories@, accounts@)) by {
        assert forall|x: int| 0 <= x < out.len() implies out@.map_values(|f: StakeFlowSummary| summary_view(f))[x]
            == flows_spec(histories@, accounts@)[x] by {
            assert(string_views(votes@)[x] == votes@[x]@);
        }
    }
    out
}

// ---------------------------------------------------------------------------------------
// Per-validator detectors.
// ---------------------------------------------------------------------------------------

/// Commission fell by at least two points into epoch `idx` and rose again by at least two
/// points by epoch `nxt`, one or two epochs later.
pub open spec fn snipe_at(h: Seq<ValidatorSnapshot>, idx: int, nxt: int) -> bool {
    &&& 1 <= idx < nxt <= idx + 2
    &&& nxt < h.len()
    &&& h[idx - 1].commission_pct - h[idx].commission_pct >= 2
    &&& h[nxt].commission_pct - h[idx].commission_pct >= 2
}

/// The first sniping pattern from epoch `idx` on, scanning epochs in order.
pub open spec fn snipe_search(h: Seq<ValidatorSnapshot>, idx: int) -> Option<(int, int)>
    decreases h.len() - idx,
{
    if idx < 1 || idx >= h.len() {
        None
    } else if snipe_at(h, idx, idx + 1) {
        Some((idx, idx + 1))
    } else if snipe_at(h, idx, idx + 2) {
        Some((idx, idx + 2))
    } else {
        snipe_search(h, idx + 1)
    }
}

pub open spec fn stake_gain(h: Seq<ValidatorSnapshot>, i: int, j: int) -> int {
    if h[j].activated_stake_lamports > h[i].activated_stake_lamports {
        h[j].activated_stake_lamports - h[i].activated_stake_lamports
    } else {
        0
    }
}

pub open spec fn min_int(a: int, b: int) -> int {
    if a < b { a } else { b }
}

/// Sniping confidence: 0.55, plus 0.05 per point of drop and rebound, plus 1 per 200,000 SOL
/// gained, at most 0.96.
pub open spec fn snipe_confidence(h: Seq<ValidatorSnapshot>, i: int, j: int) -> int {
    let drop = h[i - 1].commission_pct - h[i].commission_pct;
    let rebound = h[j].commission_pct - h[i].commission_pct;
    min_int(550_000 + (drop + rebound) * 50_000 + stake_gain(h, i, j) / 200_000_000, 960_000)
}

pub open spec fn snipe_view(key: Seq<char>, h: Seq<ValidatorSnapshot>, i: int, j: int, epoch: u64) -> SignalView {
    SignalView {
        vote_pubkey: key,
        signal_type: GamingType::CommissionSniping,
        confidence_ppm: snipe_confidence(h, i, j) as u64,
        evidence: EvidenceView::CommissionSniping {
            before_pct: h[i - 1].commission_pct,
            low_pct: h[i].commission_pct,
            rebound_pct: h[j].commission_pct,
            epochs: if h[j].epoch >= h[i].epoch { (h[j].epoch - h[i].epoch) as u64 } else { 0 },
            stake_gain_lamports: stake_gain(h, i, j) as u64,
        },
        first_detected_epoch: epoch,
    }
}

pub open spec fn snipe_signal(key: Seq<char>, h: Seq<ValidatorSnapshot>, epoch: u64) -> Option<SignalView> {
    if h.len() < 4 {
        None
    } else {
        match snipe_search(h, 1) {
            None => None,
            Some((i, j)) => Some(snipe_view(key, h, i, j, epoch)),
        }
    }
}

fn sniping_signal_at(vote_pubkey: &String, h: &Vec<ValidatorSnapshot>, i: usize, j: usize, epoch: u64) -> (r: GamingSignal)
    requires
        snipe_at(h@, i as int, j as int),
    ensures
        r@ == snipe_view(vote_pubkey@, h@, i as int, j as int, epoch),
{
    let prev = h[i - 1].commission_pct;
    let low = h[i].commission_pct;
    let back = h[j].commission_pct;
    let drop: u64 = (prev - low) as u64;
    let rebound: u64 = (back - low) as u64;
    let gain: u64 = if h[j].activated_stake_lamports > h[i].activated_stake_lamports {
        h[j].activated_stake_lamports - h[i].activated_stake_lamports
    } else {
        0
    };
    let raw: u64 = 550_000 + (drop + rebound) * 50_000 + gain / 200_000_000;
    let confidence: u64 = if raw < 960_000 { raw } else { 960_000 };
    let epochs: u64 = h[j].epoch.saturating_sub(h[i].epoch);
    GamingSignal {
        vote_pubkey: vote_pubkey.clone(),
        signal_type: GamingType::CommissionSniping,
        confidence_ppm: confidence,
        evidence: GamingEvidence::CommissionSniping {
            before_pct: prev,
            low_pct: low,
            rebound_pct: back,
            epochs,
            stake_gain_lamports: gain,
        },
        first_detected_epoch: epoch,
    }
}

/// Commission dropped by at least two points and rebounded by at least two points within
/// two epochs: the first such pattern in the history (which needs four snapshots).
fn detect_commission_sniping(vote_pubkey: &String, h: &Vec<ValidatorSnapshot>, first_detected_epoch: u64) -> (r: Option<GamingSignal>)
    ensures
        (match r {
            Some(g) => snipe_signal(vote_pubkey@, h@, first_detected_epoch) == Some(g@),
            None => snipe_signal(vote_pubkey@, h@, first_detected_epoch) is None,
        }),
{
    let n = h.len();
    if n < 4 {
        return None;
    }
    let mut idx: usize = 1;
    while idx < n
        invariant
            n == h.len(),
            4 <= n,
            1 <= idx <= n,
            snipe_search(h@, 1) == snipe_search(h@, idx as int),
        decreases n - idx,
    {
        let prev = h[idx - 1].commission_pct as u16;
        let curr = h[idx].commission_pct as u16;
        if prev >= curr + 2 {
            let last_next = if n - 1 - idx >= 2 { idx + 2 } else { n - 1 };
            let mut nxt = idx + 1;
            while nxt <= last_next
                invariant
                    n == h.len(),
                    4 <= n,
                    snipe_search(h@, 1) == snipe_search(h@, idx as int),
                    1 <= idx < n,
                    idx + 1 <= nxt <= last_next + 1,
                    last_next <= idx + 2,
                    last_next == if n - 1 - idx >= 2 { idx + 2 } else { n - 1 },
                    curr == h@[idx as int].commission_pct,
                    h@[idx - 1].commission_pct - h@[idx as int].commission_pct >= 2,
                    forall|t: int| idx < t < nxt ==> !#[trigger] snipe_at(h@, idx as int, t),
                decreases last_next + 1 - nxt,
            {
                let back = h[nxt].commission_pct as u16;
                if back >= curr + 2 {
                    assert(snipe_at(h@, idx as int, nxt as int));
                    assert(snipe_search(h@, idx as int) == Some((idx as int, nxt as int)));
                    let g = sniping_signal_at(vote_pubkey, h, idx, nxt, first_detected_epoch);
                    assert(snipe_signal(vote_pubkey@, h@, first_detected_epoch) == Some(
                        snipe_view(vote_pubkey@, h@, idx as int, nxt as int, first_detected_epoch),
                    ));
                    return Some(g);
                }
                nxt = nxt + 1;
            }
            assert(!snipe_at(h@, idx as int, idx + 1));
            assert(!snipe_at(h@, idx as int, idx + 2));
        }
        idx = idx + 1;
    }
    None
}

/// Relative vote-credit change into epoch `i`, as `(|change|, earlier credits)`; none when
/// the earlier epoch earned no credits.
pub open spec fn credit_jump_at(h: Seq<ValidatorSnapshot>, i: int) -> Option<(nat, nat)> {
    let a = h[i - 1].vote_credits_epoch;
    let b = h[i].vote_credits_epoch;
    if a == 0 {
        None
    } else if b >= a {
        Some(((b - a) as nat, a as nat))
    } else {
        Some(((a - b) as nat, a as nat))
    }
}

/// The largest relative credit change among the steps into epochs `1..m`, as a fraction
/// (`(0, 1)` when there is none); on ties the earlier step is kept.
pub open spec fn credit_swing(h: Seq<ValidatorSnapshot>, m: int) -> (nat, nat)
    decreases m,
{
    if m <= 1 {
        (0, 1)
    } else {
        let prev = credit_swing(h, m - 1);
        match credit_jump_at(h, m - 1) {
            Some(j) => if j.0 * prev.1 > prev.0 * j.1 {
                j
            } else {
                prev
            },
            None => prev,
        }
    }
}

/// A swing above 55% is flagged; confidence 0.66 plus 0.2 times the swing (capped at 1).
pub open spec fn credit_signal(key: Seq<char>, h: Seq<ValidatorSnapshot>, epoch: u64) -> Option<SignalView> {
    let (a, b) = credit_swing(h, h.len() as int);
    if 100 * a > 55 * b {
        Some(
            SignalView {
                vote_pubkey: key,
                signal_type: GamingType::VoteCreditManipulation,
                confidence_ppm: (660_000 + min_int((a * 200_000) as int / (b as int), 200_000)) as u64,
                evidence: EvidenceView::CreditSwing { jump_numerator: a as u64, jump_denominator: b as u64 },
                first_detected_epoch: epoch,
            },
        )
    } else {
        None
    }
}

pub proof fn lemma_credit_swing_bounds(h: Seq<ValidatorSnapshot>, m: int)
    ensures
        credit_swing(h, m).1 >= 1,
        credit_swing(h, m).0 <= 0xFFFF_FFFF_FFFF_FFFF,
        credit_swing(h, m).1 <= 0xFFFF_FFFF_FFFF_FFFF,
    decreases m,
{
    if m > 1 {
        lemma_credit_swing_bounds(h, m - 1);
    }
}

/// Flags an unusually large epoch-to-epoch swing in earned vote credits.
fn detect_credit_manipulation(vote_pubkey: &String, h: &Vec<ValidatorSnapshot>, first_detected_epoch: u64) -> (r: Option<GamingSignal>)
    ensures
        (match r {
            Some(g) => credit_signal(vote_pubkey@, h@, first_detected_epoch) == Some(g@),
            None => credit_signal(vote_pubkey@, h@, first_detected_epoch) is None,
        }),
{
    let n = h.len();
    if n == 0 {
        assert(credit_swing(h@, 0) == (0nat, 1nat));
        return None;
    }
    let mut num: u64 = 0;
    let mut den: u64 = 1;
    let mut i: usize = 1;
    while i < n
        invariant
            n == h.len(),
            1 <= i <= n,
            (num as nat, den as nat) == credit_swing(h@, i as int),
            den >= 1,
        decreases n - i,
    {
        let a = h[i - 1].vote_credits_epoch;
        let b = h[i].vote_credits_epoch;
        if a != 0 {
            let d: u64 = if b >= a { b - a } else { a - b };
            proof {
                assert((d as u128) * (den as u128) <= 0xFFFF_FFFF_FFFF_FFFF * 0xFFFF_FFFF_FFFF_FFFF) by (nonlinear_arith)
                    requires
                        d <= 0xFFFF_FFFF_FFFF_FFFFu64,
                        den <= 0xFFFF_FFFF_FFFF_FFFFu64,
                ;
                assert((num as u128) * (a as u128) <= 0xFFFF_FFFF_FFFF_FFFF * 0xFFFF_FFFF_FFFF_FFFF) by (nonlinear_arith)
                    requires
                        num <= 0xFFFF_FFFF_FFFF_FFFFu64,
                        a <= 0xFFFF_FFFF_FFFF_FFFFu64,
                ;
            }
            if (d as u128) * (den as u128) > (num as u128) * (a as u128) {
                num = d;
                den = a;
            }
        }
        i = i + 1;
    }
    proof {
        lemma_credit_swing_bounds(h@, h.len() as int);
    }
    proof {
        assert(i == n);
    }
    assert(credit_swing(h@, h.len() as int) == (num as nat, den as nat));
    if 100 * (num as u128) > 55 * (den as u128) {
        let scaled: u128 = (num as u128) * 200_000 / (den as u128);
        let part: u64 = if scaled < 200_000 { scaled as u64 } else { 200_000 };
        assert(part == min_int((num * 200_000) as int / (den as int), 200_000));
        Some(GamingSignal {
            vote_pubkey: vote_pubkey.clone(),
            signal_type: GamingType::VoteCreditManipulation,
            confidence_ppm: 660_000 + part,
            evidence: GamingEvidence::CreditSwing { jump_numerator: num, jump_denominator: den },
            first_detected_epoch,
        })
    } else {
        None
    }
}

/// Self-stake inflation: at least 500 SOL of the delegated stake is controlled by the
/// validator's identity, that is more than 30% of it, and stake grew over the last window
/// (the latest four snapshots). Confidence 0.45 + 0.35 x identity share + 0.30 x growth
/// ratio (capped at 1), at most 0.98.
pub open spec fn inflation_signal(key: Seq<char>, h: Seq<ValidatorSnapshot>, f: FlowView, epoch: u64) -> Option<SignalView> {
    if h.len() == 0 {
        None
    } else {
        let latest = h.last().activated_stake_lamports;
        let baseline = h[h.len() - min_int(4, h.len() as int)].activated_stake_lamports;
        let growth: int = if latest > baseline { latest - baseline } else { 0 };
        if f.linked_lamports >= 500_000_000_000 && f.linked_lamports * 100 > f.total_lamports * 30 && growth > 0 {
            let growth_part: int = if baseline > 0 { min_int(growth * 300_000 / (baseline as int), 300_000) } else { 0 };
            let conf = min_int(450_000 + (f.linked_lamports * 350_000 / f.total_lamports) as int + growth_part, 980_000);
            Some(
                SignalView {
                    vote_pubkey: key,
                    signal_type: GamingType::SelfStakeInflation,
                    confidence_ppm: conf as u64,
                    evidence: EvidenceView::IdentityLinked {
                        linked_lamports: f.linked_lamports as u128,
                        delegated_lamports: f.total_lamports as u128,
                        growth_lamports: growth as u64,
                        baseline_lamports: baseline,
                    },
                    first_detected_epoch: epoch,
                },
            )
        } else {
            None
        }
    }
}

/// `part * k` divided by `whole`, as quotient and remainder, for `part <= whole`; computed
/// bit by bit over `k` so that no intermediate value exceeds twice `whole` or `k`.
fn scaled_share(part: u128, whole: u128, k: u64) -> (r: (u128, u128))
    requires
        part <= whole,
        whole > 0,
    ensures
        r.0 * whole + r.1 == part * k,
        r.1 < whole,
        r.0 <= k,
    decreases k,
{
    if k == 0 {
        return (0, 0);
    }
    let (q1, r1) = scaled_share(part, whole, k / 2);
    let ghost h: int = (k / 2) as int;
    assert(q1 * 2 + 1 <= 2 * k + 1);
    let (q2, r2) = if r1 >= whole - r1 {
        (q1 * 2 + 1, r1 - (whole - r1))
    } else {
        (q1 * 2, r1 + r1)
    };
    assert(q2 * whole + r2 == part * (2 * h)) by (nonlinear_arith)
        requires
            q1 * whole + r1 == part * h,
            q2 == q1 * 2 + 1 && r2 == r1 - (whole - r1) || q2 == q1 * 2 && r2 == r1 + r1,
    ;
    let (q, rem) = if k % 2 == 1 {
        if r2 >= whole - part {
            (q2 + 1, r2 - (whole - part))
        } else {
            (q2, r2 + part)
        }
    } else {
        (q2, r2)
    };
    assert(k == 2 * h + k % 2);
    assert(q * whole + rem == part * k) by (nonlinear_arith)
        requires
            q2 * whole + r2 == part * (2 * h),
            k == 2 * h + k % 2,
            k % 2 == 1 ==> (q == q2 + 1 && rem == r2 - (whole - part) || q == q2 && rem == r2 + part),
            k % 2 == 0 ==> q == q2 && rem == r2,
    ;
    assert(q <= k) by (nonlinear_arith)
        requires
            q * whole + rem == part * k,
            part <= whole,
            whole > 0,
            rem >= 0,
    ;
    (q, rem)
}

fn detect_self_stake_inflation(
    vote_pubkey: &String,
    h: &Vec<ValidatorSnapshot>,
    flow: &StakeFlowSummary,
    first_detected_epoch: u64,
) -> (r: Option<GamingSignal>)
    requires
        flow.identity_linked_lamports <= flow.total_delegated_lamports,
    ensures
        (match r {
            Some(g) => inflation_signal(vote_pubkey@, h@, summary_view(*flow), first_detected_epoch) == Some(g@),
            None => inflation_signal(vote_pubkey@, h@, summary_view(*flow), first_detected_epoch) is None,
        }),
{
    let n = h.len();
    if n == 0 {
        return None;
    }
    let latest = h[n - 1].activated_stake_lamports;
    let back: usize = if n < 4 { n } else { 4 };
    let baseline = h[n - back].activated_stake_lamports;
    let growth: u64 = if latest > baseline { latest - baseline } else { 0 };
    let linked = flow.identity_linked_lamports;
    let total = flow.total_delegated_lamports;
    if linked < 500_000_000_000 || growth == 0 {
        return None;
    }
    let (tenths, tenths_rem) = scaled_share(linked, total, 10);
    assert(linked * 100 > total * 30 <==> (tenths > 3 || tenths == 3 && tenths_rem > 0)) by (nonlinear_arith)
        requires
            tenths * total + tenths_rem == linked * 10,
            tenths_rem < total,
            total > 0,
    ;
    if tenths > 3 || (tenths == 3 && tenths_rem > 0) {
        let (identity_part, identity_rem) = scaled_share(linked, total, 350_000);
        proof {
            vstd::arithmetic::div_mod::lemma_fundamental_div_mod_converse(
                (linked * 350_000) as int,
                total as int,
                identity_part as int,
                identity_rem as int,
            );
        }
        let growth_part: u128 = if baseline > 0 {
            let g: u128 = (growth as u128) * 300_000 / (baseline as u128);
            if g < 300_000 { g } else { 300_000 }
        } else {
            0
        };
        let raw: u128 = 450_000 + identity_part + growth_part;
        let conf: u64 = if raw < 980_000 { raw as u64 } else { 980_000 };
        Some(GamingSignal {
            vote_pubkey: vote_pubkey.clone(),
            signal_type: GamingType::SelfStakeInflation,
            confidence_ppm: conf,
            evidence: GamingEvidence::IdentityLinked {
                linked_lamports: linked,
                delegated_lamports: total,
                growth_lamports: growth,
                baseline_lamports: baseline,
            },
            first_detected_epoch,
        })
    } else {
        None
    }
}

// ---------------------------------------------------------------------------------------
// Sybil clusters: one authority behind the stake of several validators.
// ---------------------------------------------------------------------------------------

/// All authorities of the flows, flow by flow, in order (with repetitions).
pub open spec fn all_authorities(fs: Seq<FlowView>) -> Seq<Seq<char>>
    decreases fs.len(),
{
    if fs.len() == 0 {
        Seq::empty()
    } else {
        all_authorities(fs.drop_last()) + fs.last().authorities
    }
}

/// The distinct elements of `s` in order of first occurrence.
pub open spec fn first_occurrences(s: Seq<Seq<char>>) -> Seq<Seq<char>>
    decreases s.len(),
{
    if s.len() == 0 {
        Seq::empty()
    } else {
        let prev = first_occurrences(s.drop_last());
        if prev.contains(s.last()) {
            prev
        } else {
            prev.push(s.last())
        }
    }
}

/// Vote accounts among the first `m` flows whose authorities include `a`.
pub open spec fn voters(fs: Seq<FlowView>, a: Seq<char>, m: int) -> Seq<Seq<char>>
    decreases m,
{
    if m <= 0 {
        Seq::empty()
    } else {
        let prev = voters(fs, a, m - 1);
        if fs[m - 1].authorities.contains(a) {
            prev.push(fs[m - 1].vote_pubkey)
        } else {
            prev
        }
    }
}

pub open spec fn occurrences(s: Seq<Seq<char>>, a: Seq<char>) -> nat
    decreases s.len(),
{
    if s.len() == 0 {
        0
    } else {
        occurrences(s.drop_last(), a) + if s.last() == a { 1nat } else { 0nat }
    }
}

/// Combined stake behind authority `a` among the first `m` flows: the delegated stake of
/// each validator whose flow names `a`, counted once per validator.
pub open spec fn authority_mass(fs: Seq<FlowView>, a: Seq<char>, m: int) -> nat
    decreases m,
{
    if m <= 0 {
        0
    } else {
        authority_mass(fs, a, m - 1) + if fs[m - 1].authorities.contains(a) { fs[m - 1].total_lamports } else { 0 }
    }
}

pub open spec fn sat_u128(x: nat) -> nat {
    if x > u128::MAX { u128::MAX as nat } else { x }
}

/// Cluster confidence: 0.55 + 0.1 per validator + 1 per 1,000,000 SOL of combined stake
/// (that last part at most 0.2), at most 0.97.
pub open spec fn cluster_confidence(count: nat, combined: nat) -> int {
    min_int(550_000 + count * 100_000 + min_int(combined as int / 1_000_000_000, 200_000), 970_000)
}

pub open spec fn cluster_view(v: Seq<char>, a: Seq<char>, vs: Seq<Seq<char>>, combined: nat) -> SignalView {
    SignalView {
        vote_pubkey: v,
        signal_type: GamingType::SybilCluster,
        confidence_ppm: cluster_confidence(vs.len(), combined) as u64,
        evidence: EvidenceView::SharedAuthority { authority: a, peers: vs, combined_lamports: combined as u128 },
        first_detected_epoch: 0,
    }
}

/// A cluster is flagged when an authority stands behind at least three validators with at
/// least 10,000 SOL together; every member gets a signal, members in ascending order, and
/// each signal lists the members in that order.
pub open spec fn cluster_signals(fs: Seq<FlowView>, a: Seq<char>) -> Seq<SignalView> {
    let vs = sort_lex(voters(fs, a, fs.len() as int));
    let combined = sat_u128(authority_mass(fs, a, fs.len() as int));
    if vs.len() < 3 || combined < 10_000_000_000_000 {
        Seq::empty()
    } else {
        vs.map_values(|v: Seq<char>| cluster_view(v, a, vs, combined))
    }
}

pub open spec fn clusters_upto(fs: Seq<FlowView>, auths: Seq<Seq<char>>, m: int) -> Seq<SignalView>
    decreases m,
{
    if m <= 0 {
        Seq::empty()
    } else {
        clusters_upto(fs, auths, m - 1) + cluster_signals(fs, auths[m - 1])
    }
}

/// Cluster signals for every authority, authorities in order of first appearance.
pub open spec fn sybil_signals(fs: Seq<FlowView>) -> Seq<SignalView> {
    let auths = first_occurrences(all_authorities(fs));
    clusters_upto(fs, auths, auths.len() as int)
}

spec fn flow_views(v: Seq<StakeFlowSummary>) -> Seq<FlowView> {
    v.map_values(|f: StakeFlowSummary| summary_view(f))
}

fn distinct_authorities(flows: &Vec<StakeFlowSummary>) -> (out: Vec<String>)
    ensures
        string_views(out@) == first_occurrences(all_authorities(flow_views(flows@))),
{
    let mut out: Vec<String> = Vec::new();
    let mut fi: usize = 0;
    while fi < flows.len()
        invariant
            fi <= flows.len(),
            string_views(out@) == first_occurrences(all_authorities(flow_views(flows@.subrange(0, fi as int)))),
        decreases flows.len() - fi,
    {
        let f = &flows[fi];
        let ghost base = all_authorities(flow_views(flows@.subrange(0, fi as int)));
        assert(flow_views(flows@.subrange(0, fi + 1)).drop_last() =~= flow_views(flows@.subrange(0, fi as int)));
        assert(flow_views(flows@.subrange(0, fi + 1)).last() == summary_view(*f));
        let mut ai: usize = 0;
        assert(base + string_views(f.authorities@).subrange(0, 0) =~= base);
        while ai < f.authorities.len()
            invariant
                ai <= f.authorities.len(),
                string_views(out@) == first_occurrences(base + string_views(f.authorities@).subrange(0, ai as int)),
            decreases f.authorities.len() - ai,
        {
            let a = &f.authorities[ai];
            let ghost prefix = base + string_views(f.authorities@).subrange(0, ai as int);
            assert(string_views(f.authorities@)[ai as int] == a@);
            assert((base + string_views(f.authorities@).subrange(0, ai + 1)) =~= prefix.push(a@));
            assert(prefix.push(a@).drop_last() =~= prefix);
            assert(prefix.push(a@).last() == a@);
            if !contains_string(&out, a) {
                let ghost before = out@;
                out.push(a.clone());
                assert(string_views(out@) =~= string_views(before).push(a@));
            }
            ai = ai + 1;
        }
        assert(string_views(f.authorities@).subrange(0, f.authorities.len() as int) =~= string_views(f.authorities@));
        fi = fi + 1;
    }
    assert(flows@.subrange(0, flows.len() as int) =~= flows@);
    out
}

proof fn lemma_occurrences_bound(s: Seq<Seq<char>>, a: Seq<char>)
    ensures
        occurrences(s, a) <= s.len(),
    decreases s.len(),
{
    if s.len() > 0 {
        lemma_occurrences_bound(s.drop_last(), a);
    }
}

/// Validators whose stake `a` stands behind, and the saturated combined stake.
fn cluster_of(flows: &Vec<StakeFlowSummary>, a: &String) -> (r: (Vec<String>, u128))
    ensures
        string_views(r.0@) == voters(flow_views(flows@), a@, flows.len() as int),
        r.1 == sat_u128(authority_mass(flow_views(flows@), a@, flows.len() as int)),
{
    let ghost fs = flow_views(flows@);
    let mut vs: Vec<String> = Vec::new();
    let mut mass: u128 = 0;
    let mut fi: usize = 0;
    while fi < flows.len()
        invariant
            fi <= flows.len(),
            fs == flow_views(flows@),
            string_views(vs@) == voters(fs, a@, fi as int),
            mass == sat_u128(authority_mass(fs, a@, fi as int)),
        decreases flows.len() - fi,
    {
        let f = &flows[fi];
        assert(fs[fi as int] == summary_view(*f));
        let mut occ: usize = 0;
        let mut ai: usize = 0;
        while ai < f.authorities.len()
            invariant
                ai <= f.authorities.len(),
                occ <= ai,
                occ == occurrences(string_views(f.authorities@).subrange(0, ai as int), a@),
            decreases f.authorities.len() - ai,
        {
            let ghost pre = string_views(f.authorities@).subrange(0, ai as int);
            assert(string_views(f.authorities@).subrange(0, ai + 1).drop_last() =~= pre);
            if f.authorities[ai] == *a {
                occ = occ + 1;
            }
            ai = ai + 1;
        }
        assert(string_views(f.authorities@).subrange(0, f.authorities.len() as int) =~= string_views(f.authorities@));
        if occ > 0 {
            mass = mass.saturating_add(f.total_delegated_lamports);
            let ghost before = vs@;
            vs.push(f.vote_pubkey.clone());
            assert(string_views(vs@) =~= string_views(before).push(f.vote_pubkey@));
            assert(string_views(f.authorities@)[0] == f.authorities@[0]@ || true);
        }
        proof {
            lemma_occurrences_bound(string_views(f.authorities@), a@);
            if occ > 0 {
                assert(fs[fi as int].authorities.contains(a@)) by {
                    lemma_occurrence_witness(fs[fi as int].authorities, a@);
                }
            } else {
                if fs[fi as int].authorities.contains(a@) {
                    let k = choose|k: int| 0 <= k < fs[fi as int].authorities.len() && fs[fi as int].authorities[k] == a@;
                    lemma_occurrence_positive(fs[fi as int].authorities, a@, k);
                }
            }
        }
        fi = fi + 1;
    }
    (vs, mass)
}

proof fn lemma_occurrence_witness(s: Seq<Seq<char>>, a: Seq<char>)
    requires
        occurrences(s, a) > 0,
    ensures
        s.contains(a),
    decreases s.len(),
{
    if s.last() == a {
        assert(s[s.len() - 1] == a);
    } else {
        lemma_occurrence_witness(s.drop_last(), a);
        let k = choose|k: int| 0 <= k < s.drop_last().len() && s.drop_last()[k] == a;
        assert(s[k] == a);
    }
}

proof fn lemma_occurrence_positive(s: Seq<Seq<char>>, a: Seq<char>, k: int)
    requires
        0 <= k < s.len(),
        s[k] == a,
    ensures
        occurrences(s, a) > 0,
    decreases s.len(),
{
    if k < s.len() - 1 {
        lemma_occurrence_positive(s.drop_last(), a, k);
    }
}

pub open spec fn signal_views(v: Seq<GamingSignal>) -> Seq<SignalView> {
    v.map_values(|g: GamingSignal| g@)
}

fn clone_strings(v: &Vec<String>) -> (out: Vec<String>)
    ensures
        string_views(out@) == string_views(v@),
{
    let mut out: Vec<String> = Vec::new();
    let mut i: usize = 0;
    while i < v.len()
        invariant
            i <= v.len(),
            out@ == v@.subrange(0, i as int),
        decreases v.len() - i,
    {
        out.push(v[i].clone());
        assert(out@ =~= v@.subrange(0, i + 1));
        i = i + 1;
    }
    assert(v@.subrange(0, v.len() as int) =~= v@);
    out
}

/// Signals for validators whose delegated stake is controlled by a shared authority.
fn detect_sybil_clusters(flows: &Vec<StakeFlowSummary>) -> (out: Vec<GamingSignal>)
    ensures
        signal_views(out@) == sybil_signals(flow_views(flows@)),
{
    let ghost fs = flow_views(flows@);
    let auths = distinct_authorities(flows);
    let mut out: Vec<GamingSignal> = Vec::new();
    let mut k: usize = 0;
    while k < auths.len()
        invariant
            k <= auths.len(),
            fs == flow_views(flows@),
            string_views(auths@) == first_occurrences(all_authorities(fs)),
            signal_views(out@) == clusters_upto(fs, string_views(auths@), k as int),
        decreases auths.len() - k,
    {
        let a = &auths[k];
        assert(string_views(auths@)[k as int] == a@);
        let (found, combined) = cluster_of(flows, a);
        let vs = sort_strings(found);
        proof {
            crate::laws::sorted_names_are_ascending(voters(fs, a@, flows.len() as int));
        }
        let count = vs.len();
        let ghost before = out@;
        if count >= 3 && combined >= 10_000_000_000_000 {
            let stake_part: u128 = if combined / 1_000_000_000 < 200_000 { combined / 1_000_000_000 } else { 200_000 };
            let raw: u128 = 550_000 + (count as u128) * 100_000 + stake_part;
            let conf: u64 = if raw < 970_000 { raw as u64 } else { 970_000 };
            proof {
                assert(string_views(vs@).len() == count);
                assert(conf == cluster_confidence(count as nat, combined as nat));
            }
            let mut v: usize = 0;
            while v < count
                invariant
                    v <= count == vs.len(),
                    signal_views(out@) == signal_views(before) + string_views(vs@).subrange(0, v as int).map_values(
                        |x: Seq<char>| cluster_view(x, a@, string_views(vs@), combined as nat),
                    ),
                    conf == cluster_confidence(count as nat, combined as nat),
                decreases count - v,
            {
                let peers = clone_strings(&vs);
                let sig = GamingSignal {
                    vote_pubkey: vs[v].clone(),
                    signal_type: GamingType::SybilCluster,
                    confidence_ppm: conf,
                    evidence: GamingEvidence::SharedAuthority { authority: a.clone(), peers, combined_lamports: combined },
                    first_detected_epoch: 0,
                };
                let ghost mid = out@;
                out.push(sig);
                assert(string_views(vs@)[v as int] == vs@[v as int]@);
                assert(signal_views(out@) =~= signal_views(mid).push(sig@));
                assert(string_views(vs@).subrange(0, v + 1).map_values(
                    |x: Seq<char>| cluster_view(x, a@, string_views(vs@), combined as nat),
                ) =~= string_views(vs@).subrange(0, v as int).map_values(
                    |x: Seq<char>| cluster_view(x, a@, string_views(vs@), combined as nat),
                ).push(cluster_view(vs@[v as int]@, a@, string_views(vs@), combined as nat)));
                v = v + 1;
            }
            assert(string_views(vs@).subrange(0, count as int) =~= string_views(vs@));
        } else {
            assert(signal_views(out@) =~= signal_views(before) + Seq::<SignalView>::empty());
        }
        k = k + 1;
    }
    out
}

// ---------------------------------------------------------------------------------------
// Merging and the whole detection.
// ---------------------------------------------------------------------------------------

/// Position of the first signal in `acc` (from `i` on) for the same validator and signal type.
pub open spec fn slot_search(acc: Seq<SignalView>, s: SignalView, i: int) -> Option<int>
    decreases acc.len() - i,
{
    if i < 0 || i >= acc.len() {
        None
    } else if acc[i].vote_pubkey == s.vote_pubkey && acc[i].signal_type == s.signal_type {
        Some(i)
    } else {
        slot_search(acc, s, i + 1)
    }
}

/// Adds `s` to the kept signals: dropped below `min`; otherwise it replaces a kept signal
/// for the same validator and type only when its confidence is strictly higher.
pub open spec fn merge_one(acc: Seq<SignalView>, s: SignalView, min: u64) -> Seq<SignalView> {
    if s.confidence_ppm < min {
        acc
    } else {
        match slot_search(acc, s, 0) {
            Some(i) => if s.confidence_ppm > acc[i].confidence_ppm {
                acc.update(i, s)
            } else {
                acc
            },
            None => acc.push(s),
        }
    }
}

/// The signals kept after merging `cands` in order.
pub open spec fn merged(cands: Seq<SignalView>, min: u64) -> Seq<SignalView>
    decreases cands.len(),
{
    if cands.len() == 0 {
        Seq::empty()
    } else {
        merge_one(merged(cands.drop_last(), min), cands.last(), min)
    }
}

pub open spec fn opt_seq(o: Option<SignalView>) -> Seq<SignalView> {
    match o {
        Some(x) => seq![x],
        None => Seq::empty(),
    }
}

/// Signals of one history with at least four snapshots: sniping, credit swing, and (when
/// stake is delegated to it) self-stake inflation; all dated at the latest epoch.
pub open spec fn history_signals(h: ValidatorHistory, hs: Seq<ValidatorHistory>, accounts: Seq<StakeAccountRecord>) -> Seq<SignalView> {
    let s = h.snapshots@;
    let key = h.vote_pubkey@;
    if s.len() < 4 {
        Seq::empty()
    } else {
        let e = s.last().epoch;
        opt_seq(snipe_signal(key, s, e)) + opt_seq(credit_signal(key, s, e)) + if flow_votes(accounts).contains(key) {
            opt_seq(inflation_signal(key, s, flow_of(hs, accounts, key), e))
        } else {
            Seq::empty()
        }
    }
}

pub open spec fn gaming_candidates(hs: Seq<ValidatorHistory>, accounts: Seq<StakeAccountRecord>, m: int) -> Seq<SignalView>
    decreases m,
{
    if m <= 0 {
        Seq::empty()
    } else {
        gaming_candidates(hs, accounts, m - 1) + history_signals(hs[m - 1], hs, accounts)
    }
}

/// Every candidate signal: per-history signals in history order, then cluster signals.
pub open spec fn all_gaming_candidates(hs: Seq<ValidatorHistory>, accounts: Seq<StakeAccountRecord>) -> Seq<SignalView> {
    gaming_candidates(hs, accounts, hs.len() as int) + sybil_signals(flows_spec(hs, accounts))
}

pub open spec fn signal_confidence(g: GamingSignal) -> int {
    g.confidence_ppm as int
}

fn merge_signal(target: &mut Vec<GamingSignal>, signal: GamingSignal, min_confidence: u64)
    ensures
        signal_views(final(target)@) == merge_one(signal_views(old(target)@), signal@, min_confidence),
{
    let ghost acc = signal_views(target@);
    let ghost sv = signal@;
    if signal.confidence_ppm < min_confidence {
        return;
    }
    let mut i: usize = 0;
    while i < target.len()
        invariant
            i <= target.len(),
            acc == signal_views(target@),
            acc == signal_views(old(target)@),
            sv == signal@,
            signal.confidence_ppm >= min_confidence,
            slot_search(acc, sv, 0) == slot_search(acc, sv, i as int),
        decreases target.len() - i,
    {
        assert(acc[i as int] == target@[i as int]@);
        if target[i].vote_pubkey == signal.vote_pubkey && target[i].signal_type == signal.signal_type {
            assert(slot_search(acc, sv, i as int) == Some(i as int));
            if signal.confidence_ppm > target[i].confidence_ppm {
                assert(sv.confidence_ppm == signal.confidence_ppm);
                assert(acc[i as int].confidence_ppm == target@[i as int].confidence_ppm);
                assert(!(sv.confidence_ppm < min_confidence));
                assert(slot_search(acc, sv, 0) == Some(i as int));
                assert(sv.confidence_ppm > acc[i as int].confidence_ppm);
                assert(merge_one(acc, sv, min_confidence) == acc.update(i as int, sv));
                target.set(i, signal);
                assert(signal_views(target@) =~= acc.update(i as int, sv));
            } else {
                assert(merge_one(acc, sv, min_confidence) == acc);
            }
            return;
        }
        i = i + 1;
    }
    assert(slot_search(acc, sv, 0) is None);
    target.push(signal);
    assert(signal_views(target@) =~= acc.push(sv));
}

fn flow_position(flows: &Vec<StakeFlowSummary>, v: &String) -> (r: Option<usize>)
    ensures
        r matches Some(i) ==> i < flows.len() && flows@[i as int].vote_pubkey@ == v@,
        r is None ==> forall|i: int| 0 <= i < flows.len() ==> (#[trigger] flows@[i]).vote_pubkey@ != v@,
{
    let mut i: usize = 0;
    while i < flows.len()
        invariant
            i <= flows.len(),
            forall|j: int| 0 <= j < i ==> (#[trigger] flows@[j]).vote_pubkey@ != v@,
        decreases flows.len() - i,
    {
        if flows[i].vote_pubkey == *v {
            return Some(i);
        }
        i = i + 1;
    }
    None
}

proof fn lemma_flow_sums(hs: Seq<ValidatorHistory>, s: Seq<StakeAccountRecord>, v: Seq<char>)
    ensures
        flow_of(hs, s, v).linked_lamports <= flow_of(hs, s, v).total_lamports,
{
    lemma_vote_sums_bound(s, v, identity_for(hs, v));
}

proof fn lemma_merged_step(all: Seq<SignalView>, i: int, min: u64)
    requires
        0 <= i < all.len(),
    ensures
        merged(all.subrange(0, i + 1), min) == merge_one(merged(all.subrange(0, i), min), all[i], min),
{
    let p = all.subrange(0, i + 1);
    assert(p.drop_last() =~= all.subrange(0, i));
    assert(p.last() == all[i]);
}

fn merge_candidates(first: &Vec<GamingSignal>, second: &Vec<GamingSignal>, min: u64) -> (kept: Vec<GamingSignal>)
    ensures
        signal_views(kept@) == merged(signal_views(first@) + signal_views(second@), min),
{
    let ghost all = signal_views(first@) + signal_views(second@);
    let mut kept: Vec<GamingSignal> = Vec::new();
    let n1 = first.len();
    let n2 = second.len();
    assert(all.len() == n1 + n2);
    let mut i: usize = 0;
    while i < n1
        invariant
            n1 == first.len(),
            i <= n1,
            all == signal_views(first@) + signal_views(second@),
            signal_views(kept@) == merged(all.subrange(0, i as int), min),
        decreases n1 - i,
    {
        let g = first[i].duplicate();
        proof {
            lemma_merged_step(all, i as int, min);
            assert(all[i as int] == first@[i as int]@);
        }
        merge_signal(&mut kept, g, min);
        i = i + 1;
    }
    let mut j: usize = 0;
    while j < n2
        invariant
            n1 == first.len(),
            n2 == second.len(),
            j <= n2,
            all == signal_views(first@) + signal_views(second@),
            signal_views(kept@) == merged(all.subrange(0, n1 + j), min),
        decreases n2 - j,
    {
        let g = second[j].duplicate();
        proof {
            lemma_merged_step(all, n1 + j, min);
            assert(all[n1 + j] == second@[j as int]@);
        }
        merge_signal(&mut kept, g, min);
        j = j + 1;
    }
    assert(all.subrange(0, n1 + n2) =~= all);
    kept
}

/// Runs every detector over the histories (each with at least four snapshots) and the stake
/// accounts, keeps per validator and signal type the most confident signal at or above
/// `min_confidence_ppm`, and reports the kept signals most confident first.
pub fn detect_gaming_signals(
    histories: &Vec<ValidatorHistory>,
    stake_accounts: &Vec<StakeAccountRecord>,
    min_confidence_ppm: u64,
) -> (out: Vec<GamingSignal>)
    requires
        distinct_keys(histories@),
    ensures
        signal_views(out@).to_multiset() == merged(all_gaming_candidates(histories@, stake_accounts@), min_confidence_ppm).to_multiset(),
        sorted_desc_by(out@, |g: GamingSignal| signal_confidence(g)),
{
    let flows = build_stake_flow_summary(histories, stake_accounts);
    let ghost fs = flows_spec(histories@, stake_accounts@);
    assert(flow_views(flows@) == fs);
    let mut cands: Vec<GamingSignal> = Vec::new();
    let n = histories.len();
    let mut h: usize = 0;
    while h < n
        invariant
            n == histories.len(),
            h <= n,
            distinct_keys(histories@),
            flow_views(flows@) == fs,
            fs == flows_spec(histories@, stake_accounts@),
            signal_views(cands@) == gaming_candidates(histories@, stake_accounts@, h as int),
        decreases n - h,
    {
        let hist = &histories[h];
        let len = hist.snapshots.len();
        let ghost before = signal_views(cands@);
        if len >= 4 {
            let epoch = hist.snapshots[len - 1].epoch;
            let ghost e = epoch;
            if let Some(sig) = detect_commission_sniping(&hist.vote_pubkey, &hist.snapshots, epoch) {
                cands.push(sig);
            }
            let ghost after_snipe = signal_views(cands@);
            assert(after_snipe =~= before + opt_seq(snipe_signal(hist.vote_pubkey@, hist.snapshots@, e)));
            if let Some(sig) = detect_credit_manipulation(&hist.vote_pubkey, &hist.snapshots, epoch) {
                cands.push(sig);
            }
            let ghost after_credit = signal_views(cands@);
            assert(after_credit =~= after_snipe + opt_seq(credit_signal(hist.vote_pubkey@, hist.snapshots@, e)));
            match flow_position(&flows, &hist.vote_pubkey) {
                Some(fi) => {
                    proof {
                        assert(fs.len() == flows.len());
                        assert(flow_votes(stake_accounts@).len() == fs.len());
                        assert(flow_views(flows@)[fi as int] == summary_view(flows@[fi as int]));
                        assert(fs[fi as int] == flow_of(histories@, stake_accounts@, flow_votes(stake_accounts@)[fi as int]));
                        assert(fs[fi as int].vote_pubkey == flow_votes(stake_accounts@)[fi as int]);
                        assert(flow_votes(stake_accounts@)[fi as int] == hist.vote_pubkey@);
                        assert(flow_votes(stake_accounts@).contains(hist.vote_pubkey@));
                        lemma_flow_sums(histories@, stake_accounts@, hist.vote_pubkey@);
                    }
                    if let Some(sig) = detect_self_stake_inflation(&hist.vote_pubkey, &hist.snapshots, &flows[fi], epoch) {
                        cands.push(sig);
                    }
                    assert(signal_views(cands@) =~= after_credit + opt_seq(inflation_signal(
                        hist.vote_pubkey@,
                        hist.snapshots@,
                        flow_of(histories@, stake_accounts@, hist.vote_pubkey@),
                        e,
                    )));
                },
                None => {
                    proof {
                        if flow_votes(stake_accounts@).contains(hist.vote_pubkey@) {
                            let k = choose|k: int| 0 <= k < flow_votes(stake_accounts@).len() && flow_votes(stake_accounts@)[k] == hist.vote_pubkey@;
                            assert(fs.len() == flows.len());
                            assert(flow_votes(stake_accounts@).len() == fs.len());
                            assert(fs[k].vote_pubkey == flow_votes(stake_accounts@)[k]);
                            assert(flow_views(flows@)[k] == summary_view(flows@[k]));
                            assert(flows@[k].vote_pubkey@ != hist.vote_pubkey@);
                        }
                    }
                    assert(signal_views(cands@) =~= after_credit + Seq::<SignalView>::empty());
                },
            }
        } else {
            assert(signal_views(cands@) =~= before + Seq::<SignalView>::empty());
        }
        h = h + 1;
    }
    let sybil = detect_sybil_clusters(&flows);
    assert(signal_views(cands@) + signal_views(sybil@) == all_gaming_candidates(histories@, stake_accounts@));
    let kept = merge_candidates(&cands, &sybil, min_confidence_ppm);
    let mut keys: Vec<u128> = Vec::new();
    let mut j: usize = 0;
    while j < kept.len()
        invariant
            j <= kept.len(),
            keys.len() == j,
            forall|x: int| 0 <= x < j ==> keys@[x] == signal_confidence(#[trigger] kept@[x]),
        decreases kept.len() - j,
    {
        keys.push(kept[j].confidence_ppm as u128);
        j = j + 1;
    }
    let ghost kept_seq = kept@;
    let out = sort_desc_by_key(kept, keys, Ghost(|g: GamingSignal| signal_confidence(g)));
    proof {
        crate::ordering::lemma_multiset_map(out@, kept_seq, |g: GamingSignal| g@);
    }
    out
}

/// Every confidence lies in (0, 1], in parts per million.
pub open spec fn confidences_within_unit(s: Seq<SignalView>) -> bool {
    forall|i: int| 0 <= i < s.len() ==> 0 < (#[trigger] s[i]).confidence_ppm <= 1_000_000
}

proof fn lemma_unit_concat(a: Seq<SignalView>, b: Seq<SignalView>)
    requires
        confidences_within_unit(a),
        confidences_within_unit(b),
    ensures
        confidences_within_unit(a + b),
{
    assert forall|i: int| 0 <= i < (a + b).len() implies 0 < (#[trigger] (a + b)[i]).confidence_ppm <= 1_000_000 by {
        if i < a.len() {
            assert((a + b)[i] == a[i]);
        } else {
            assert((a + b)[i] == b[i - a.len()]);
        }
    }
}

proof fn lemma_snipe_search_at(h: Seq<ValidatorSnapshot>, idx: int)
    ensures
        snipe_search(h, idx) matches Some((i, j)) ==> snipe_at(h, i, j),
    decreases h.len() - idx,
{
    if 1 <= idx < h.len() && !snipe_at(h, idx, idx + 1) && !snipe_at(h, idx, idx + 2) {
        lemma_snipe_search_at(h, idx + 1);
    }
}

proof fn lemma_history_signals_unit(h: ValidatorHistory, hs: Seq<ValidatorHistory>, accounts: Seq<StakeAccountRecord>)
    ensures
        confidences_within_unit(history_signals(h, hs, accounts)),
{
    let s = h.snapshots@;
    let key = h.vote_pubkey@;
    if s.len() >= 4 {
        let e = s.last().epoch;
        lemma_snipe_search_at(s, 1);
        let a = opt_seq(snipe_signal(key, s, e));
        let b = opt_seq(credit_signal(key, s, e));
        if let Some((i, j)) = snipe_search(s, 1) {
            assert(a[0].confidence_ppm == snipe_confidence(s, i, j) as u64);
            assert(snipe_confidence(s, i, j) >= 550_000 + 4 * 50_000);
        }
        assert(confidences_within_unit(a));
        lemma_credit_swing_bounds(s, s.len() as int);
        let (x, y) = credit_swing(s, s.len() as int);
        assert((x * 200_000) as int / (y as int) >= 0) by (nonlinear_arith)
            requires
                y >= 1,
        ;
        assert(confidences_within_unit(b));
        lemma_unit_concat(a, b);
        let f = flow_of(hs, accounts, key);
        let c = if flow_votes(accounts).contains(key) {
            opt_seq(inflation_signal(key, s, f, e))
        } else {
            Seq::empty()
        };
        lemma_vote_sums_bound(accounts, key, identity_for(hs, key));
        if f.linked_lamports >= 500_000_000_000 {
            let linked = f.linked_lamports;
            let total = f.total_lamports;
            assert(linked * 350_000 / total >= 0) by (nonlinear_arith)
                requires
                    total >= linked,
                    linked >= 500_000_000_000,
            ;
        }
        let latest = s.last().activated_stake_lamports;
        let baseline = s[s.len() - min_int(4, s.len() as int)].activated_stake_lamports;
        let growth: int = if latest > baseline { latest - baseline } else { 0 };
        if baseline > 0 {
            assert(growth * 300_000 / (baseline as int) >= 0) by (nonlinear_arith)
                requires
                    growth >= 0,
                    baseline > 0,
            ;
        }
        assert(confidences_within_unit(c));
        lemma_unit_concat(a + b, c);
    }
}

proof fn lemma_gaming_candidates_unit(hs: Seq<ValidatorHistory>, accounts: Seq<StakeAccountRecord>, m: int)
    ensures
        confidences_within_unit(gaming_candidates(hs, accounts, m)),
    decreases m,
{
    if m > 0 {
        lemma_gaming_candidates_unit(hs, accounts, m - 1);
        lemma_history_signals_unit(hs[m - 1], hs, accounts);
        lemma_unit_concat(gaming_candidates(hs, accounts, m - 1), history_signals(hs[m - 1], hs, accounts));
    }
}

proof fn lemma_clusters_unit(fs: Seq<FlowView>, auths: Seq<Seq<char>>, m: int)
    ensures
        confidences_within_unit(clusters_upto(fs, auths, m)),
    decreases m,
{
    if m > 0 {
        lemma_clusters_unit(fs, auths, m - 1);
        let c = cluster_signals(fs, auths[m - 1]);
        assert forall|i: int| 0 <= i < c.len() implies 0 < (#[trigger] c[i]).confidence_ppm <= 1_000_000 by {
            let a = auths[m - 1];
            let vs = sort_lex(voters(fs, a, fs.len() as int));
            let combined = sat_u128(authority_mass(fs, a, fs.len() as int));
            assert(c[i] == cluster_view(vs[i], a, vs, combined));
            assert(vs.len() * 100_000 >= 0);
        }
        lemma_unit_concat(clusters_upto(fs, auths, m - 1), c);
    }
}

/// Every gaming signal the detection keeps has a confidence in (0, 1] (parts per million).
pub proof fn gaming_confidences_within_unit(hs: Seq<ValidatorHistory>, accounts: Seq<StakeAccountRecord>, min: u64)
    ensures
        confidences_within_unit(merged(all_gaming_candidates(hs, accounts), min)),
{
    let cands = all_gaming_candidates(hs, accounts);
    lemma_gaming_candidates_unit(hs, accounts, hs.len() as int);
    let fs = flows_spec(hs, accounts);
    let auths = first_occurrences(all_authorities(fs));
    lemma_clusters_unit(fs, auths, auths.len() as int);
    lemma_unit_concat(gaming_candidates(hs, accounts, hs.len() as int), sybil_signals(fs));
    crate::laws::merged_signals_keep_the_strongest(cands, min);
    let m = merged(cands, min);
    assert forall|i: int| 0 <= i < m.len() implies 0 < (#[trigger] m[i]).confidence_ppm <= 1_000_000 by {
        assert(cands.contains(m[i]));
        let k = choose|k: int| 0 <= k < cands.len() && cands[k] == m[i];
        assert(0 < cands[k].confidence_ppm <= 1_000_000);
    }
}

} // verus!
