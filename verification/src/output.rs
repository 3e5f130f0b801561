//! Text shown in reports.
use vstd::prelude::*;
use crate::analysis::adversarial::GamingSignal;
use crate::analysis::queue::PoolQueuePosition;
use crate::models::{gaming_type_text, stake_pool_text, DecayOpportunity, StakePoolId, ThreatProfile, ThreatTier};
use crate::text::{push_char, views};

verus! {

pub open spec fn tier_label_text(tier: ThreatTier) -> Seq<char> {
    match tier {
        ThreatTier::Critical => "CRITICAL"@,
        ThreatTier::Rising => "RISING"@,
        ThreatTier::Watching => "WATCHING"@,
        ThreatTier::Neutral => "NEUTRAL"@,
    }
}

/// The tier as the threat table shows it, in capitals.
pub fn tier_label(tier: ThreatTier) -> (s: String)
    ensures
        s@ == tier_label_text(tier),
{
    match tier {
        ThreatTier::Critical => String::from_str("CRITICAL"),
        ThreatTier::Rising => String::from_str("RISING"),
        ThreatTier::Watching => String::from_str("WATCHING"),
        ThreatTier::Neutral => String::from_str("NEUTRAL"),
    }
}

/// The decimal digit for `d` (0 to 9).
pub open spec fn digit_char(d: int) -> char {
    if d == 0 {
        '0'
    } else if d == 1 {
        '1'
    } else if d == 2 {
        '2'
    } else if d == 3 {
        '3'
    } else if d == 4 {
        '4'
    } else if d == 5 {
        '5'
    } else if d == 6 {
        '6'
    } else if d == 7 {
        '7'
    } else if d == 8 {
        '8'
    } else {
        '9'
    }
}

/// `n` in decimal, as `Display` writes an unsigned integer: no sign, no leading zeros.
pub open spec fn decimal_text(n: nat) -> Seq<char>
    decreases n,
{
    if n < 10 {
        seq![digit_char(n as int)]
    } else {
        decimal_text(n / 10).push(digit_char((n % 10) as int))
    }
}

fn digit(d: u64) -> (c: char)
    requires
        d < 10,
    ensures
        c == digit_char(d as int),
{
    if d == 0 {
        '0'
    } else if d == 1 {
        '1'
    } else if d == 2 {
        '2'
    } else if d == 3 {
        '3'
    } else if d == 4 {
        '4'
    } else if d == 5 {
        '5'
    } else if d == 6 {
        '6'
    } else if d == 7 {
        '7'
    } else if d == 8 {
        '8'
    } else {
        '9'
    }
}

/// `n` in decimal.
pub fn decimal(n: u64) -> (s: String)
    ensures
        s@ == decimal_text(n as nat),
    decreases n,
{
    if n < 10 {
        let mut s = String::new();
        push_char(&mut s, digit(n));
        assert(s@ =~= seq![digit_char(n as int)]);
        s
    } else {
        let mut s = decimal(n / 10);
        push_char(&mut s, digit(n % 10));
        s
    }
}

/// Body of the alert for a queue position that dropped.
pub open spec fn queue_alert_body_text(pool: StakePoolId, rank: u32, total: u32) -> Seq<char> {
    stake_pool_text(pool) + " rank moved to #"@ + decimal_text(rank as nat) + " of "@ + decimal_text(total as nat)
        + " in "@ + stake_pool_text(pool)
}

/// Body of the alert for a queue position that dropped: `<pool> rank moved to #<rank> of
/// <total> in <pool>`.
pub fn queue_alert_body(pool: StakePoolId, rank: u32, total: u32) -> (s: String)
    ensures
        s@ == queue_alert_body_text(pool, rank, total),
{
    let name = pool.label();
    let mut s = pool.label();
    s.append(" rank moved to #");
    s.append(decimal(rank as u64).as_str());
    s.append(" of ");
    s.append(decimal(total as u64).as_str());
    s.append(" in ");
    s.append(name.as_str());
    s
}

/// `n / d` rounded to the nearest whole number, ties to the even one: how a number with
/// that exact value is written with a fixed count of decimals.
pub open spec fn rounded(n: nat, d: nat) -> nat {
    let q = n / d;
    let r = n % d;
    if 2 * r > d || (2 * r == d && q % 2 == 1) {
        q + 1
    } else {
        q
    }
}

/// `n / d` rounded to the nearest whole number, ties to the even one.
pub fn round_half_even(n: u64, d: u64) -> (r: u64)
    requires
        d > 0,
    ensures
        r == rounded(n as nat, d as nat),
{
    let q = n / d;
    let rem = n % d;
    let up = if rem > d - rem {
        true
    } else if rem == d - rem {
        q % 2 == 1
    } else {
        false
    };
    if up {
        assert(d >= 2);
        assert(q * d <= n) by (nonlinear_arith)
            requires
                q == n / d,
                d > 0,
        ;
        assert(q <= n / 2) by (nonlinear_arith)
            requires
                q * d <= n,
                d >= 2,
        ;
        q + 1
    } else {
        q
    }
}

/// `c` hundredths written with two decimals: the whole part, a point and two digits.
pub open spec fn hundredths_text(c: nat) -> Seq<char> {
    decimal_text(c / 100) + seq!['.', digit_char(((c % 100) / 10) as int), digit_char((c % 10) as int)]
}

/// `c` hundredths written with two decimals.
pub fn hundredths(c: u64) -> (s: String)
    ensures
        s@ == hundredths_text(c as nat),
{
    let mut s = decimal(c / 100);
    push_char(&mut s, '.');
    push_char(&mut s, digit((c % 100) / 10));
    push_char(&mut s, digit(c % 10));
    assert(s@ =~= hundredths_text(c as nat));
    s
}

/// The magnitude of `v`.
pub open spec fn magnitude(v: int) -> nat {
    if v < 0 {
        (-v) as nat
    } else {
        v as nat
    }
}

/// A velocity in lamports per epoch, as SOL per epoch with two decimals (`-` before a
/// negative velocity).
pub open spec fn velocity_text(v: i64) -> Seq<char> {
    (if v < 0 { "-"@ } else { Seq::empty() }) + hundredths_text(rounded(magnitude(v as int), 10_000_000))
}

/// Body of the alert for a critical threat.
pub open spec fn threat_alert_body_text(t: ThreatProfile) -> Seq<char> {
    t.vote_pubkey@ + " may overtake within "@ + match t.epochs_to_overtake {
        Some(e) => decimal_text(e as nat),
        None => "unknown"@,
    } + " epochs (velocity "@ + velocity_text(t.velocity_lamports_per_epoch) + " SOL/epoch)"@
}

/// Body of the alert for a critical threat: `<validator> may overtake within <epochs or
/// unknown> epochs (velocity <SOL per epoch, two decimals> SOL/epoch)`.
pub fn threat_alert_body(t: &ThreatProfile) -> (s: String)
    ensures
        s@ == threat_alert_body_text(*t),
{
    let v = t.velocity_lamports_per_epoch;
    let mag: u64 = if v < 0 {
        (0i128 - v as i128) as u64
    } else {
        v as u64
    };
    assert(mag == magnitude(v as int));
    let mut s = t.vote_pubkey.clone();
    s.append(" may overtake within ");
    match t.epochs_to_overtake {
        Some(e) => s.append(decimal(e as u64).as_str()),
        None => s.append("unknown"),
    }
    s.append(" epochs (velocity ");
    let ghost before_sign = s@;
    if v < 0 {
        s.append("-");
    }
    assert(s@ =~= before_sign + (if v < 0 { "-"@ } else { Seq::empty() }));
    s.append(hundredths(round_half_even(mag, 10_000_000)).as_str());
    s.append(" SOL/epoch)");
    s
}

/// Body of the alert for an easy opportunity.
pub open spec fn opportunity_alert_body_text(o: DecayOpportunity) -> Seq<char> {
    o.vote_pubkey@ + " lost "@ + decimal_text(rounded(o.stake_lost_lamports as nat, 1_000_000_000))
        + " SOL over "@ + decimal_text(o.loss_duration_epochs as nat) + " epochs"@
}

/// Body of the alert for an easy opportunity: `<validator> lost <whole SOL> SOL over <epochs>
/// epochs`.
pub fn opportunity_alert_body(o: &DecayOpportunity) -> (s: String)
    ensures
        s@ == opportunity_alert_body_text(*o),
{
    let mut s = o.vote_pubkey.clone();
    s.append(" lost ");
    s.append(decimal(round_half_even(o.stake_lost_lamports, 1_000_000_000)).as_str());
    s.append(" SOL over ");
    s.append(decimal(o.loss_duration_epochs as u64).as_str());
    s.append(" epochs");
    s
}

/// Body of the alert for a gaming signal.
pub open spec fn gaming_alert_body_text(g: GamingSignal) -> Seq<char> {
    g.vote_pubkey@ + ": "@ + gaming_type_text(g.signal_type) + " (confidence "@
        + hundredths_text(rounded(g.confidence_ppm as nat, 10_000)) + ")"@
}

/// Body of the alert for a gaming signal: `<validator>: <signal type> (confidence <two
/// decimals>)`.
pub fn gaming_alert_body(g: &GamingSignal) -> (s: String)
    ensures
        s@ == gaming_alert_body_text(*g),
{
    let mut s = g.vote_pubkey.clone();
    s.append(": ");
    s.append(g.signal_type.label().as_str());
    s.append(" (confidence ");
    s.append(hundredths(round_half_even(g.confidence_ppm, 10_000)).as_str());
    s.append(")");
    s
}

/// Body of the alert for a falling queue position.
pub open spec fn position_alert_body_text(q: PoolQueuePosition) -> Seq<char> {
    queue_alert_body_text(q.pool, q.rank, q.total_eligible)
}

/// First evidence line of a commission-sniping signal.
pub open spec fn sniping_evidence_text(before: u8, low: u8, rebound: u8, epochs: u64) -> Seq<char> {
    "Commission dropped "@ + decimal_text(before as nat) + "% -> "@ + decimal_text(low as nat)
        + "% then rebounded to "@ + decimal_text(rebound as nat) + "% within "@ + decimal_text(epochs as nat)
        + " epochs"@
}

/// First evidence line of a commission-sniping signal: `Commission dropped <before>% ->
/// <low>% then rebounded to <rebound>% within <epochs> epochs`.
pub fn sniping_evidence(before: u8, low: u8, rebound: u8, epochs: u64) -> (s: String)
    ensures
        s@ == sniping_evidence_text(before, low, rebound, epochs),
{
    let mut s = String::from_str("Commission dropped ");
    s.append(decimal(before as u64).as_str());
    s.append("% -> ");
    s.append(decimal(low as u64).as_str());
    s.append("% then rebounded to ");
    s.append(decimal(rebound as u64).as_str());
    s.append("% within ");
    s.append(decimal(epochs).as_str());
    s.append(" epochs");
    s
}

/// First evidence line of a sybil-cluster signal.
pub open spec fn shared_authority_text(authority: Seq<char>, count: nat) -> Seq<char> {
    "Shared authority "@ + authority + " across "@ + decimal_text(count) + " validators"@
}

/// First evidence line of a sybil-cluster signal: `Shared authority <authority> across
/// <count> validators`.
pub fn shared_authority_evidence(authority: &String, count: usize) -> (s: String)
    requires
        count <= u64::MAX,
    ensures
        s@ == shared_authority_text(authority@, count as nat),
{
    let mut s = String::from_str("Shared authority ");
    s.append(authority.as_str());
    s.append(" across ");
    s.append(decimal(count as u64).as_str());
    s.append(" validators");
    s
}

/// `parts` joined by `sep`.
pub open spec fn joined(parts: Seq<Seq<char>>, sep: Seq<char>) -> Seq<char>
    decreases parts.len(),
{
    if parts.len() == 0 {
        Seq::empty()
    } else if parts.len() == 1 {
        parts[0]
    } else {
        joined(parts.drop_last(), sep) + sep + parts.last()
    }
}

/// Last evidence line of a sybil-cluster signal: `Cluster peers: ` and the peers joined by `, `.
pub fn cluster_peers_evidence(peers: &Vec<String>) -> (s: String)
    ensures
        s@ == "Cluster peers: "@ + joined(views(peers@), ", "@),
{
    let mut list = String::new();
    let mut i: usize = 0;
    while i < peers.len()
        invariant
            i <= peers.len(),
            list@ == joined(views(peers@).subrange(0, i as int), ", "@),
        decreases peers.len() - i,
    {
        let ghost pre = views(peers@).subrange(0, i as int);
        let ghost next = views(peers@).subrange(0, i + 1);
        assert(next.drop_last() =~= pre);
        assert(next.last() == peers@[i as int]@);
        if i > 0 {
            list.append(", ");
        } else {
            assert(pre.len() == 0);
        }
        list.append(peers[i].as_str());
        proof {
            if i == 0 {
                assert(list@ =~= next[0]);
            }
        }
        i = i + 1;
    }
    assert(views(peers@).subrange(0, peers.len() as int) =~= views(peers@));
    let mut s = String::from_str("Cluster peers: ");
    s.append(list.as_str());
    s
}

} // verus!
