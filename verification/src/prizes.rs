//! Prize tiers of a draw.
//!
//! Each tier has a fixed share of the pool, which its winners divide equally. A
//! tier without winners keeps its share in the pool.

use vstd::prelude::*;

verus! {

/// Share of the jackpot tier, in basis points of the pool.
pub const TIER6_BPS: u128 = 6000;

/// Share of the five-match tier, in basis points of the pool.
pub const TIER5_BPS: u128 = 2000;

/// Share of the four-match tier, in basis points of the pool.
pub const TIER4_BPS: u128 = 1200;

/// Share of the three-match tier, in basis points of the pool.
pub const TIER3_BPS: u128 = 800;

/// Winners per tier.
#[derive(Debug, Clone, Copy, PartialEq, Eq, Structural)]
pub struct TierCounts {
    pub three: u64,
    pub four: u64,
    pub five: u64,
    pub six: u64,
}

/// Winners per tier as specifications see them.
pub struct Tally {
    pub three: nat,
    pub four: nat,
    pub five: nat,
    pub six: nat,
}

impl View for TierCounts {
    type V = Tally;

    open spec fn view(&self) -> Tally {
        Tally {
            three: self.three as nat,
            four: self.four as nat,
            five: self.five as nat,
            six: self.six as nat,
        }
    }
}

impl Tally {
    /// No winners.
    pub open spec fn zero() -> Tally {
        Tally { three: 0, four: 0, five: 0, six: 0 }
    }

    /// One more ticket with that many matches; fewer than three win nothing.
    pub open spec fn with(self, matches: u8) -> Tally {
        if matches == 3 {
            Tally { three: self.three + 1, ..self }
        } else if matches == 4 {
            Tally { four: self.four + 1, ..self }
        } else if matches == 5 {
            Tally { five: self.five + 1, ..self }
        } else if matches >= 6 {
            Tally { six: self.six + 1, ..self }
        } else {
            self
        }
    }

    /// Whether every count fits its counter.
    pub open spec fn fits(self) -> bool {
        self.three <= u64::MAX && self.four <= u64::MAX && self.five <= u64::MAX && self.six
            <= u64::MAX
    }

    /// The winners in all tiers.
    pub open spec fn winners(self) -> nat {
        self.three + self.four + self.five + self.six
    }
}

/// Winners per tier among tickets with these match counts.
pub open spec fn tally(matches: Seq<u8>) -> Tally
    decreases matches.len(),
{
    if matches.len() == 0 {
        Tally::zero()
    } else {
        tally(matches.drop_last()).with(matches.last())
    }
}

impl TierCounts {
    /// No winners.
    pub fn zero() -> (counts: TierCounts)
        ensures
            counts@ == Tally::zero(),
    {
        TierCounts { three: 0, four: 0, five: 0, six: 0 }
    }

    /// Counts a ticket with that many matches.
    pub fn add(&mut self, matches: u8)
        requires
            old(self)@.with(matches).fits(),
        ensures
            final(self)@ == old(self)@.with(matches),
    {
        if matches == 3 {
            self.three = self.three + 1;
        } else if matches == 4 {
            self.four = self.four + 1;
        } else if matches == 5 {
            self.five = self.five + 1;
        } else if matches >= 6 {
            self.six = self.six + 1;
        }
    }
}

/// What a winner of each tier receives.
#[derive(Debug, Clone, Copy, PartialEq, Eq, Structural)]
pub struct PrizeTiers {
    pub tier_3: u128,
    pub tier_4: u128,
    pub tier_5: u128,
    /// The jackpot.
    pub tier_6: u128,
}

impl PrizeTiers {
    /// No prizes.
    pub open spec fn none() -> PrizeTiers {
        PrizeTiers { tier_3: 0, tier_4: 0, tier_5: 0, tier_6: 0 }
    }

    /// What a ticket with that many matches receives.
    pub open spec fn payout(self, matches: u8) -> nat {
        if matches == 3 {
            self.tier_3 as nat
        } else if matches == 4 {
            self.tier_4 as nat
        } else if matches == 5 {
            self.tier_5 as nat
        } else if matches >= 6 {
            self.tier_6 as nat
        } else {
            0
        }
    }

    /// What a ticket with that many matches receives.
    pub fn payout_for_matches(&self, matches: u8) -> (prize: u128)
        ensures
            prize == self.payout(matches),
    {
        if matches == 3 {
            self.tier_3
        } else if matches == 4 {
            self.tier_4
        } else if matches == 5 {
            self.tier_5
        } else if matches >= 6 {
            self.tier_6
        } else {
            0
        }
    }
}

impl Default for PrizeTiers {
    fn default() -> (tiers: Self)
        ensures
            tiers == PrizeTiers::none(),
    {
        PrizeTiers { tier_3: 0, tier_4: 0, tier_5: 0, tier_6: 0 }
    }
}

/// A tier's share of the pool, or nothing where the product with its basis points
/// does not fit.
pub open spec fn tier_share(pool: nat, bps: nat) -> nat {
    if pool * bps > u128::MAX {
        0
    } else {
        pool * bps / 10_000
    }
}

/// What each winner of a tier receives of the pool.
pub open spec fn per_winner(pool: nat, bps: nat, winners: nat) -> nat {
    if winners == 0 {
        0
    } else {
        tier_share(pool, bps) / winners
    }
}

/// The prizes that a pool pays to that many winners.
pub open spec fn prizes_of(pool: nat, counts: Tally) -> PrizeTiers {
    PrizeTiers {
        tier_3: per_winner(pool, TIER3_BPS as nat, counts.three) as u128,
        tier_4: per_winner(pool, TIER4_BPS as nat, counts.four) as u128,
        tier_5: per_winner(pool, TIER5_BPS as nat, counts.five) as u128,
        tier_6: per_winner(pool, TIER6_BPS as nat, counts.six) as u128,
    }
}

proof fn lemma_per_winner_fits(pool: nat, bps: nat, winners: nat)
    ensures
        per_winner(pool, bps, winners) <= u128::MAX,
        winners * per_winner(pool, bps, winners) <= tier_share(pool, bps),
        tier_share(pool, bps) <= u128::MAX,
        tier_share(pool, bps) * 10_000 <= pool * bps,
{
    let s = tier_share(pool, bps);
    if pool * bps > u128::MAX {
        assert(pool * bps >= 0) by (nonlinear_arith);
    }
    if winners > 0 {
        let q = s / winners;
        vstd::arithmetic::div_mod::lemma_fundamental_div_mod(s as int, winners as int);
        assert(winners * q <= s);
        assert(q <= s) by (nonlinear_arith)
            requires
                winners * q <= s,
                winners >= 1,
                q >= 0,
        ;
    }
}

fn share_per_winner(pool: u128, bps: u128, winners: u64) -> (prize: u128)
    ensures
        prize == per_winner(pool as nat, bps as nat, winners as nat),
{
    if winners == 0 {
        return 0;
    }
    let allocation: u128 = match pool.checked_mul(bps) {
        Some(scaled) => scaled / 10_000,
        None => 0,
    };
    allocation / (winners as u128)
}

/// Fixes what a winner of each tier receives of the pool.
pub fn compute_prize_tiers(pool: u128, counts: &TierCounts) -> (tiers: PrizeTiers)
    ensures
        tiers == prizes_of(pool as nat, counts@),
{
    PrizeTiers {
        tier_3: share_per_winner(pool, TIER3_BPS, counts.three),
        tier_4: share_per_winner(pool, TIER4_BPS, counts.four),
        tier_5: share_per_winner(pool, TIER5_BPS, counts.five),
        tier_6: share_per_winner(pool, TIER6_BPS, counts.six),
    }
}

/// What tickets with these match counts receive together.
pub open spec fn payout_sum(tiers: PrizeTiers, matches: Seq<u8>) -> nat
    decreases matches.len(),
{
    if matches.len() == 0 {
        0
    } else {
        payout_sum(tiers, matches.drop_last()) + tiers.payout(matches.last())
    }
}

/// How many tickets with these match counts receive something.
pub open spec fn paid_count(tiers: PrizeTiers, matches: Seq<u8>) -> nat
    decreases matches.len(),
{
    if matches.len() == 0 {
        0
    } else {
        paid_count(tiers, matches.drop_last()) + if tiers.payout(matches.last()) > 0 {
            1nat
        } else {
            0nat
        }
    }
}

/// What a tally of winners receives together.
pub open spec fn tally_sum(tiers: PrizeTiers, counts: Tally) -> nat {
    counts.three * tiers.tier_3 as nat + counts.four * tiers.tier_4 as nat + counts.five
        * tiers.tier_5 as nat + counts.six * tiers.tier_6 as nat
}

proof fn lemma_payout_sum_by_tier(tiers: PrizeTiers, matches: Seq<u8>)
    ensures
        payout_sum(tiers, matches) == tally_sum(tiers, tally(matches)),
    decreases matches.len(),
{
    if matches.len() > 0 {
        let rest = matches.drop_last();
        lemma_payout_sum_by_tier(tiers, rest);
        let c = tally(rest);
        lemma_one_more(c.three, tiers.tier_3 as nat);
        lemma_one_more(c.four, tiers.tier_4 as nat);
        lemma_one_more(c.five, tiers.tier_5 as nat);
        lemma_one_more(c.six, tiers.tier_6 as nat);
    } else {
        assert(tally_sum(tiers, Tally::zero()) == 0) by (nonlinear_arith);
    }
}

proof fn lemma_one_more(n: nat, x: nat)
    ensures
        (n + 1) * x == n * x + x,
{
    assert((n + 1) * x == n * x + x) by (nonlinear_arith);
}

pub proof fn lemma_tally_bounded(matches: Seq<u8>)
    ensures
        tally(matches).winners() <= matches.len(),
    decreases matches.len(),
{
    if matches.len() > 0 {
        lemma_tally_bounded(matches.drop_last());
    }
}

pub proof fn lemma_paid_count_bounded(tiers: PrizeTiers, matches: Seq<u8>)
    ensures
        paid_count(tiers, matches) <= matches.len(),
    decreases matches.len(),
{
    if matches.len() > 0 {
        lemma_paid_count_bounded(tiers, matches.drop_last());
    }
}

/// What a tier's winners receive each where the jackpot share is theirs too.
pub open spec fn per_lucky_winner(pool: nat, bps: nat, winners: nat) -> nat {
    (tier_share(pool, bps) + tier_share(pool, TIER6_BPS as nat)) / winners
}

/// Whether someone won below the jackpot.
pub open spec fn has_lower_winner(counts: Tally) -> bool {
    counts.five > 0 || counts.four > 0 || counts.three > 0
}

/// The prizes where the jackpot share goes, on top of their own, to the winners of
/// the best tier below the jackpot that has any.
pub open spec fn rolled_down(pool: nat, counts: Tally) -> PrizeTiers {
    let tiers = prizes_of(pool, counts);
    if counts.five > 0 {
        PrizeTiers {
            tier_5: per_lucky_winner(pool, TIER5_BPS as nat, counts.five) as u128,
            ..tiers
        }
    } else if counts.four > 0 {
        PrizeTiers {
            tier_4: per_lucky_winner(pool, TIER4_BPS as nat, counts.four) as u128,
            ..tiers
        }
    } else if counts.three > 0 {
        PrizeTiers {
            tier_3: per_lucky_winner(pool, TIER3_BPS as nat, counts.three) as u128,
            ..tiers
        }
    } else {
        tiers
    }
}

/// The prizes of a draw; `forced` where the jackpot share has to go to the best tier
/// present.
pub open spec fn drawn_prizes(pool: nat, counts: Tally, forced: bool) -> PrizeTiers {
    if forced {
        rolled_down(pool, counts)
    } else {
        prizes_of(pool, counts)
    }
}

proof fn lemma_per_lucky_winner_fits(pool: nat, bps: nat, winners: nat)
    requires
        winners > 0,
        bps + TIER6_BPS <= 10_000,
        pool <= u128::MAX,
    ensures
        per_lucky_winner(pool, bps, winners) <= u128::MAX,
        winners * per_lucky_winner(pool, bps, winners) <= tier_share(pool, bps) + tier_share(
            pool,
            TIER6_BPS as nat,
        ),
        tier_share(pool, bps) + tier_share(pool, TIER6_BPS as nat) <= pool,
{
    lemma_per_winner_fits(pool, bps, 1);
    lemma_per_winner_fits(pool, TIER6_BPS as nat, 1);
    let j = TIER6_BPS as nat;
    let s = tier_share(pool, bps) + tier_share(pool, j);
    let q = s / winners;
    assert(pool * bps + pool * j <= pool * 10_000) by (nonlinear_arith)
        requires
            bps + j <= 10_000,
    ;
    vstd::arithmetic::div_mod::lemma_fundamental_div_mod(s as int, winners as int);
    assert(winners * q <= s);
    assert(q <= s) by (nonlinear_arith)
        requires
            winners * q <= s,
            winners >= 1,
            q >= 0,
    ;
}

/// All prizes of a draw fit.
pub proof fn lemma_prizes_fit(pool: nat, counts: Tally)
    requires
        pool <= u128::MAX,
    ensures
        per_winner(pool, TIER3_BPS as nat, counts.three) <= u128::MAX,
        per_winner(pool, TIER4_BPS as nat, counts.four) <= u128::MAX,
        per_winner(pool, TIER5_BPS as nat, counts.five) <= u128::MAX,
        per_winner(pool, TIER6_BPS as nat, counts.six) <= u128::MAX,
        counts.three > 0 ==> per_lucky_winner(pool, TIER3_BPS as nat, counts.three) <= u128::MAX,
        counts.four > 0 ==> per_lucky_winner(pool, TIER4_BPS as nat, counts.four) <= u128::MAX,
        counts.five > 0 ==> per_lucky_winner(pool, TIER5_BPS as nat, counts.five) <= u128::MAX,
{
    lemma_per_winner_fits(pool, TIER3_BPS as nat, counts.three);
    lemma_per_winner_fits(pool, TIER4_BPS as nat, counts.four);
    lemma_per_winner_fits(pool, TIER5_BPS as nat, counts.five);
    lemma_per_winner_fits(pool, TIER6_BPS as nat, counts.six);
    if counts.three > 0 {
        lemma_per_lucky_winner_fits(pool, TIER3_BPS as nat, counts.three);
    }
    if counts.four > 0 {
        lemma_per_lucky_winner_fits(pool, TIER4_BPS as nat, counts.four);
    }
    if counts.five > 0 {
        lemma_per_lucky_winner_fits(pool, TIER5_BPS as nat, counts.five);
    }
}

fn share_per_lucky_winner(pool: u128, bps: u128, winners: u64) -> (prize: u128)
    requires
        winners > 0,
        bps + TIER6_BPS <= 10_000,
    ensures
        prize == per_lucky_winner(pool as nat, bps as nat, winners as nat),
{
    proof {
        lemma_per_lucky_winner_fits(pool as nat, bps as nat, winners as nat);
    }
    let own: u128 = match pool.checked_mul(bps) {
        Some(scaled) => scaled / 10_000,
        None => 0,
    };
    let jackpot: u128 = match pool.checked_mul(TIER6_BPS) {
        Some(scaled) => scaled / 10_000,
        None => 0,
    };
    (own + jackpot) / (winners as u128)
}

/// Fixes what a winner of each tier receives; `forced` where the jackpot share has to
/// go to the best tier present.
pub fn compute_drawn_prizes(pool: u128, counts: &TierCounts, forced: bool) -> (tiers: PrizeTiers)
    ensures
        tiers == drawn_prizes(pool as nat, counts@, forced),
{
    let mut tiers = compute_prize_tiers(pool, counts);
    if forced {
        if counts.five > 0 {
            tiers.tier_5 = share_per_lucky_winner(pool, TIER5_BPS, counts.five);
        } else if counts.four > 0 {
            tiers.tier_4 = share_per_lucky_winner(pool, TIER4_BPS, counts.four);
        } else if counts.three > 0 {
            tiers.tier_3 = share_per_lucky_winner(pool, TIER3_BPS, counts.three);
        }
    }
    tiers
}

/// A draw never promises more than its pool holds, whether or not the jackpot share
/// is forced down.
pub proof fn law_prizes_never_exceed_pool(pool: nat, matches: Seq<u8>, forced: bool)
    requires
        pool <= u128::MAX,
        forced ==> tally(matches).six == 0,
    ensures
        payout_sum(drawn_prizes(pool, tally(matches), forced), matches) <= pool,
{
    let c = tally(matches);
    let tiers = drawn_prizes(pool, c, forced);
    lemma_payout_sum_by_tier(tiers, matches);
    lemma_per_winner_fits(pool, TIER3_BPS as nat, c.three);
    lemma_per_winner_fits(pool, TIER4_BPS as nat, c.four);
    lemma_per_winner_fits(pool, TIER5_BPS as nat, c.five);
    lemma_per_winner_fits(pool, TIER6_BPS as nat, c.six);
    let jackpot = tier_share(pool, TIER6_BPS as nat);
    let s = tier_share(pool, TIER3_BPS as nat) + tier_share(pool, TIER4_BPS as nat) + tier_share(
        pool,
        TIER5_BPS as nat,
    ) + jackpot;
    if forced {
        assert(c.six * tiers.tier_6 as nat == 0) by (nonlinear_arith)
            requires
                c.six == 0,
        ;
        if c.five > 0 {
            lemma_per_lucky_winner_fits(pool, TIER5_BPS as nat, c.five);
        } else if c.four > 0 {
            lemma_per_lucky_winner_fits(pool, TIER4_BPS as nat, c.four);
        } else if c.three > 0 {
            lemma_per_lucky_winner_fits(pool, TIER3_BPS as nat, c.three);
        }
    }
    assert(tally_sum(tiers, c) <= s);
    assert(s * 10_000 <= pool * 10_000);
}

/// A forced jackpot share is paid out: with winners below the jackpot, the best tier
/// present receives its own share and the jackpot share, up to what does not divide
/// equally among its winners.
pub proof fn law_forced_jackpot_is_distributed(pool: nat, counts: Tally)
    requires
        pool <= u128::MAX,
        counts.six == 0,
        has_lower_winner(counts),
    ensures
        ({
            let jackpot = tier_share(pool, TIER6_BPS as nat);
            let tiers = drawn_prizes(pool, counts, true);
            let (winners, prize, own) = if counts.five > 0 {
                (counts.five, tiers.tier_5 as nat, tier_share(pool, TIER5_BPS as nat))
            } else if counts.four > 0 {
                (counts.four, tiers.tier_4 as nat, tier_share(pool, TIER4_BPS as nat))
            } else {
                (counts.three, tiers.tier_3 as nat, tier_share(pool, TIER3_BPS as nat))
            };
            winners * prize <= own + jackpot < winners * prize + winners
        }),
{
    let jackpot = tier_share(pool, TIER6_BPS as nat);
    if counts.five > 0 {
        lemma_per_lucky_winner_fits(pool, TIER5_BPS as nat, counts.five);
        let s = tier_share(pool, TIER5_BPS as nat) + jackpot;
        vstd::arithmetic::div_mod::lemma_fundamental_div_mod(s as int, counts.five as int);
    } else if counts.four > 0 {
        lemma_per_lucky_winner_fits(pool, TIER4_BPS as nat, counts.four);
        let s = tier_share(pool, TIER4_BPS as nat) + jackpot;
        vstd::arithmetic::div_mod::lemma_fundamental_div_mod(s as int, counts.four as int);
    } else {
        lemma_per_lucky_winner_fits(pool, TIER3_BPS as nat, counts.three);
        let s = tier_share(pool, TIER3_BPS as nat) + jackpot;
        vstd::arithmetic::div_mod::lemma_fundamental_div_mod(s as int, counts.three as int);
    }
}

/// Winners of the same tier receive the same, and a tier without winners pays
/// nothing.
pub proof fn law_tiers_pay_equally(pool: nat, matches: Seq<u8>, i: int, j: int)
    requires
        0 <= i < matches.len(),
        0 <= j < matches.len(),
        matches[i] == matches[j] || (matches[i] >= 6 && matches[j] >= 6),
    ensures
        prizes_of(pool, tally(matches)).payout(matches[i]) == prizes_of(
            pool,
            tally(matches),
        ).payout(matches[j]),
        tally(matches).six == 0 ==> prizes_of(pool, tally(matches)).tier_6 == 0,
        tally(matches).five == 0 ==> prizes_of(pool, tally(matches)).tier_5 == 0,
        tally(matches).four == 0 ==> prizes_of(pool, tally(matches)).tier_4 == 0,
        tally(matches).three == 0 ==> prizes_of(pool, tally(matches)).tier_3 == 0,
{
}

} // verus!
