//! References to the randomness that seeds a draw.
//!
//! A lottery takes its randomness from an external beacon, or from commit-reveal
//! as a fallback, never from block hash or block time. A [`BeaconRef`] says which
//! beacon round a draw consumed, so that anyone can fetch it again.

use crate::error::SharedError;
use crate::text::{copy_bytes, decimal, decimal_text, join};
use vstd::prelude::*;

verus! {

/// Where the randomness of a draw comes from.
#[derive(Debug, Clone, Copy, PartialEq, Eq, Structural)]
pub enum BeaconSource {
    /// The drand beacon, identified by a chain hash.
    Drand,
    /// A Nois proxy that delivers drand rounds.
    Nois,
    /// Commit-reveal among operators.
    CommitReveal,
}

/// A reference to the randomness that seeded, or will seed, a draw.
#[derive(Debug, PartialEq)]
pub struct BeaconRef {
    pub source: BeaconSource,
    /// drand chain hash or Nois job id; empty for commit-reveal.
    pub chain_hash: String,
    /// The beacon round that the draw is pinned to.
    pub round: u64,
    /// The 32 bytes of randomness, once delivered.
    pub randomness: Option<Vec<u8>>,
}

/// A beacon reference as specifications see it.
pub struct BeaconView {
    pub source: BeaconSource,
    pub chain_hash: Seq<char>,
    pub round: u64,
    pub randomness: Option<Seq<u8>>,
}

/// The contents of optional bytes.
pub open spec fn bytes_view(bytes: Option<Vec<u8>>) -> Option<Seq<u8>> {
    match bytes {
        Some(b) => Some(b@),
        None => None,
    }
}

impl View for BeaconRef {
    type V = BeaconView;

    open spec fn view(&self) -> BeaconView {
        BeaconView {
            source: self.source,
            chain_hash: self.chain_hash@,
            round: self.round,
            randomness: bytes_view(self.randomness),
        }
    }
}

/// The refusal of randomness of the wrong length.
pub open spec fn wrong_length(len: nat) -> SharedError<Seq<char>> {
    SharedError::InvalidBeacon { reason: "randomness must be 32 bytes, got "@ + decimal(len) }
}

impl BeaconView {
    /// A reference to a drand round that has not been delivered yet.
    pub open spec fn awaited(chain_hash: Seq<char>, round: u64) -> BeaconView {
        BeaconView { source: BeaconSource::Drand, chain_hash, round, randomness: None }
    }

    /// What attaching randomness leads to.
    pub open spec fn attached(self, randomness: Seq<u8>) -> Result<
        BeaconView,
        SharedError<Seq<char>>,
    > {
        if randomness.len() != 32 {
            Err(wrong_length(randomness.len()))
        } else {
            Ok(BeaconView { randomness: Some(randomness), ..self })
        }
    }

    /// The delivered randomness.
    pub open spec fn delivered(self) -> Result<Seq<u8>, SharedError<Seq<char>>> {
        match self.randomness {
            Some(bytes) => Ok(bytes),
            None => Err(
                SharedError::InvalidBeacon { reason: "beacon randomness not yet delivered"@ },
            ),
        }
    }

    /// Why the reference is not well formed.
    pub open spec fn refusal(self) -> Option<SharedError<Seq<char>>> {
        if self.source != BeaconSource::CommitReveal && self.chain_hash.len() == 0 {
            Some(
                SharedError::InvalidBeacon {
                    reason: "chain_hash required for drand/nois beacon"@,
                },
            )
        } else if self.source != BeaconSource::CommitReveal && self.round == 0 {
            Some(
                SharedError::InvalidBeacon {
                    reason: "round must be non-zero for drand/nois beacon"@,
                },
            )
        } else {
            match self.randomness {
                Some(r) => if r.len() != 32 {
                    Some(wrong_length(r.len()))
                } else {
                    None
                },
                None => None,
            }
        }
    }
}

fn wrong_length_error(len: usize) -> (error: SharedError)
    ensures
        error@ == wrong_length(len as nat),
{
    SharedError::InvalidBeacon {
        reason: join("randomness must be 32 bytes, got ", decimal_text(len as u128).as_str()),
    }
}

impl BeaconRef {
    /// A reference to a drand round that has not been delivered yet.
    pub fn pending_drand(chain_hash: &str, round: u64) -> (beacon: BeaconRef)
        ensures
            beacon@ == BeaconView::awaited(chain_hash@, round),
    {
        BeaconRef {
            source: BeaconSource::Drand,
            chain_hash: chain_hash.to_owned(),
            round,
            randomness: None,
        }
    }

    /// Whether the randomness has been delivered.
    pub fn is_fulfilled(&self) -> (yes: bool)
        ensures
            yes == (self@.randomness is Some),
    {
        self.randomness.is_some()
    }

    /// Attaches delivered randomness, which must be 32 bytes long.
    pub fn fulfill(&mut self, randomness: Vec<u8>) -> (result: Result<(), SharedError>)
        ensures
            match old(self)@.attached(randomness@) {
                Ok(beacon) => result is Ok && final(self)@ == beacon,
                Err(e) => (result matches Err(error) && error@ == e) && *final(self) == *old(self),
            },
    {
        if randomness.len() != 32 {
            return Err(wrong_length_error(randomness.len()));
        }
        self.randomness = Some(randomness);
        Ok(())
    }

    /// The delivered randomness.
    pub fn randomness_bytes(&self) -> (result: Result<Vec<u8>, SharedError>)
        ensures
            match self@.delivered() {
                Ok(r) => result matches Ok(bytes) && bytes@ == r,
                Err(e) => result matches Err(error) && error@ == e,
            },
    {
        match &self.randomness {
            Some(r) => Ok(copy_bytes(r.as_slice())),
            None => Err(
                SharedError::InvalidBeacon {
                    reason: "beacon randomness not yet delivered".to_owned(),
                },
            ),
        }
    }

    /// Checks that the reference is well formed.
    pub fn validate(&self) -> (result: Result<(), SharedError>)
        ensures
            match self@.refusal() {
                Some(e) => result matches Err(error) && error@ == e,
                None => result is Ok,
            },
    {
        match self.source {
            BeaconSource::Drand | BeaconSource::Nois => {
                if self.chain_hash.as_str().is_empty() {
                    return Err(
                        SharedError::InvalidBeacon {
                            reason: "chain_hash required for drand/nois beacon".to_owned(),
                        },
                    );
                }
                if self.round == 0 {
                    return Err(
                        SharedError::InvalidBeacon {
                            reason: "round must be non-zero for drand/nois beacon".to_owned(),
                        },
                    );
                }
            },
            BeaconSource::CommitReveal => {},
        }
        if let Some(r) = &self.randomness {
            if r.len() != 32 {
                return Err(wrong_length_error(r.len()));
            }
        }
        Ok(())
    }
}

/// When a beacon publishes a round; the first one is published at its genesis.
pub open spec fn published_at(genesis: u64, period: u64, round: int) -> int {
    genesis + (round - 1) * period
}

/// The first round that a beacon publishes strictly after some time.
pub open spec fn first_round_after(genesis: u64, period: u64, time: u64) -> nat {
    if time < genesis {
        1
    } else {
        ((time - genesis) / (period as int) + 2) as nat
    }
}

/// Finds the first round that a beacon publishes strictly after some time, as far as
/// rounds are numbered.
pub fn find_round_after(genesis: u64, period: u64, time: u64) -> (round: u64)
    requires
        period > 0,
    ensures
        round == if first_round_after(genesis, period, time) <= u64::MAX {
            first_round_after(genesis, period, time) as u64
        } else {
            u64::MAX
        },
{
    if time < genesis {
        1
    } else {
        ((time - genesis) / period).saturating_add(2)
    }
}

/// That round comes after the time, and no earlier round does.
pub proof fn law_first_round_after_is_first(genesis: u64, period: u64, time: u64, earlier: int)
    requires
        period > 0,
    ensures
        published_at(genesis, period, first_round_after(genesis, period, time) as int) > time,
        1 <= earlier < first_round_after(genesis, period, time) ==> published_at(
            genesis,
            period,
            earlier,
        ) <= time,
{
    lemma_published_after(genesis, period, time);
    let p = period as int;
    let q = (time - genesis) / p;
    if 1 <= earlier < first_round_after(genesis, period, time) {
        assert((earlier - 1) * p <= q * p) by (nonlinear_arith)
            requires
                earlier - 1 <= q,
                p > 0,
        ;
        vstd::arithmetic::div_mod::lemma_fundamental_div_mod(time - genesis, p);
        assert(p * q == q * p) by (nonlinear_arith);
    }
}

/// A beacon publishes that round strictly after the time.
proof fn lemma_published_after(genesis: u64, period: u64, time: u64)
    requires
        period > 0,
    ensures
        published_at(genesis, period, first_round_after(genesis, period, time) as int) > time,
{
    let p = period as int;
    if time < genesis {
        assert((1 - 1) * p == 0) by (nonlinear_arith);
    } else {
        let d = time - genesis;
        let q = d / p;
        vstd::arithmetic::div_mod::lemma_fundamental_div_mod(d, p);
        assert(q >= 0) by {
            vstd::arithmetic::div_mod::lemma_div_pos_is_pos(d, p);
        }
        assert((q + 1) * p == p * q + p) by (nonlinear_arith);
    }
}

/// A well-formed reference that takes 32 bytes of randomness is well formed still,
/// and hands the same bytes back.
pub proof fn law_fulfilled_beacon_stays_valid(beacon: BeaconView, randomness: Seq<u8>)
    requires
        beacon.refusal() is None,
        randomness.len() == 32,
    ensures
        (BeaconView { randomness: Some(randomness), ..beacon }).refusal() is None,
{
}

/// A reference is well formed if a drand or Nois beacon has a chain and a round, and
/// randomness that is there has 32 bytes.
pub proof fn law_well_formed_reference(beacon: BeaconView)
    ensures
        beacon.refusal() is None <==> {
            &&& beacon.source == BeaconSource::CommitReveal || (beacon.chain_hash.len() > 0
                && beacon.round > 0)
            &&& beacon.randomness matches Some(bytes) ==> bytes.len() == 32
        },
        beacon.refusal() matches Some(e) ==> (e matches SharedError::InvalidBeacon { reason }
            && reason == if beacon.source != BeaconSource::CommitReveal && beacon.chain_hash.len()
            == 0 {
            "chain_hash required for drand/nois beacon"@
        } else if beacon.source != BeaconSource::CommitReveal && beacon.round == 0 {
            "round must be non-zero for drand/nois beacon"@
        } else {
            "randomness must be 32 bytes, got "@ + decimal(beacon.randomness->0.len())
        }),
{
}

/// A new reference awaits its round of its chain, and has nothing to deliver. Randomness
/// of 32 bytes can be attached to any reference and is then what it delivers; other
/// randomness is refused. Nothing else of the reference changes.
pub proof fn law_reference_delivers_what_is_attached(
    beacon: BeaconView,
    randomness: Seq<u8>,
    chain_hash: Seq<char>,
    round: u64,
)
    ensures
        ({
            let new = BeaconView::awaited(chain_hash, round);
            &&& new.source == BeaconSource::Drand && new.chain_hash == chain_hash && new.round
                == round
            &&& new.delivered() is Err
        }),
        match beacon.attached(randomness) {
            Ok(after) => randomness.len() == 32 && after.delivered() == Ok::<
                Seq<u8>,
                SharedError<Seq<char>>,
            >(randomness) && after.source == beacon.source && after.chain_hash
                == beacon.chain_hash && after.round == beacon.round,
            Err(e) => randomness.len() != 32 && e == (SharedError::InvalidBeacon {
                reason: "randomness must be 32 bytes, got "@ + decimal(randomness.len()),
            }),
        },
        beacon.delivered() is Ok <==> beacon.randomness is Some,
{
}

} // verus!
