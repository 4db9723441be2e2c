//! Lifecycle status of a lottery round.

use vstd::prelude::*;

verus! {

/// State of a single lottery round.
///
/// `Open`, `Drawing`, `Drawn`, `Settled` follow each other; `Cancelled` is a
/// terminal state that `Open` and `Drawing` can lead to.
#[derive(Debug, Clone, Copy, PartialEq, Eq, Structural)]
pub enum RoundStatus {
    /// Tickets are on sale.
    Open,
    /// Sales are over and the round waits for randomness.
    Drawing,
    /// Winning numbers are known and prizes computed.
    Drawn,
    /// The round is final.
    Settled,
    /// The round was aborted.
    Cancelled,
}

impl RoundStatus {
    /// Whether tickets can be sold in this state.
    pub fn accepts_tickets(&self) -> (yes: bool)
        ensures
            yes == (*self == RoundStatus::Open),
    {
        matches!(self, RoundStatus::Open)
    }

    /// Whether no further state follows.
    pub fn is_terminal(&self) -> (yes: bool)
        ensures
            yes == (*self == RoundStatus::Settled || *self == RoundStatus::Cancelled),
    {
        matches!(self, RoundStatus::Settled | RoundStatus::Cancelled)
    }

    /// Whether a draw is expected.
    pub fn awaits_draw(&self) -> (yes: bool)
        ensures
            yes == (*self == RoundStatus::Drawing),
    {
        matches!(self, RoundStatus::Drawing)
    }

    /// The permitted steps from one state to the next.
    pub open spec fn leads_to(self, next: RoundStatus) -> bool {
        match self {
            RoundStatus::Open => next == RoundStatus::Drawing || next == RoundStatus::Cancelled,
            RoundStatus::Drawing => next == RoundStatus::Drawn || next == RoundStatus::Cancelled,
            RoundStatus::Drawn => next == RoundStatus::Settled,
            RoundStatus::Settled => false,
            RoundStatus::Cancelled => false,
        }
    }

    /// Whether the step from this state to `next` is permitted.
    pub fn can_transition_to(&self, next: &RoundStatus) -> (yes: bool)
        ensures
            yes == self.leads_to(*next),
    {
        match (self, next) {
            (RoundStatus::Open, RoundStatus::Drawing) => true,
            (RoundStatus::Open, RoundStatus::Cancelled) => true,
            (RoundStatus::Drawing, RoundStatus::Drawn) => true,
            (RoundStatus::Drawing, RoundStatus::Cancelled) => true,
            (RoundStatus::Drawn, RoundStatus::Settled) => true,
            _ => false,
        }
    }

    /// The word for this state.
    pub open spec fn word(self) -> Seq<char> {
        match self {
            RoundStatus::Open => "open"@,
            RoundStatus::Drawing => "drawing"@,
            RoundStatus::Drawn => "drawn"@,
            RoundStatus::Settled => "settled"@,
            RoundStatus::Cancelled => "cancelled"@,
        }
    }
}

/// Writes a status as a word.
pub fn status_str(s: &RoundStatus) -> (text: String)
    ensures
        text@ == s.word(),
{
    match s {
        RoundStatus::Open => "open".to_owned(),
        RoundStatus::Drawing => "drawing".to_owned(),
        RoundStatus::Drawn => "drawn".to_owned(),
        RoundStatus::Settled => "settled".to_owned(),
        RoundStatus::Cancelled => "cancelled".to_owned(),
    }
}

/// A terminal state is one that leads nowhere.
pub proof fn law_terminal_states_lead_nowhere(status: RoundStatus)
    ensures
        (status == RoundStatus::Settled || status == RoundStatus::Cancelled) <==> (forall|
            next: RoundStatus,
        |
            !status.leads_to(next)),
{
    if !(status == RoundStatus::Settled || status == RoundStatus::Cancelled) {
        assert(status.leads_to(RoundStatus::Drawing) || status.leads_to(RoundStatus::Drawn)
            || status.leads_to(RoundStatus::Settled));
    }
}

/// The permitted steps: a round is opened, drawn and settled in this order, and can be
/// aborted before it is drawn.
pub proof fn law_steps_of_a_round(from: RoundStatus, to: RoundStatus)
    ensures
        from.leads_to(to) <==> {
            ||| from == RoundStatus::Open && to == RoundStatus::Drawing
            ||| from == RoundStatus::Drawing && to == RoundStatus::Drawn
            ||| from == RoundStatus::Drawn && to == RoundStatus::Settled
            ||| to == RoundStatus::Cancelled && (from == RoundStatus::Open || from
                == RoundStatus::Drawing)
        },
{
}

/// Every state has a word of its own.
pub proof fn law_states_have_their_words(status: RoundStatus)
    ensures
        status == RoundStatus::Open ==> status.word() == "open"@,
        status == RoundStatus::Drawing ==> status.word() == "drawing"@,
        status == RoundStatus::Drawn ==> status.word() == "drawn"@,
        status == RoundStatus::Settled ==> status.word() == "settled"@,
        status == RoundStatus::Cancelled ==> status.word() == "cancelled"@,
{
}

} // verus!
