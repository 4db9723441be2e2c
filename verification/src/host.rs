//! What the chain's host hands to the contract along with a message.

use crate::money::{coins_view, Coin, CoinView};
use vstd::prelude::*;

verus! {

/// The block in which a message runs.
#[derive(Debug, Clone, Copy, PartialEq, Eq, Structural)]
pub struct Env {
    pub height: u64,
    /// Block time in nanoseconds since the epoch.
    pub time_nanos: u64,
}

impl Env {
    /// Block time in whole seconds since the epoch.
    pub open spec fn now(self) -> u64 {
        (self.time_nanos / 1_000_000_000) as u64
    }

    /// Block time in whole seconds since the epoch.
    pub fn seconds(&self) -> (now: u64)
        ensures
            now == self.now(),
    {
        self.time_nanos / 1_000_000_000
    }
}

/// Who sent a message, and the coins that came with it.
#[derive(Debug, PartialEq)]
pub struct MessageInfo {
    pub sender: String,
    pub funds: Vec<Coin>,
}

/// A message's sender and coins as specifications see them.
pub struct InfoView {
    pub sender: Seq<char>,
    pub funds: Seq<CoinView>,
}

impl View for MessageInfo {
    type V = InfoView;

    open spec fn view(&self) -> InfoView {
        InfoView { sender: self.sender@, funds: coins_view(self.funds@) }
    }
}

/// Text that names an account, together with what the host's address validation
/// says of it: the validated address, or the reason why there is none.
#[derive(Debug, PartialEq)]
pub struct AddrText {
    pub text: String,
    pub verdict: Result<String, String>,
}

/// An account name as specifications see it.
pub struct AddrView {
    pub text: Seq<char>,
    pub verdict: Result<Seq<char>, Seq<char>>,
}

impl View for AddrText {
    type V = AddrView;

    open spec fn view(&self) -> AddrView {
        AddrView {
            text: self.text@,
            verdict: match self.verdict {
                Ok(address) => Ok(address@),
                Err(reason) => Err(reason@),
            },
        }
    }
}

/// Optional account names as specifications see them.
pub open spec fn addr_option_view(name: Option<AddrText>) -> Option<AddrView> {
    match name {
        Some(a) => Some(a@),
        None => None,
    }
}

/// Account names as specifications see them.
pub open spec fn addrs_view(names: Seq<AddrText>) -> Seq<AddrView> {
    Seq::new(names.len(), |i: int| names[i]@)
}

/// Optional text as specifications see it.
pub open spec fn text_view(text: Option<String>) -> Option<Seq<char>> {
    match text {
        Some(t) => Some(t@),
        None => None,
    }
}

} // verus!
