//! What a handled message asks of the chain: events to record and coins to send.

use crate::money::{amount_of, coins_view, Coin, CoinView};
use vstd::prelude::*;

verus! {

/// A named detail of an event.
#[derive(Debug, PartialEq)]
pub struct Attribute<S = String> {
    pub key: S,
    pub value: S,
}

/// A detail as specifications see it.
pub type AttributeView = Attribute<Seq<char>>;

impl View for Attribute<String> {
    type V = Attribute<Seq<char>>;

    open spec fn view(&self) -> Attribute<Seq<char>> {
        Attribute { key: self.key@, value: self.value@ }
    }
}

/// Details as specifications see them.
pub open spec fn attributes_view(attributes: Seq<Attribute>) -> Seq<AttributeView> {
    Seq::new(attributes.len(), |i: int| attributes[i]@)
}

/// Something that happened, for the chain's record.
#[derive(Debug, PartialEq)]
pub struct Event {
    pub ty: String,
    pub attributes: Vec<Attribute>,
}

/// An event as specifications see it.
#[verifier::ext_equal]
pub struct EventView {
    pub ty: Seq<char>,
    pub attributes: Seq<AttributeView>,
}

impl View for Event {
    type V = EventView;

    open spec fn view(&self) -> EventView {
        EventView { ty: self.ty@, attributes: attributes_view(self.attributes@) }
    }
}

impl EventView {
    /// An event without details.
    pub open spec fn named(ty: Seq<char>) -> EventView {
        EventView { ty, attributes: Seq::empty() }
    }

    /// The event with one more detail.
    pub open spec fn attr(self, key: Seq<char>, value: Seq<char>) -> EventView {
        EventView { attributes: self.attributes.push(Attribute { key, value }), ..self }
    }
}

/// Adds a detail to a list of details.
pub fn add_attribute(attributes: &mut Vec<Attribute>, key: &str, value: String)
    ensures
        attributes_view(final(attributes)@) == attributes_view(old(attributes)@).push(
            Attribute { key: key@, value: value@ },
        ),
{
    attributes.push(Attribute { key: key.to_owned(), value });
    assert(attributes_view(attributes@) =~= attributes_view(old(attributes)@).push(
        Attribute { key: key@, value: value@ },
    ));
}

impl Event {
    /// An event without details.
    pub fn new(ty: &str) -> (event: Event)
        ensures
            event@ == EventView::named(ty@),
    {
        let event = Event { ty: ty.to_owned(), attributes: Vec::new() };
        assert(event@ =~= EventView::named(ty@));
        event
    }

    /// The event with one more detail.
    pub fn attr(self, key: &str, value: String) -> (event: Event)
        ensures
            event@ == self@.attr(key@, value@),
    {
        let mut attributes = self.attributes;
        add_attribute(&mut attributes, key, value);
        Event { ty: self.ty, attributes }
    }
}

/// An order to the chain's bank to send coins of the contract.
#[derive(Debug, PartialEq)]
pub struct BankSend {
    pub to_address: String,
    pub amount: Vec<Coin>,
}

/// An order to send coins as specifications see it.
pub struct SendView {
    pub to_address: Seq<char>,
    pub amount: Seq<CoinView>,
}

impl View for BankSend {
    type V = SendView;

    open spec fn view(&self) -> SendView {
        SendView { to_address: self.to_address@, amount: coins_view(self.amount@) }
    }
}

/// The reply to a handled message.
#[derive(Debug, PartialEq)]
pub struct Response {
    pub messages: Vec<BankSend>,
    pub events: Vec<Event>,
}

/// A reply as specifications see it.
#[verifier::ext_equal]
pub struct ResponseView {
    pub messages: Seq<SendView>,
    pub events: Seq<EventView>,
}

impl View for Response {
    type V = ResponseView;

    open spec fn view(&self) -> ResponseView {
        ResponseView {
            messages: Seq::new(self.messages@.len(), |i: int| self.messages@[i]@),
            events: Seq::new(self.events@.len(), |i: int| self.events@[i]@),
        }
    }
}

impl ResponseView {
    /// A reply that records an event and sends nothing.
    pub open spec fn recording(event: EventView) -> ResponseView {
        ResponseView { messages: Seq::empty(), events: seq![event] }
    }

    /// A reply that records an event and sends one coin.
    pub open spec fn paying(to: Seq<char>, coin: CoinView, event: EventView) -> ResponseView {
        ResponseView {
            messages: seq![SendView { to_address: to, amount: seq![coin] }],
            events: seq![event],
        }
    }

    /// What the reply sends of a denomination.
    pub open spec fn sent(self, denom: Seq<char>) -> nat {
        sent_by(self.messages, denom)
    }
}

/// What orders to the bank send of a denomination.
pub open spec fn sent_by(messages: Seq<SendView>, denom: Seq<char>) -> nat
    decreases messages.len(),
{
    if messages.len() == 0 {
        0
    } else {
        sent_by(messages.drop_last(), denom) + amount_of(messages.last().amount, denom)
    }
}

impl Response {
    /// A reply that records an event and sends nothing.
    pub fn recording(event: Event) -> (response: Response)
        ensures
            response@ == ResponseView::recording(event@),
    {
        let response = Response { messages: Vec::new(), events: vec![event] };
        assert(response@ =~= ResponseView::recording(event@));
        response
    }

    /// A reply that records an event and sends one coin.
    pub fn paying(to_address: String, coin: Coin, event: Event) -> (response: Response)
        ensures
            response@ == ResponseView::paying(to_address@, coin@, event@),
    {
        let amount: Vec<Coin> = vec![coin];
        assert(coins_view(amount@) =~= seq![coin@]);
        let send = BankSend { to_address, amount };
        assert(send@ == (SendView { to_address: to_address@, amount: seq![coin@] }));
        let response = Response { messages: vec![send], events: vec![event] };
        assert(response@ =~= ResponseView::paying(to_address@, coin@, event@));
        response
    }
}

} // verus!
