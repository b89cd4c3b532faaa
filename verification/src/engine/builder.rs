//! Typestate builder for [`OrderMatchingEngine`]: `build` is only available once every
//! component has been supplied.

use vstd::prelude::*;
use crate::book::PriceBook;
use crate::events::{Event, EventSink};
use crate::matching::MatchingPolicy;
use crate::self_trade::SelfTradePolicy;
use crate::sequence::SequenceGenerator;
use crate::store::OrderStore;
use super::OrderMatchingEngine;

verus! {

/// Marker: this component has not been supplied yet.
#[derive(Debug, Clone, Copy, Default)]
pub struct Missing;

/// Marker: this component has been supplied.
#[derive(Debug, Clone)]
pub struct Present<T>(pub T);

/// Builder for [`OrderMatchingEngine`]; each type parameter is [`Missing`] or [`Present`].
#[derive(Debug, Clone)]
pub struct EngineBuilder<SG, PB, OS, MP, STP, ES> {
    sequence_generator: SG,
    price_book: PB,
    order_store: OS,
    matching_policy: MP,
    self_trade_policy: STP,
    event_sink: ES,
}

impl<SG, PB, OS, MP, STP, ES> EngineBuilder<SG, PB, OS, MP, STP, ES> {
    /// The components held so far, in constructor order.
    pub closed spec fn parts(&self) -> (SG, PB, OS, MP, STP, ES) {
        (self.sequence_generator, self.price_book, self.order_store, self.matching_policy, self.self_trade_policy, self.event_sink)
    }

    /// Supplies the sequence generator.
    pub fn with_sequence_generator<NSG>(self, sequence_generator: NSG) -> (r: EngineBuilder<Present<NSG>, PB, OS, MP, STP, ES>)
        ensures
            r.parts().0 == Present(sequence_generator),
            r.parts().1 == self.parts().1 && r.parts().2 == self.parts().2 && r.parts().3 == self.parts().3 && r.parts().4 == self.parts().4 && r.parts().5 == self.parts().5,
    {
        EngineBuilder {
            sequence_generator: Present(sequence_generator),
            price_book: self.price_book,
            order_store: self.order_store,
            matching_policy: self.matching_policy,
            self_trade_policy: self.self_trade_policy,
            event_sink: self.event_sink,
        }
    }

    /// Supplies the price book.
    pub fn with_price_book<NPB>(self, price_book: NPB) -> (r: EngineBuilder<SG, Present<NPB>, OS, MP, STP, ES>)
        ensures
            r.parts().1 == Present(price_book),
            r.parts().0 == self.parts().0 && r.parts().2 == self.parts().2 && r.parts().3 == self.parts().3 && r.parts().4 == self.parts().4 && r.parts().5 == self.parts().5,
    {
        EngineBuilder {
            sequence_generator: self.sequence_generator,
            price_book: Present(price_book),
            order_store: self.order_store,
            matching_policy: self.matching_policy,
            self_trade_policy: self.self_trade_policy,
            event_sink: self.event_sink,
        }
    }

    /// Supplies the order store.
    pub fn with_order_store<NOS>(self, order_store: NOS) -> (r: EngineBuilder<SG, PB, Present<NOS>, MP, STP, ES>)
        ensures
            r.parts().2 == Present(order_store),
            r.parts().0 == self.parts().0 && r.parts().1 == self.parts().1 && r.parts().3 == self.parts().3 && r.parts().4 == self.parts().4 && r.parts().5 == self.parts().5,
    {
        EngineBuilder {
            sequence_generator: self.sequence_generator,
            price_book: self.price_book,
            order_store: Present(order_store),
            matching_policy: self.matching_policy,
            self_trade_policy: self.self_trade_policy,
            event_sink: self.event_sink,
        }
    }

    /// Supplies the matching policy.
    pub fn with_matching_policy<NMP>(self, matching_policy: NMP) -> (r: EngineBuilder<SG, PB, OS, Present<NMP>, STP, ES>)
        ensures
            r.parts().3 == Present(matching_policy),
            r.parts().0 == self.parts().0 && r.parts().1 == self.parts().1 && r.parts().2 == self.parts().2 && r.parts().4 == self.parts().4 && r.parts().5 == self.parts().5,
    {
        EngineBuilder {
            sequence_generator: self.sequence_generator,
            price_book: self.price_book,
            order_store: self.order_store,
            matching_policy: Present(matching_policy),
            self_trade_policy: self.self_trade_policy,
            event_sink: self.event_sink,
        }
    }

    /// Supplies the self-trade policy.
    pub fn with_self_trade_policy<NSTP>(self, self_trade_policy: NSTP) -> (r: EngineBuilder<SG, PB, OS, MP, Present<NSTP>, ES>)
        ensures
            r.parts().4 == Present(self_trade_policy),
            r.parts().0 == self.parts().0 && r.parts().1 == self.parts().1 && r.parts().2 == self.parts().2 && r.parts().3 == self.parts().3 && r.parts().5 == self.parts().5,
    {
        EngineBuilder {
            sequence_generator: self.sequence_generator,
            price_book: self.price_book,
            order_store: self.order_store,
            matching_policy: self.matching_policy,
            self_trade_policy: Present(self_trade_policy),
            event_sink: self.event_sink,
        }
    }

    /// Supplies the event sink.
    pub fn with_event_sink<NES>(self, event_sink: NES) -> (r: EngineBuilder<SG, PB, OS, MP, STP, Present<NES>>)
        ensures
            r.parts().5 == Present(event_sink),
            r.parts().0 == self.parts().0 && r.parts().1 == self.parts().1 && r.parts().2 == self.parts().2 && r.parts().3 == self.parts().3 && r.parts().4 == self.parts().4,
    {
        EngineBuilder {
            sequence_generator: self.sequence_generator,
            price_book: self.price_book,
            order_store: self.order_store,
            matching_policy: self.matching_policy,
            self_trade_policy: self.self_trade_policy,
            event_sink: Present(event_sink),
        }
    }
}

impl EngineBuilder<Missing, Missing, Missing, Missing, Missing, Missing> {
    /// A builder with no component supplied.
    pub fn new() -> (r: Self)
        ensures
            r.parts() == (Missing, Missing, Missing, Missing, Missing, Missing),
    {
        Self {
            sequence_generator: Missing,
            price_book: Missing,
            order_store: Missing,
            matching_policy: Missing,
            self_trade_policy: Missing,
            event_sink: Missing,
        }
    }
}

impl Default for EngineBuilder<Missing, Missing, Missing, Missing, Missing, Missing> {
    fn default() -> (r: Self)
        ensures
            r.parts() == (Missing, Missing, Missing, Missing, Missing, Missing),
    {
        Self::new()
    }
}

/// Starts a builder with no component supplied.
pub fn builder() -> (r: EngineBuilder<Missing, Missing, Missing, Missing, Missing, Missing>)
    ensures
        r.parts() == (Missing, Missing, Missing, Missing, Missing, Missing),
{
    EngineBuilder::new()
}

impl<SG, PB, OS, MP, STP, ES> EngineBuilder<
    Present<SG>,
    Present<PB>,
    Present<OS>,
    Present<MP>,
    Present<STP>,
    Present<ES>,
> where
    SG: SequenceGenerator,
    PB: PriceBook,
    OS: OrderStore,
    MP: MatchingPolicy,
    STP: SelfTradePolicy,
    ES: EventSink,
 {
    /// Builds the engine once all components are provided.
    pub fn build(self) -> (r: OrderMatchingEngine<SG, PB, OS, MP, STP, ES>)
        ensures
            r.sequencer() == self.parts().0.0,
            r.book() == self.parts().1.0,
            r.store() == self.parts().2.0,
            r.matching() == self.parts().3.0,
            r.self_trade() == self.parts().4.0,
            r.sink() == self.parts().5.0,
            r.events() == Seq::<Event>::empty(),
    {
        OrderMatchingEngine::new(
            self.sequence_generator.0,
            self.price_book.0,
            self.order_store.0,
            self.matching_policy.0,
            self.self_trade_policy.0,
            self.event_sink.0,
        )
    }
}

} // verus!
