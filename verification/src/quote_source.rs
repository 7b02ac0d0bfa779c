//! A source of quotes that are set by hand.
use vstd::prelude::*;
use crate::strmap;
use crate::strmap::StrMap;
use crate::types::{InstrumentId, Quote, now_ms};

verus! {

/// The quotes that are known of the instruments, in their order.
pub open spec fn known_quotes(s: Seq<(String, Quote)>, instruments: Seq<InstrumentId>) -> Seq<Quote>
    decreases instruments.len(),
{
    if instruments.len() == 0 {
        Seq::empty()
    } else {
        let rest = known_quotes(s, instruments.drop_last());
        match strmap::lookup(s, instruments.last()@) {
            Some(q) => rest.push(q),
            None => rest,
        }
    }
}

/// What a source of quotes holds.
pub struct SourceView {
    /// The quotes in the order in which they were first set.
    pub quotes: Seq<(String, Quote)>,
    pub time: i64,
}

/// Quotes that are set by hand.
#[derive(Debug)]
pub struct MockQuoteSource {
    quotes: StrMap<Quote>,
    time_ms: i64,
}

impl MockQuoteSource {
    /// What the source holds.
    pub closed spec fn view(&self) -> SourceView {
        SourceView { quotes: self.quotes.list(), time: self.time_ms }
    }

    /// No quotes.
    pub fn new() -> (r: MockQuoteSource)
        ensures
            r@.quotes == Seq::<(String, Quote)>::empty(),
    {
        MockQuoteSource { quotes: StrMap::new(), time_ms: now_ms() }
    }

    /// Sets the quote of an instrument.
    pub fn set_quote(&mut self, quote: Quote)
        ensures
            final(self)@ == (SourceView {
                quotes: strmap::put(old(self)@.quotes, quote.instrument.0, quote),
                ..old(self)@
            }),
    {
        self.quotes.insert(quote.instrument.0.clone(), quote);
    }

    /// Forgets all quotes.
    pub fn clear(&mut self)
        ensures
            final(self)@ == (SourceView { quotes: Seq::empty(), ..old(self)@ }),
    {
        self.quotes.clear();
    }

    /// The quotes that are known of the instruments.
    pub fn poll_quotes(&self, instruments: &Vec<InstrumentId>) -> (r: Vec<Quote>)
        ensures
            r@ == known_quotes(self@.quotes, instruments@),
    {
        let mut out: Vec<Quote> = Vec::new();
        let mut i: usize = 0;
        assert(instruments@.subrange(0, 0) =~= Seq::empty());
        while i < instruments.len()
            invariant
                i <= instruments@.len(),
                out@ == known_quotes(self@.quotes, instruments@.subrange(0, i as int)),
            decreases instruments@.len() - i,
        {
            assert(instruments@.subrange(0, i + 1).drop_last() =~= instruments@.subrange(
                0,
                i as int,
            ));
            if let Some(q) = self.quotes.get(instruments[i].as_str()) {
                out.push(q.clone());
            }
            i = i + 1;
        }
        assert(instruments@.subrange(0, instruments@.len() as int) =~= instruments@);
        out
    }

    /// The last quote of an instrument.
    pub fn last_quote(&self, instrument: &InstrumentId) -> (r: Option<Quote>)
        ensures
            r == strmap::lookup(self@.quotes, instrument@),
    {
        match self.quotes.get(instrument.as_str()) {
            Some(q) => Some(q.clone()),
            None => None,
        }
    }

    /// Sets the time.
    pub fn set_time(&mut self, time_ms: i64)
        ensures
            final(self)@ == (SourceView { time: time_ms, ..old(self)@ }),
    {
        self.time_ms = time_ms;
    }

    /// The time.
    pub fn current_time_ms(&self) -> (r: i64)
        ensures
            r == self@.time,
    {
        self.time_ms
    }
}

impl Default for MockQuoteSource {
    fn default() -> (r: MockQuoteSource)
        ensures
            r@.quotes == Seq::<(String, Quote)>::empty(),
    {
        MockQuoteSource::new()
    }
}

} // verus!
