//! The strategy contract and the closed set of strategy kinds this engine
//! evaluates. A strategy declares the candle granularity it consumes,
//! absorbs one market event at a time into its private rolling state, and
//! answers with one signal.
use vstd::prelude::*;

use crate::atr::AverageTrueRange;
use crate::market::Category;
use crate::market::Data;
use crate::market::DataCategory;
use crate::market::KlineInterval;
use crate::market::Signal;
use crate::rsi::RelativeStrengthIndex;

verus! {

/// The narrow contract the engine asks of an evaluator: a well-formedness
/// invariant, the candle granularity it subscribes to, and a one-event
/// evaluation whose signal and state evolution are pinned down by the
/// implementor's spec functions.
pub trait Strategy: Sized {
    /// The evaluator's internal invariant, kept across evaluations.
    spec fn wf(&self) -> bool;

    /// The candle granularity this evaluator consumes.
    spec fn spec_interval(&self) -> KlineInterval;

    /// The signal the evaluator answers with for `data` in its current
    /// state.
    spec fn spec_signal(&self, data: Data) -> Signal;

    /// How the evaluator's state after consuming `data` relates to the
    /// state before.
    spec fn spec_step(&self, data: Data, post: &Self) -> bool;

    fn signal(&mut self, data: &Data) -> (s: Signal)
        requires
            old(self).wf(),
        ensures
            final(self).wf(),
            s == old(self).spec_signal(*data),
            old(self).spec_step(*data, final(self)),
            final(self).spec_interval() == old(self).spec_interval(),
    ;
}

/// The closed set of strategy kinds.
#[derive(Debug)]
pub enum Strategies {
    RelativeStrengthIndex(RelativeStrengthIndex),
    AverageTrueRange(AverageTrueRange),
}

impl Strategy for Strategies {
    open spec fn wf(&self) -> bool {
        match self {
            Strategies::RelativeStrengthIndex(r) => r.wf(),
            Strategies::AverageTrueRange(a) => a.wf(),
        }
    }

    open spec fn spec_interval(&self) -> KlineInterval {
        match self {
            Strategies::RelativeStrengthIndex(r) => r.spec_interval(),
            Strategies::AverageTrueRange(a) => a.spec_interval(),
        }
    }

    open spec fn spec_signal(&self, data: Data) -> Signal {
        match self {
            Strategies::RelativeStrengthIndex(r) => r.spec_signal(data),
            Strategies::AverageTrueRange(a) => a.spec_signal(data),
        }
    }

    open spec fn spec_step(&self, data: Data, post: &Self) -> bool {
        match self {
            Strategies::RelativeStrengthIndex(r) => post matches Strategies::RelativeStrengthIndex(
                rp,
            ) && r.spec_step(data, rp),
            Strategies::AverageTrueRange(a) => post matches Strategies::AverageTrueRange(ap)
                && a.spec_step(data, ap),
        }
    }

    fn signal(&mut self, data: &Data) -> (s: Signal) {
        match self {
            Strategies::RelativeStrengthIndex(r) => r.signal(data),
            Strategies::AverageTrueRange(a) => a.signal(data),
        }
    }
}

/// Whether a built evaluator is the fresh evaluator a configuration entry
/// asks for: same kind, same parameters, an empty window.
pub open spec fn strategy_matches(s: Strategies, c: crate::config::Strategy) -> bool {
    match c {
        crate::config::Strategy::Rsi { interval, period, buy_threshold, sell_threshold, .. } => {
            &&& s matches Strategies::RelativeStrengthIndex(r)
            &&& r.period == period
            &&& r.buy_threshold == buy_threshold
            &&& r.sell_threshold == sell_threshold
            &&& r.interval == interval
            &&& r.close_prices@.len() == 0
        },
        crate::config::Strategy::Atr { interval, period, .. } => {
            &&& s matches Strategies::AverageTrueRange(a)
            &&& a.period == period
            &&& a.interval == interval
            &&& a.hlc_prices@.len() == 0
        },
    }
}

impl DataCategory for Strategies {
    open spec fn spec_data_category(&self) -> Category {
        Category::Kline(self.spec_interval())
    }

    fn data_category(&self) -> (r: Category) {
        match self {
            Strategies::RelativeStrengthIndex(r) => Category::Kline(r.interval),
            Strategies::AverageTrueRange(a) => Category::Kline(a.interval),
        }
    }
}

} // verus!
