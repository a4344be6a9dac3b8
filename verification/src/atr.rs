//! The average-true-range evaluator. It keeps a rolling window of
//! (high, low, close) triples per candle. Its trading rule is not defined:
//! it maintains the window and signals Nothing on every event.
use vstd::prelude::*;

use crate::market::Data;
use crate::market::KlineInterval;
use crate::market::Signal;
use crate::rsi::PERIOD_LIMIT;
use crate::strategy::Strategy;

verus! {

/// The rolling window after one (high, low, close) triple is absorbed: the
/// triple joins the window, and once the window holds more than twice the
/// period only the freshest `2 * period` triples are kept.
pub open spec fn hlc_window_after(
    pre: Seq<(u64, u64, u64)>,
    period: u64,
    hlc: (u64, u64, u64),
) -> Seq<(u64, u64, u64)> {
    let pushed = pre.push(hlc);
    if pushed.len() > 2 * period {
        pushed.subrange(pushed.len() - 2 * period, pushed.len() as int)
    } else {
        pushed
    }
}

/// An average-true-range strategy instance: its rolling window of
/// (high, low, close) triples and its configured period.
#[derive(Debug)]
pub struct AverageTrueRange {
    pub period: u64,
    pub hlc_prices: Vec<(u64, u64, u64)>,
    pub interval: KlineInterval,
}

impl AverageTrueRange {
    pub fn new(period: u64, interval: KlineInterval) -> (r: AverageTrueRange)
        requires
            1 <= period <= PERIOD_LIMIT,
        ensures
            r.period == period,
            r.interval == interval,
            r.hlc_prices@ == Seq::<(u64, u64, u64)>::empty(),
            r.wf(),
    {
        AverageTrueRange { period, hlc_prices: Vec::new(), interval }
    }

    /// The conventional parameters: a 14-candle window on daily candles.
    pub fn new_with_init_data() -> (r: AverageTrueRange)
        ensures
            r.period == 14,
            r.interval == KlineInterval::Day1,
            r.hlc_prices@ == Seq::<(u64, u64, u64)>::empty(),
            r.wf(),
    {
        AverageTrueRange { period: 14, hlc_prices: Vec::new(), interval: KlineInterval::Day1 }
    }
}

impl Strategy for AverageTrueRange {
    open spec fn wf(&self) -> bool {
        &&& 1 <= self.period <= PERIOD_LIMIT
        &&& self.hlc_prices@.len() <= 2 * self.period
    }

    open spec fn spec_interval(&self) -> KlineInterval {
        self.interval
    }

    open spec fn spec_signal(&self, data: Data) -> Signal {
        Signal::Nothing
    }

    open spec fn spec_step(&self, data: Data, post: &Self) -> bool {
        &&& post.period == self.period
        &&& post.interval == self.interval
        &&& match data {
            Data::BookTicker(_) => post.hlc_prices@ == self.hlc_prices@,
            Data::Kline(k) => post.hlc_prices@ == hlc_window_after(
                self.hlc_prices@,
                self.period,
                (k.kline.high, k.kline.low, k.kline.close),
            ),
        }
    }

    fn signal(&mut self, data: &Data) -> (s: Signal) {
        let k = match data {
            Data::Kline(k) => k,
            Data::BookTicker(_) => {
                return Signal::Nothing;
            },
        };
        self.hlc_prices.push((k.kline.high, k.kline.low, k.kline.close));
        let n = self.hlc_prices.len();
        // keep only the freshest 2 * period triples
        if (n as u64) > 2 * self.period {
            let at = n - (2 * self.period) as usize;
            let tail = self.hlc_prices.split_off(at);
            self.hlc_prices = tail;
        }
        Signal::Nothing
    }
}

} // verus!
