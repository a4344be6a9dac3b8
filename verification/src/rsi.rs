//! The relative-strength-index evaluator. It keeps a rolling window of close
//! prices and signals Buy when the RSI over the window falls to the buy
//! threshold, Sell when it rises to the sell threshold.
//!
//! Prices are scaled integers, so the RSI comparison is done exactly in
//! integer arithmetic: with `g` the summed gains and `l` the summed losses
//! over the window, RSI = 100 * g / (g + l), and RSI <= t/100 exactly when
//! 10000 * g <= t * (g + l). Thresholds are therefore carried in hundredths
//! of an RSI point (a threshold of 30 RSI points is 3000).
use vstd::prelude::*;

use crate::market::Data;
use crate::market::KlineInterval;
use crate::market::Signal;
use crate::strategy::Strategy;

verus! {

/// Thresholds are hundredths of an RSI point; the RSI lives in [0, 100], so
/// a meaningful threshold never exceeds this.
pub const THRESHOLD_LIMIT: u64 = 10_000;

/// The most candles a window may be asked to keep: a bound that keeps the
/// window allocatable and every intermediate sum far below the integer
/// limits.
pub const PERIOD_LIMIT: u64 = 0x1_0000_0000;

/// The summed upward moves between consecutive prices.
pub open spec fn gain_sum(p: Seq<u64>) -> int
    decreases p.len(),
{
    if p.len() <= 1 {
        0
    } else {
        gain_sum(p.drop_last()) + if p[p.len() - 1] >= p[p.len() - 2] {
            p[p.len() - 1] - p[p.len() - 2]
        } else {
            0
        }
    }
}

/// The summed downward moves between consecutive prices.
pub open spec fn loss_sum(p: Seq<u64>) -> int
    decreases p.len(),
{
    if p.len() <= 1 {
        0
    } else {
        loss_sum(p.drop_last()) + if p[p.len() - 1] < p[p.len() - 2] {
            p[p.len() - 2] - p[p.len() - 1]
        } else {
            0
        }
    }
}

/// The signal the RSI rule gives for a full window: Buy when the RSI is at
/// or below the buy threshold, else Sell when at or above the sell
/// threshold, else Nothing. A window with no movement at all has no defined
/// RSI and gives Nothing.
pub open spec fn rsi_decision(p: Seq<u64>, buy_threshold: u64, sell_threshold: u64) -> Signal {
    let g = gain_sum(p);
    let l = loss_sum(p);
    if g + l > 0 && 10000 * g <= buy_threshold * (g + l) {
        Signal::Buy
    } else if g + l > 0 && 10000 * g >= sell_threshold * (g + l) {
        Signal::Sell
    } else {
        Signal::Nothing
    }
}

/// The rolling window after one close price is absorbed: the price joins
/// the window, and once the window holds more than twice the period only
/// the freshest `2 * period` prices are kept.
pub open spec fn window_after(pre: Seq<u64>, period: u64, close: u64) -> Seq<u64> {
    let pushed = pre.push(close);
    if pushed.len() > 2 * period {
        pushed.subrange(pushed.len() - 2 * period, pushed.len() as int)
    } else {
        pushed
    }
}

/// A relative-strength-index strategy instance: its rolling window of close
/// prices and its configured parameters.
#[derive(Debug)]
pub struct RelativeStrengthIndex {
    pub close_prices: Vec<u64>,
    pub period: u64,
    pub buy_threshold: u64,
    pub sell_threshold: u64,
    pub interval: KlineInterval,
}

impl RelativeStrengthIndex {
    pub fn new(
        period: u64,
        interval: KlineInterval,
        buy_threshold: u64,
        sell_threshold: u64,
    ) -> (r: RelativeStrengthIndex)
        requires
            1 <= period <= PERIOD_LIMIT,
            buy_threshold <= THRESHOLD_LIMIT,
            sell_threshold <= THRESHOLD_LIMIT,
        ensures
            r.period == period,
            r.buy_threshold == buy_threshold,
            r.sell_threshold == sell_threshold,
            r.interval == interval,
            r.close_prices@ == Seq::<u64>::empty(),
            r.wf(),
    {
        RelativeStrengthIndex {
            close_prices: Vec::new(),
            period,
            interval,
            buy_threshold,
            sell_threshold,
        }
    }
}

impl Default for RelativeStrengthIndex {
    /// The conventional parameters: a 14-candle window, buy at RSI 30, sell
    /// at RSI 70, on daily candles.
    fn default() -> (r: Self)
        ensures
            r.period == 14,
            r.buy_threshold == 3000,
            r.sell_threshold == 7000,
            r.interval == KlineInterval::Day1,
            r.close_prices@ == Seq::<u64>::empty(),
            r.wf(),
    {
        RelativeStrengthIndex {
            close_prices: Vec::new(),
            period: 14,
            buy_threshold: 3000,
            sell_threshold: 7000,
            interval: KlineInterval::Day1,
        }
    }
}

impl Strategy for RelativeStrengthIndex {
    open spec fn wf(&self) -> bool {
        &&& 1 <= self.period <= PERIOD_LIMIT
        &&& self.buy_threshold <= THRESHOLD_LIMIT
        &&& self.sell_threshold <= THRESHOLD_LIMIT
        &&& self.close_prices@.len() <= 2 * self.period
    }

    open spec fn spec_interval(&self) -> KlineInterval {
        self.interval
    }

    open spec fn spec_signal(&self, data: Data) -> Signal {
        match data {
            Data::BookTicker(_) => Signal::Nothing,
            Data::Kline(k) => {
                let pushed = self.close_prices@.push(k.kline.close);
                if pushed.len() < self.period + 1 {
                    Signal::Nothing
                } else {
                    rsi_decision(pushed, self.buy_threshold, self.sell_threshold)
                }
            },
        }
    }

    open spec fn spec_step(&self, data: Data, post: &Self) -> bool {
        &&& post.period == self.period
        &&& post.buy_threshold == self.buy_threshold
        &&& post.sell_threshold == self.sell_threshold
        &&& post.interval == self.interval
        &&& match data {
            Data::BookTicker(_) => post.close_prices@ == self.close_prices@,
            Data::Kline(k) => post.close_prices@ == window_after(
                self.close_prices@,
                self.period,
                k.kline.close,
            ),
        }
    }

    #[verifier::loop_isolation(false)]
    fn signal(&mut self, data: &Data) -> (s: Signal) {
        let k = match data {
            Data::Kline(k) => k,
            Data::BookTicker(_) => {
                return Signal::Nothing;
            },
        };
        self.close_prices.push(k.kline.close);
        let n = self.close_prices.len();
        if (n as u64) < self.period + 1 {
            assert(self.close_prices@.len() <= 2 * self.period);
            return Signal::Nothing;
        }

        let mut gains: u128 = 0;
        let mut losses: u128 = 0;
        let mut i: usize = 1;
        while i < n
            invariant
                1 <= i <= n,
                gains == gain_sum(self.close_prices@.subrange(0, i as int)),
                losses == loss_sum(self.close_prices@.subrange(0, i as int)),
                gains <= (i - 1) * (u64::MAX as int),
                losses <= (i - 1) * (u64::MAX as int),
            decreases n - i,
        {
            let prev = self.close_prices[i - 1];
            let cur = self.close_prices[i];
            proof {
                assert(self.close_prices@.subrange(0, i + 1 as int).drop_last() =~= self
                    .close_prices@.subrange(0, i as int));
                assert((i as int) * (u64::MAX as int) == (i - 1) * (u64::MAX as int) + u64::MAX);
            }
            if cur >= prev {
                gains = gains + ((cur - prev) as u128);
            } else {
                losses = losses + ((prev - cur) as u128);
            }
            i = i + 1;
        }
        proof {
            assert(self.close_prices@.subrange(0, n as int) =~= self.close_prices@);
        }

        // keep only the freshest 2 * period prices
        if (n as u64) > 2 * self.period {
            let at = n - (2 * self.period) as usize;
            let tail = self.close_prices.split_off(at);
            self.close_prices = tail;
        }

        let denom = gains + losses;
        if denom == 0 {
            return Signal::Nothing;
        }
        proof {
            assert(denom <= 2 * ((n - 1) * (u64::MAX as int)));
            assert((self.buy_threshold as int) * (denom as int) <= 10_000 * (denom as int))
                by (nonlinear_arith)
                requires
                    self.buy_threshold <= 10_000,
                    denom >= 0,
            ;
            assert((self.sell_threshold as int) * (denom as int) <= 10_000 * (denom as int))
                by (nonlinear_arith)
                requires
                    self.sell_threshold <= 10_000,
                    denom >= 0,
            ;
        }
        if 10_000u128 * gains <= (self.buy_threshold as u128) * denom {
            Signal::Buy
        } else if 10_000u128 * gains >= (self.sell_threshold as u128) * denom {
            Signal::Sell
        } else {
            Signal::Nothing
        }
    }
}

} // verus!
