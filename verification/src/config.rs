//! The engine's declarative configuration: capital, instruments, and the
//! strategies each instrument runs, with the startup validation that every
//! later component relies on.
//!
//! Monetary amounts and thresholds are scaled integers (see the crate's
//! price model); the I/O shell converts the configuration file's numbers
//! when it loads the file.
use vstd::prelude::*;

use crate::market::KlineInterval;
use crate::rsi::PERIOD_LIMIT;
use crate::rsi::THRESHOLD_LIMIT;
use vstd::string::StrSliceExecFns;

verus! {

/// How an instance combines its strategies' signals. Only the
/// any-Buy-triggers rule is defined.
#[derive(Clone, Copy, Debug, PartialEq, Eq, Structural)]
pub enum StrategyMode {
    Or,
}

impl Default for StrategyMode {
    fn default() -> (r: Self)
        ensures
            r == StrategyMode::Or,
    {
        StrategyMode::Or
    }
}

/// The tag a configuration entry names its strategy kind with.
#[derive(Clone, Copy, Debug, PartialEq, Eq, Structural)]
pub enum StrategyType {
    RSI,
    ATR,
}

/// One configured strategy.
#[derive(Debug)]
pub enum Strategy {
    Rsi {
        strategy_type: StrategyType,
        interval: KlineInterval,
        period: u64,
        buy_threshold: u64,
        sell_threshold: u64,
        id: String,
    },
    Atr { strategy_type: StrategyType, interval: KlineInterval, period: u64, threshold: u64, id: String },
}

impl Strategy {
    /// The candle granularity the strategy subscribes to.
    pub open spec fn spec_interval(&self) -> KlineInterval {
        match self {
            Strategy::Rsi { interval, .. } => *interval,
            Strategy::Atr { interval, .. } => *interval,
        }
    }

    /// Whether the strategy's numeric parameters are in range: the window
    /// period is positive and allocatable, and RSI thresholds stay within
    /// the RSI's range.
    pub open spec fn spec_params_valid(&self) -> bool {
        match self {
            Strategy::Rsi { period, buy_threshold, sell_threshold, .. } => {
                &&& 1 <= *period <= PERIOD_LIMIT
                &&& *buy_threshold <= THRESHOLD_LIMIT
                &&& *sell_threshold <= THRESHOLD_LIMIT
            },
            Strategy::Atr { period, .. } => 1 <= *period <= PERIOD_LIMIT,
        }
    }

    /// The strategy's opaque identifier.
    pub open spec fn spec_id(&self) -> Seq<char> {
        match self {
            Strategy::Rsi { id, .. } => id@,
            Strategy::Atr { id, .. } => id@,
        }
    }
}

/// One configured instrument: its symbol, combination mode, capital share
/// and strategy set.
#[derive(Debug)]
pub struct Instance {
    pub symbol: String,
    pub mode: StrategyMode,
    pub strategies: Vec<Strategy>,
    pub stop_loss: u64,
    pub principal: u64,
    pub id: String,
}

/// The whole configuration: total capital and the configured instruments.
#[derive(Debug)]
pub struct Config {
    pub principal: u64,
    pub instances: Vec<Instance>,
}

/// An instrument symbol as the engine requires it: nonempty, and already
/// normalized to uppercase ASCII letters and digits.
pub open spec fn valid_symbol(s: Seq<char>) -> bool {
    &&& s.len() >= 1
    &&& forall|i: int|
        0 <= i < s.len() ==> ('A' <= #[trigger] s[i] <= 'Z' || '0' <= s[i] <= '9')
}

/// Checks one symbol. The gateway shell normalizes case before the
/// configuration reaches the engine; anything not uppercase ASCII
/// alphanumeric is rejected here.
pub fn check_symbol(s: &String) -> (r: bool)
    ensures
        r == valid_symbol(s@),
{
    let n = s.as_str().unicode_len();
    if n == 0 {
        return false;
    }
    let mut i: usize = 0;
    while i < n
        invariant
            i <= n,
            n == s@.len(),
            forall|j: int| 0 <= j < i ==> ('A' <= #[trigger] s@[j] <= 'Z' || '0' <= s@[j] <= '9'),
        decreases n - i,
    {
        let c = s.as_str().get_char(i);
        if !(('A' <= c && c <= 'Z') || ('0' <= c && c <= '9')) {
            return false;
        }
        i = i + 1;
    }
    true
}

/// What startup validation can reject a configuration for.
#[derive(Clone, Copy, Debug, PartialEq, Eq, Structural)]
pub enum ConfigError {
    /// A symbol is empty or not uppercase ASCII alphanumeric.
    InvalidSymbol,
    /// Two instances name the same instrument.
    DuplicateSymbol,
    /// A strategy's period or threshold is out of range.
    InvalidStrategyParams,
}

impl Config {
    /// A configuration the engine can be built from: every symbol valid, no
    /// instrument configured twice, every strategy's parameters in range.
    pub open spec fn spec_valid(&self) -> bool {
        &&& forall|i: int|
            0 <= i < self.instances@.len() ==> valid_symbol(
                (#[trigger] self.instances@[i]).symbol@,
            )
        &&& forall|i: int, j: int|
            0 <= i < j < self.instances@.len() ==> self.instances@[i].symbol@
                != self.instances@[j].symbol@
        &&& forall|i: int, j: int|
            0 <= i < self.instances@.len() && 0 <= j < self.instances@[i].strategies@.len() ==> (
            #[trigger] self.instances@[i].strategies@[j]).spec_params_valid()
    }

    /// Startup validation: exactly the configurations `spec_valid` admits
    /// pass, and everything else is rejected before any task would run.
    pub fn validate(&self) -> (r: Result<(), ConfigError>)
        ensures
            r is Ok <==> self.spec_valid(),
            r matches Err(e) ==> match e {
                ConfigError::InvalidSymbol => exists|i: int|
                    0 <= i < self.instances@.len() && !valid_symbol(
                        (#[trigger] self.instances@[i]).symbol@,
                    ),
                ConfigError::DuplicateSymbol => exists|i: int, j: int|
                    0 <= i < j < self.instances@.len() && self.instances@[i].symbol@
                        == self.instances@[j].symbol@,
                ConfigError::InvalidStrategyParams => exists|i: int, j: int|
                    0 <= i < self.instances@.len() && 0 <= j
                        < self.instances@[i].strategies@.len() && !(
                    #[trigger] self.instances@[i].strategies@[j]).spec_params_valid(),
            },
    {
        let n = self.instances.len();
        let mut i: usize = 0;
        while i < n
            invariant
                i <= n,
                n == self.instances@.len(),
                forall|a: int|
                    0 <= a < i ==> valid_symbol((#[trigger] self.instances@[a]).symbol@),
                forall|a: int, b: int|
                    0 <= a < b < i ==> self.instances@[a].symbol@ != self.instances@[b].symbol@,
                forall|a: int, b: int|
                    0 <= a < i && 0 <= b < self.instances@[a].strategies@.len() ==> (
                    #[trigger] self.instances@[a].strategies@[b]).spec_params_valid(),
            decreases n - i,
        {
            let inst = &self.instances[i];
            if !check_symbol(&inst.symbol) {
                return Err(ConfigError::InvalidSymbol);
            }
            let mut j: usize = 0;
            while j < i
                invariant
                    j <= i,
                    i < n,
                    n == self.instances@.len(),
                    forall|b: int|
                        0 <= b < j ==> self.instances@[b].symbol@ != self.instances@[
                            i as int
                        ].symbol@,
                decreases i - j,
            {
                if self.instances[j].symbol == self.instances[i].symbol {
                    return Err(ConfigError::DuplicateSymbol);
                }
                j = j + 1;
            }
            let m = inst.strategies.len();
            let mut k: usize = 0;
            while k < m
                invariant
                    k <= m,
                    i < n,
                    n == self.instances@.len(),
                    m == self.instances@[i as int].strategies@.len(),
                    forall|b: int|
                        0 <= b < k ==> (
                        #[trigger] self.instances@[i as int].strategies@[b]).spec_params_valid(),
                decreases m - k,
            {
                let ok = match &self.instances[i].strategies[k] {
                    Strategy::Rsi { period, buy_threshold, sell_threshold, .. } => {
                        1 <= *period && *period <= PERIOD_LIMIT && *buy_threshold
                            <= THRESHOLD_LIMIT && *sell_threshold <= THRESHOLD_LIMIT
                    },
                    Strategy::Atr { period, .. } => 1 <= *period && *period <= PERIOD_LIMIT,
                };
                if !ok {
                    return Err(ConfigError::InvalidStrategyParams);
                }
                k = k + 1;
            }
            i = i + 1;
        }
        Ok(())
    }
}

} // verus!
