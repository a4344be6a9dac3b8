//! The per-instrument instance: its strategy set, its buy/sell lifecycle
//! state, and the per-epoch signal cache that groups the signals all its
//! strategies produced for the same market event.
//!
//! An instance owns at most one open order at a time: `WaitBuy` means none,
//! `WaitSell` means exactly one (first the buy, then, once the buy fills,
//! the sell). The engine keeps this in step with the order ledger.
use vstd::prelude::*;

use crate::config::StrategyMode;
use crate::market::Signal;
use crate::strategy::Strategies;
use crate::strategy::Strategy;

verus! {

/// One strategy's signal, tagged with the epoch of the triggering event and
/// the instrument it concerns.
#[derive(Debug)]
pub struct StrategySignal {
    pub id: u64,
    pub symbol: String,
    pub signal: Signal,
}

impl Clone for StrategySignal {
    fn clone(&self) -> (r: Self)
        ensures
            r == *self,
    {
        StrategySignal { id: self.id, symbol: self.symbol.clone(), signal: self.signal }
    }
}

/// The instance lifecycle: watching for a buy trigger, or watching its open
/// order and for a sell trigger.
#[derive(Clone, Copy, Debug, PartialEq, Eq, Structural)]
pub enum State {
    WaitBuy,
    WaitSell,
}

/// The signals collected so far for one epoch.
#[derive(Debug)]
pub struct EpochEntry {
    pub epoch: u64,
    pub signals: Vec<StrategySignal>,
}

/// The any-Buy-triggers combination rule: Buy if any strategy said Buy,
/// else Sell if any said Sell, else Nothing.
pub open spec fn or_decision(sigs: Seq<StrategySignal>) -> Signal {
    if exists|i: int| 0 <= i < sigs.len() && (#[trigger] sigs[i]).signal is Buy {
        Signal::Buy
    } else if exists|i: int| 0 <= i < sigs.len() && (#[trigger] sigs[i]).signal is Sell {
        Signal::Sell
    } else {
        Signal::Nothing
    }
}

/// The cache with every entry at or below `epoch` discarded, in order.
pub open spec fn retain_newer(c: Seq<EpochEntry>, epoch: u64) -> Seq<EpochEntry>
    decreases c.len(),
{
    if c.len() == 0 {
        c
    } else {
        let rest = retain_newer(c.drop_first(), epoch);
        if c[0].epoch > epoch {
            seq![c[0]] + rest
        } else {
            rest
        }
    }
}

/// The cache with every entry strictly older than `epoch` discarded, in
/// order: an arriving signal for `epoch` supersedes everything older.
pub open spec fn retain_from(c: Seq<EpochEntry>, epoch: u64) -> Seq<EpochEntry>
    decreases c.len(),
{
    if c.len() == 0 {
        c
    } else {
        let rest = retain_from(c.drop_first(), epoch);
        if c[0].epoch >= epoch {
            seq![c[0]] + rest
        } else {
            rest
        }
    }
}

/// Whether no two cache entries cover the same epoch.
pub open spec fn epochs_distinct(c: Seq<EpochEntry>) -> bool {
    forall|i: int, j: int| 0 <= i < j < c.len() ==> c[i].epoch != c[j].epoch
}

/// The decision filing `sig` into cache `c` yields, for an instance with
/// `n` strategies: once the signal completes its epoch's collection — all
/// `n` strategies have reported — the combination rule is evaluated over
/// the collected signals; before that, no decision.
pub open spec fn epoch_decision(c: Seq<EpochEntry>, n: nat, sig: StrategySignal) -> Option<
    Signal,
>
    recommends
        epochs_distinct(c),
{
    if exists|i: int| 0 <= i < c.len() && (#[trigger] c[i]).epoch == sig.id {
        let i = choose|i: int| 0 <= i < c.len() && (#[trigger] c[i]).epoch == sig.id;
        let grown = c[i].signals@.push(sig);
        if grown.len() >= n {
            Some(or_decision(grown))
        } else {
            None
        }
    } else {
        if n <= 1 {
            Some(or_decision(seq![sig]))
        } else {
            None
        }
    }
}

/// How filing `sig` evolves the cache: the signal joins its epoch's entry
/// (or opens one); a completed epoch is discarded together with everything
/// older.
pub open spec fn cache_step(
    pre: Seq<EpochEntry>,
    n: nat,
    sig: StrategySignal,
    post: Seq<EpochEntry>,
) -> bool {
    if exists|i: int| 0 <= i < pre.len() && (#[trigger] pre[i]).epoch == sig.id {
        forall|i: int|
            0 <= i < pre.len() && (#[trigger] pre[i]).epoch == sig.id ==> {
                let grown = pre[i].signals@.push(sig);
                if grown.len() >= n {
                    post == retain_newer(pre, sig.id)
                } else {
                    &&& post.len() == pre.len()
                    &&& forall|j: int| 0 <= j < pre.len() && j != i ==> post[j] == pre[j]
                    &&& post[i].epoch == sig.id
                    &&& post[i].signals@ == grown
                }
            }
    } else {
        if n <= 1 {
            post == retain_newer(pre, sig.id)
        } else {
            &&& post.len() == pre.len() + 1
            &&& forall|j: int| 0 <= j < pre.len() ==> post[j] == pre[j]
            &&& post[pre.len() as int].epoch == sig.id
            &&& post[pre.len() as int].signals@ == seq![sig]
        }
    }
}

/// One per-instrument trading instance.
#[derive(Debug)]
pub struct Instance {
    pub symbol: String,
    pub strategies: Vec<Strategies>,
    pub strategy_mode: StrategyMode,
    pub state: State,
    pub current_signals: Vec<EpochEntry>,
    pub open_order: Option<u64>,
}

impl Instance {
    /// The instance invariant: strategies well formed, the cache holding at
    /// most one entry per epoch and only incomplete ones, and the lifecycle
    /// state agreeing with the open-order slot.
    pub open spec fn wf(&self) -> bool {
        &&& forall|i: int|
            0 <= i < self.strategies@.len() ==> (#[trigger] self.strategies@[i]).wf()
        &&& epochs_distinct(self.current_signals@)
        &&& forall|i: int|
            0 <= i < self.current_signals@.len() ==> 1 <= (
            #[trigger] self.current_signals@[i]).signals@.len() < self.strategies@.len()
        &&& (self.state is WaitSell <==> self.open_order is Some)
    }

    pub fn new(symbol: &str, mode: StrategyMode, strategies: Vec<Strategies>) -> (r: Instance)
        requires
            forall|i: int| 0 <= i < strategies@.len() ==> (#[trigger] strategies@[i]).wf(),
        ensures
            r.symbol@ == symbol@,
            r.strategies == strategies,
            r.strategy_mode == mode,
            r.state == State::WaitBuy,
            r.current_signals@ == Seq::<EpochEntry>::empty(),
            r.open_order is None,
            r.wf(),
    {
        Instance {
            symbol: symbol.to_owned(),
            strategies,
            strategy_mode: mode,
            state: State::WaitBuy,
            current_signals: Vec::new(),
            open_order: None,
        }
    }

    /// The position of the cache entry for `epoch`, if any.
    fn find_epoch(&self, epoch: u64) -> (r: Option<usize>)
        ensures
            match r {
                Some(i) => i < self.current_signals@.len() && self.current_signals@[
                    i as int
                ].epoch == epoch,
                None => forall|j: int|
                    0 <= j < self.current_signals@.len() ==> (
                    #[trigger] self.current_signals@[j]).epoch != epoch,
            },
    {
        let n = self.current_signals.len();
        let mut i: usize = 0;
        while i < n
            invariant
                i <= n,
                n == self.current_signals@.len(),
                forall|j: int|
                    0 <= j < i ==> (#[trigger] self.current_signals@[j]).epoch != epoch,
            decreases n - i,
        {
            if self.current_signals[i].epoch == epoch {
                return Some(i);
            }
            i = i + 1;
        }
        None
    }

    /// Discards every cache entry for `epoch` or older: a resolved or
    /// superseded epoch never holds memory.
    fn prune_through(&mut self, epoch: u64)
        ensures
            final(self).current_signals@ == retain_newer(old(self).current_signals@, epoch),
            final(self).symbol == old(self).symbol,
            final(self).strategies == old(self).strategies,
            final(self).strategy_mode == old(self).strategy_mode,
            final(self).state == old(self).state,
            final(self).open_order == old(self).open_order,
    {
        let mut kept: Vec<EpochEntry> = Vec::new();
        while self.current_signals.len() > 0
            invariant
                retain_newer(old(self).current_signals@, epoch) == kept@ + retain_newer(
                    self.current_signals@,
                    epoch,
                ),
                self.symbol == old(self).symbol,
                self.strategies == old(self).strategies,
                self.strategy_mode == old(self).strategy_mode,
                self.state == old(self).state,
                self.open_order == old(self).open_order,
            decreases self.current_signals.len(),
        {
            let ghost pre = self.current_signals@;
            let entry = self.current_signals.remove(0);
            proof {
                assert(pre.drop_first() =~= self.current_signals@);
            }
            if entry.epoch > epoch {
                kept.push(entry);
                proof {
                    assert(kept@ + retain_newer(self.current_signals@, epoch) =~= kept@.drop_last()
                        + (seq![pre[0]] + retain_newer(pre.drop_first(), epoch)));
                }
            } else {
                proof {
                    assert(retain_newer(pre, epoch) == retain_newer(pre.drop_first(), epoch));
                }
            }
        }
        proof {
            assert(retain_newer(self.current_signals@, epoch) =~= Seq::<EpochEntry>::empty());
            assert(kept@ + Seq::<EpochEntry>::empty() =~= kept@);
        }
        self.current_signals = kept;
    }

    /// Discards every cache entry strictly older than `epoch`: epochs a
    /// newer signal supersedes never hold memory.
    fn prune_older(&mut self, epoch: u64)
        ensures
            final(self).current_signals@ == retain_from(old(self).current_signals@, epoch),
            final(self).symbol == old(self).symbol,
            final(self).strategies == old(self).strategies,
            final(self).strategy_mode == old(self).strategy_mode,
            final(self).state == old(self).state,
            final(self).open_order == old(self).open_order,
    {
        let mut kept: Vec<EpochEntry> = Vec::new();
        while self.current_signals.len() > 0
            invariant
                retain_from(old(self).current_signals@, epoch) == kept@ + retain_from(
                    self.current_signals@,
                    epoch,
                ),
                self.symbol == old(self).symbol,
                self.strategies == old(self).strategies,
                self.strategy_mode == old(self).strategy_mode,
                self.state == old(self).state,
                self.open_order == old(self).open_order,
            decreases self.current_signals.len(),
        {
            let ghost pre = self.current_signals@;
            let entry = self.current_signals.remove(0);
            proof {
                assert(pre.drop_first() =~= self.current_signals@);
            }
            if entry.epoch >= epoch {
                kept.push(entry);
                proof {
                    assert(kept@ + retain_from(self.current_signals@, epoch) =~= kept@.drop_last()
                        + (seq![pre[0]] + retain_from(pre.drop_first(), epoch)));
                }
            } else {
                proof {
                    assert(retain_from(pre, epoch) == retain_from(pre.drop_first(), epoch));
                }
            }
        }
        proof {
            assert(retain_from(self.current_signals@, epoch) =~= Seq::<EpochEntry>::empty());
            assert(kept@ + Seq::<EpochEntry>::empty() =~= kept@);
        }
        self.current_signals = kept;
    }

    /// Files one strategy's signal under its epoch. Once every strategy of
    /// the instance has reported for that epoch, the combination rule is
    /// evaluated once, the decision is returned, and the epoch's cache
    /// entry — with everything older — is discarded. A strategy that stops
    /// reporting leaves at most one incomplete entry per epoch behind,
    /// which resolution of any newer epoch sweeps away.
    pub fn absorb_signal(&mut self, sig: StrategySignal) -> (d: Option<Signal>)
        requires
            old(self).wf(),
            sig.symbol@ == old(self).symbol@,
        ensures
            final(self).wf(),
            final(self).symbol == old(self).symbol,
            final(self).strategies == old(self).strategies,
            final(self).strategy_mode == old(self).strategy_mode,
            final(self).state == old(self).state,
            final(self).open_order == old(self).open_order,
            d == epoch_decision(
                retain_from(old(self).current_signals@, sig.id),
                old(self).strategies@.len(),
                sig,
            ),
            cache_step(
                retain_from(old(self).current_signals@, sig.id),
                old(self).strategies@.len(),
                sig,
                final(self).current_signals@,
            ),
            forall|k: int|
                0 <= k < final(self).current_signals@.len() ==> (
                #[trigger] final(self).current_signals@[k]).epoch >= sig.id,
    {
        self.prune_older(sig.id);
        proof {
            lemma_retain_from_wf(old(self).current_signals@, sig.id);
        }
        let ghost pruned = self.current_signals@;
        let n = self.strategies.len();
        match self.find_epoch(sig.id) {
            Some(i) => {
                proof {
                    let c = self.current_signals@;
                    assert(exists|a: int| 0 <= a < c.len() && (#[trigger] c[a]).epoch == sig.id);
                    let w = choose|a: int| 0 <= a < c.len() && (#[trigger] c[a]).epoch == sig.id;
                    if w < i {
                        assert(c[w].epoch != c[i as int].epoch);
                    }
                    if i < w {
                        assert(c[i as int].epoch != c[w].epoch);
                    }
                    assert(w == i);
                }
                let count = self.current_signals[i].signals.len();
                if count + 1 >= n {
                    let mut has_buy = sig.signal == Signal::Buy;
                    let mut has_sell = sig.signal == Signal::Sell;
                    let m = self.current_signals[i].signals.len();
                    let ghost grown = self.current_signals@[i as int].signals@.push(sig);
                    let mut j: usize = 0;
                    while j < m
                        invariant
                            j <= m,
                            i < self.current_signals@.len(),
                            m == self.current_signals@[i as int].signals@.len(),
                            grown == self.current_signals@[i as int].signals@.push(sig),
                            has_buy == (sig.signal is Buy || exists|a: int|
                                0 <= a < j && (#[trigger] self.current_signals@[
                                    i as int
                                ].signals@[a]).signal is Buy),
                            has_sell == (sig.signal is Sell || exists|a: int|
                                0 <= a < j && (#[trigger] self.current_signals@[
                                    i as int
                                ].signals@[a]).signal is Sell),
                        decreases m - j,
                    {
                        let s = &self.current_signals[i].signals[j];
                        if s.signal == Signal::Buy {
                            has_buy = true;
                        }
                        if s.signal == Signal::Sell {
                            has_sell = true;
                        }
                        j = j + 1;
                    }
                    proof {
                        let old_sigs = self.current_signals@[i as int].signals@;
                        assert(forall|a: int| 0 <= a < grown.len() - 1 ==> grown[a] == old_sigs[a]);
                        assert(grown[grown.len() - 1] == sig);
                        assert(has_buy == exists|a: int|
                            0 <= a < grown.len() && (#[trigger] grown[a]).signal is Buy) by {
                            if has_buy {
                                if sig.signal is Buy {
                                    assert(grown[grown.len() - 1].signal is Buy);
                                } else {
                                    let w = choose|a: int|
                                        0 <= a < m && (#[trigger] old_sigs[a]).signal is Buy;
                                    assert(grown[w].signal is Buy);
                                }
                            } else {
                                assert forall|a: int|
                                    0 <= a < grown.len() implies !((#[trigger] grown[a]).signal
                                    is Buy) by {
                                    if a < grown.len() - 1 {
                                        assert(grown[a] == old_sigs[a]);
                                    }
                                }
                            }
                        }
                        assert(has_sell == exists|a: int|
                            0 <= a < grown.len() && (#[trigger] grown[a]).signal is Sell) by {
                            if has_sell {
                                if sig.signal is Sell {
                                    assert(grown[grown.len() - 1].signal is Sell);
                                } else {
                                    let w = choose|a: int|
                                        0 <= a < m && (#[trigger] old_sigs[a]).signal is Sell;
                                    assert(grown[w].signal is Sell);
                                }
                            } else {
                                assert forall|a: int|
                                    0 <= a < grown.len() implies !((#[trigger] grown[a]).signal
                                    is Sell) by {
                                    if a < grown.len() - 1 {
                                        assert(grown[a] == old_sigs[a]);
                                    }
                                }
                            }
                        }
                    }
                    let d = if has_buy {
                        Signal::Buy
                    } else if has_sell {
                        Signal::Sell
                    } else {
                        Signal::Nothing
                    };
                    self.prune_through(sig.id);
                    proof {
                        lemma_retain_newer_wf(pruned, sig.id);
                    }
                    Some(d)
                } else {
                    let mut entry = self.current_signals.remove(i);
                    entry.signals.push(sig);
                    self.current_signals.insert(i, entry);
                    proof {
                        assert(forall|j: int|
                            0 <= j < pruned.len() && j != i ==> final(self).current_signals@[j]
                                == pruned[j]);
                    }
                    None
                }
            },
            None => {
                if n <= 1 {
                    let d = if sig.signal == Signal::Buy {
                        Signal::Buy
                    } else if sig.signal == Signal::Sell {
                        Signal::Sell
                    } else {
                        Signal::Nothing
                    };
                    proof {
                        let single = seq![sig];
                        assert(single.len() == 1 && single[0] == sig);
                    }
                    self.prune_through(sig.id);
                    proof {
                        lemma_retain_newer_wf(pruned, sig.id);
                    }
                    Some(d)
                } else {
                    let epoch = sig.id;
                    let mut signals: Vec<StrategySignal> = Vec::new();
                    signals.push(sig);
                    self.current_signals.push(EpochEntry { epoch, signals });
                    None
                }
            },
        }
    }
}

/// What `retain_newer` keeps is a subsequence-like selection of the old
/// entries: every kept entry stood in the cache, only newer epochs stay,
/// and distinctness of epochs survives.
pub proof fn lemma_retain_newer_wf(c: Seq<EpochEntry>, epoch: u64)
    ensures
        forall|i: int|
            0 <= i < retain_newer(c, epoch).len() ==> c.contains(#[trigger] retain_newer(c, epoch)[i])
                && retain_newer(c, epoch)[i].epoch > epoch,
        epochs_distinct(c) ==> epochs_distinct(retain_newer(c, epoch)),
    decreases c.len(),
{
    if c.len() > 0 {
        let rest = c.drop_first();
        lemma_retain_newer_wf(rest, epoch);
        assert(forall|i: int| 0 <= i < rest.len() ==> #[trigger] rest[i] == c[i + 1]);
        assert(forall|i: int| 0 <= i < rest.len() && epochs_distinct(c) ==> rest[i].epoch != c[0].epoch);
        if epochs_distinct(c) {
            assert(epochs_distinct(rest));
        }
        assert(forall|i: int|
            0 <= i < retain_newer(rest, epoch).len() ==> c.contains(
                #[trigger] retain_newer(rest, epoch)[i],
            )) by {
            assert(forall|i: int|
                0 <= i < retain_newer(rest, epoch).len() ==> rest.contains(
                    #[trigger] retain_newer(rest, epoch)[i],
                ));
            assert(forall|x: EpochEntry| rest.contains(x) ==> c.contains(x));
        }
        if c[0].epoch > epoch {
            let kept = seq![c[0]] + retain_newer(rest, epoch);
            assert(kept[0] == c[0]);
            assert(c.contains(c[0]));
            assert(forall|i: int|
                1 <= i < kept.len() ==> #[trigger] kept[i] == retain_newer(rest, epoch)[i - 1]);
            if epochs_distinct(c) {
                assert forall|i: int, j: int| 0 <= i < j < kept.len() implies kept[i].epoch
                    != kept[j].epoch by {
                    if i == 0 {
                        let x = retain_newer(rest, epoch)[j - 1];
                        assert(rest.contains(x));
                        let w = choose|w: int| 0 <= w < rest.len() && rest[w] == x;
                        assert(c[w + 1] == x);
                    }
                }
            }
        }
    }
}

/// What `retain_from` keeps stood in the old cache, only epochs at or past
/// the cut stay, and distinctness of epochs survives.
pub proof fn lemma_retain_from_wf(c: Seq<EpochEntry>, epoch: u64)
    ensures
        forall|i: int|
            0 <= i < retain_from(c, epoch).len() ==> c.contains(#[trigger] retain_from(c, epoch)[i])
                && retain_from(c, epoch)[i].epoch >= epoch,
        epochs_distinct(c) ==> epochs_distinct(retain_from(c, epoch)),
    decreases c.len(),
{
    if c.len() > 0 {
        let rest = c.drop_first();
        lemma_retain_from_wf(rest, epoch);
        assert(forall|i: int| 0 <= i < rest.len() ==> #[trigger] rest[i] == c[i + 1]);
        assert(forall|i: int| 0 <= i < rest.len() && epochs_distinct(c) ==> rest[i].epoch != c[0].epoch);
        if epochs_distinct(c) {
            assert(epochs_distinct(rest));
        }
        assert(forall|i: int|
            0 <= i < retain_from(rest, epoch).len() ==> c.contains(
                #[trigger] retain_from(rest, epoch)[i],
            )) by {
            assert(forall|i: int|
                0 <= i < retain_from(rest, epoch).len() ==> rest.contains(
                    #[trigger] retain_from(rest, epoch)[i],
                ));
            assert(forall|x: EpochEntry| rest.contains(x) ==> c.contains(x));
        }
        if c[0].epoch >= epoch {
            let kept = seq![c[0]] + retain_from(rest, epoch);
            assert(kept[0] == c[0]);
            assert(c.contains(c[0]));
            assert(forall|i: int|
                1 <= i < kept.len() ==> #[trigger] kept[i] == retain_from(rest, epoch)[i - 1]);
            if epochs_distinct(c) {
                assert forall|i: int, j: int| 0 <= i < j < kept.len() implies kept[i].epoch
                    != kept[j].epoch by {
                    if i == 0 {
                        let x = retain_from(rest, epoch)[j - 1];
                        assert(rest.contains(x));
                        let w = choose|w: int| 0 <= w < rest.len() && rest[w] == x;
                        assert(c[w + 1] == x);
                    }
                }
            }
        }
    }
}

} // verus!
