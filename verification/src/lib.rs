//! Core of an automated trading engine: a topic-keyed market-data bus, one
//! lifecycle state machine per configured instrument, per-strategy signal
//! evaluation, and an order ledger that reconciles asynchronous status
//! updates under a last-writer-by-event-time policy.
//!
//! The engine is a deterministic state machine over plain values: the async
//! shell around it performs the exchange I/O, feeds normalized events in,
//! and carries the returned order requests out.
use vstd::prelude::*;

pub mod atr;
pub mod channel;
pub mod config;
pub mod instance;
pub mod ledger;
pub mod market;
pub mod rsi;
pub mod strategy;

pub use atr::AverageTrueRange;
pub use channel::Broadcast;
pub use channel::Mpsc;
pub use config::Config;
pub use config::ConfigError;
pub use config::StrategyMode;
pub use config::StrategyType;
pub use instance::Instance;
pub use instance::State as InstanceState;
pub use instance::StrategySignal;
pub use ledger::LedgerError;
pub use ledger::Order;
pub use ledger::OrderLedger;
pub use ledger::OrderSide;
pub use ledger::OrderStatus;
pub use ledger::OrderUpdateEvent;
pub use ledger::UpdateOutcome;
pub use ledger::UpdateStatus;
pub use market::BookTickerEvent;
pub use market::Category;
pub use market::Data;
pub use market::DataCategory;
pub use market::DataId;
pub use market::DataIndex;
pub use market::Index;
pub use market::Kline;
pub use market::KlineEvent;
pub use market::KlineInterval;
pub use market::Signal;
pub use rsi::RelativeStrengthIndex;
pub use strategy::Strategies;
pub use strategy::Strategy;

use ledger::contains_order_id;
use ledger::merged_order;
use market::spec_stream_name;
use market::stream_name;

verus! {

/// Why an engine operation refused to act.
#[derive(Clone, Copy, Debug, PartialEq, Eq, Structural)]
pub enum EngineError {
    /// An instance index beyond the configured instances.
    NoSuchInstance,
    /// A strategy index beyond the instance's strategy set.
    NoSuchStrategy,
    /// An event for a topic the registry was never built with: a
    /// construction fault, surfaced loudly instead of dropping the event.
    UnknownTopic,
    /// A buy was committed while the instance already holds an open order.
    NotAwaitingBuy,
}

/// How the engine reacted to one order update.
#[derive(Clone, Copy, Debug, PartialEq, Eq, Structural)]
pub enum OrderReaction {
    /// The update names no open order of this engine; it was dropped.
    Dropped,
    /// Not strictly newer than the stored state: a no-op.
    Stale,
    /// A status the engine does not act on.
    Ignored,
    /// The open order was acknowledged by the exchange.
    Acknowledged,
    /// The buy filled; the engine committed the follow-up sell order with
    /// this id, which the shell must now place.
    SellPlaced(u64),
    /// The sell filled; the round trip is done and the instance watches for
    /// the next buy.
    Settled,
    /// The open order was canceled; the instance watches for the next buy.
    Cancelled,
}

/// What the shell is asked to do at the exchange after a signal decision.
#[derive(Debug)]
pub enum TradeAction {
    /// Place a limit buy for the instrument; the shell prices it and then
    /// commits it to the engine.
    PlaceBuy { symbol: String },
    /// Revoke the resting buy order.
    Revoke { symbol: String, order_id: u64 },
}

/// A best-price pair for one instrument.
#[derive(Clone, Copy, Debug)]
pub struct Price {
    pub buy: u64,
    pub sell: u64,
}

/// One registered topic: its key and its broadcast channel.
pub struct Topic {
    pub key: Index,
    pub channel: Broadcast<Data>,
}

/// The shared trading state: the instances and the order ledger, with the
/// capital bookkeeping around them.
pub struct State {
    pub instances: Vec<Instance>,
    pub optimal_price: Vec<(String, Price)>,
    pub profit: i64,
    pub principal: u64,
    pub ledger: OrderLedger,
}

/// Whether the registry holds a topic with the given key.
pub open spec fn contains_topic(ts: Seq<Topic>, key: (Seq<char>, Category)) -> bool {
    exists|i: int| 0 <= i < ts.len() && (#[trigger] ts[i]).key@ == key
}

/// Whether no two topics share a key.
pub open spec fn topic_keys_distinct(ts: Seq<Topic>) -> bool {
    forall|i: int, j: int| 0 <= i < j < ts.len() ==> ts[i].key@ != ts[j].key@
}

/// Whether the configuration asks for a topic with this key: a candle
/// topic for an instrument and one of its strategies' granularities, or
/// the per-instrument best-bid/ask topic.
pub open spec fn config_implies_topic(
    instances: Seq<config::Instance>,
    key: (Seq<char>, Category),
) -> bool {
    exists|i: int|
        0 <= i < instances.len() && (#[trigger] instances[i]).symbol@ == key.0 && (key.1
            == Category::BookTicker || exists|j: int|
            0 <= j < instances[i].strategies@.len() && key.1 == Category::Kline(
                (#[trigger] instances[i].strategies@[j]).spec_interval(),
            ))
}

/// Whether some configured instance trades the instrument `sym`.
pub open spec fn has_owner(instances: Seq<Instance>, sym: Seq<char>) -> bool {
    exists|i: int| 0 <= i < instances.len() && (#[trigger] instances[i]).symbol@ == sym
}

/// Whether some stream name in `ss` reads `name`.
pub open spec fn contains_stream(ss: Seq<String>, name: Seq<char>) -> bool {
    exists|i: int| 0 <= i < ss.len() && (#[trigger] ss[i])@ == name
}

/// Registers a topic if its key is still missing: a no-op when present.
fn register_topic(channels: &mut Vec<Topic>, symbol: &String, category: Category)
    requires
        topic_keys_distinct(old(channels)@),
    ensures
        topic_keys_distinct(final(channels)@),
        old(channels)@.len() <= final(channels)@.len() <= old(channels)@.len() + 1,
        forall|a: int| 0 <= a < old(channels)@.len() ==> final(channels)@[a] == old(channels)@[a],
        final(channels)@.len() == old(channels)@.len() + 1 ==> final(channels)@[old(
            channels,
        )@.len() as int].key@ == (symbol@, category),
        contains_topic(final(channels)@, (symbol@, category)),
        forall|k: (Seq<char>, Category)|
            contains_topic(final(channels)@, k) <==> contains_topic(old(channels)@, k) || k == (
            symbol@,
            category,
        ),
{
    let n = channels.len();
    let probe = Index::new(symbol.clone(), category);
    let mut i: usize = 0;
    while i < n
        invariant
            i <= n,
            n == channels@.len(),
            channels@ == old(channels)@,
            topic_keys_distinct(channels@),
            probe@ == (symbol@, category),
            forall|a: int| 0 <= a < i ==> (#[trigger] channels@[a]).key@ != (symbol@, category),
        decreases n - i,
    {
        if channels[i].key.matches(&probe) {
            proof {
                assert(contains_topic(channels@, (symbol@, category)));
                assert(forall|k: (Seq<char>, Category)|
                    contains_topic(channels@, k) <==> contains_topic(old(channels)@, k) || k == (
                    symbol@,
                    category,
                ));
            }
            return ;
        }
        i = i + 1;
    }
    channels.push(Topic { key: probe, channel: Broadcast::default() });
    proof {
        let post = channels@;
        let pre = old(channels)@;
        assert(post[pre.len() as int].key@ == (symbol@, category));
        assert(contains_topic(post, (symbol@, category)));
        assert forall|k: (Seq<char>, Category)|
            contains_topic(post, k) <==> contains_topic(pre, k) || k == (
            symbol@,
            category,
        ) by {
            if contains_topic(pre, k) {
                let w = choose|w: int| 0 <= w < pre.len() && (#[trigger] pre[w]).key@ == k;
                assert(post[w].key@ == k);
            }
            if contains_topic(post, k) {
                let w = choose|w: int| 0 <= w < post.len() && (#[trigger] post[w]).key@ == k;
                if w < pre.len() {
                    assert(pre[w].key@ == k);
                }
            }
        }
    }
}

/// Appends a stream name if it is not yet listed: a no-op when present.
fn push_stream(streams: &mut Vec<String>, symbol: &String, interval: &KlineInterval)
    requires
        config::valid_symbol(symbol@),
        forall|a: int, b: int|
            0 <= a < b < old(streams)@.len() ==> old(streams)@[a]@ != old(streams)@[b]@,
    ensures
        forall|a: int, b: int|
            0 <= a < b < final(streams)@.len() ==> final(streams)@[a]@ != final(streams)@[b]@,
        old(streams)@.len() <= final(streams)@.len() <= old(streams)@.len() + 1,
        forall|a: int| 0 <= a < old(streams)@.len() ==> final(streams)@[a] == old(streams)@[a],
        final(streams)@.len() == old(streams)@.len() + 1 ==> (final(streams)@[old(
            streams,
        )@.len() as int])@ == spec_stream_name(symbol@, *interval),
        contains_stream(final(streams)@, spec_stream_name(symbol@, *interval)),
        forall|s: Seq<char>|
            contains_stream(final(streams)@, s) <==> contains_stream(old(streams)@, s) || s
                == spec_stream_name(symbol@, *interval),
{
    let name = stream_name(symbol, interval);
    let n = streams.len();
    let mut i: usize = 0;
    while i < n
        invariant
            i <= n,
            n == streams@.len(),
            streams@ == old(streams)@,
            forall|a: int, b: int| 0 <= a < b < streams@.len() ==> streams@[a]@ != streams@[b]@,
            name@ == spec_stream_name(symbol@, *interval),
            forall|a: int| 0 <= a < i ==> (#[trigger] streams@[a])@ != name@,
        decreases n - i,
    {
        if streams[i].eq(&name) {
            proof {
                assert(contains_stream(streams@, name@));
                assert(forall|s: Seq<char>|
                    contains_stream(streams@, s) <==> contains_stream(old(streams)@, s) || s
                        == name@);
            }
            return ;
        }
        i = i + 1;
    }
    streams.push(name);
    proof {
        let post = streams@;
        let pre = old(streams)@;
        assert(post[pre.len() as int]@ == spec_stream_name(symbol@, *interval));
        assert(contains_stream(post, spec_stream_name(symbol@, *interval)));
        assert forall|s: Seq<char>|
            contains_stream(post, s) <==> contains_stream(pre, s) || s == spec_stream_name(
            symbol@,
            *interval,
        ) by {
            if contains_stream(pre, s) {
                let w = choose|w: int| 0 <= w < pre.len() && (#[trigger] pre[w])@ == s;
                assert(post[w]@ == s);
            }
            if contains_stream(post, s) {
                let w = choose|w: int| 0 <= w < post.len() && (#[trigger] post[w])@ == s;
                if w < pre.len() {
                    assert(pre[w]@ == s);
                }
            }
        }
    }
}

/// Whether `key` is one of the topic keys a single configured instrument
/// implies: a candle topic of one of its strategies, or its best-bid/ask
/// topic.
pub open spec fn topic_from_instance(conf: config::Instance, key: (Seq<char>, Category)) -> bool {
    key.0 == conf.symbol@ && (key.1 == Category::BookTicker || exists|b: int|
        0 <= b < conf.strategies@.len() && key.1 == Category::Kline(
            (#[trigger] conf.strategies@[b]).spec_interval(),
        ))
}

/// Whether `key` is a candle topic key of one of the instrument's
/// strategies.
pub open spec fn kline_topic_from_instance(
    conf: config::Instance,
    key: (Seq<char>, Category),
) -> bool {
    key.0 == conf.symbol@ && exists|b: int|
        0 <= b < conf.strategies@.len() && key.1 == Category::Kline(
            (#[trigger] conf.strategies@[b]).spec_interval(),
        )
}

/// Whether `name` is the stream name of one of the instrument's candle
/// topics.
pub open spec fn stream_from_instance(conf: config::Instance, name: Seq<char>) -> bool {
    exists|b: int|
        0 <= b < conf.strategies@.len() && name == spec_stream_name(
            conf.symbol@,
            (#[trigger] conf.strategies@[b]).spec_interval(),
        )
}

/// Whether `name` is the stream name of a candle topic the configuration
/// implies.
pub open spec fn config_implies_stream(instances: Seq<config::Instance>, name: Seq<char>) -> bool {
    exists|i: int| 0 <= i < instances.len() && stream_from_instance(#[trigger] instances[i], name)
}

/// Derives and registers everything one configured instrument needs: a
/// candle topic and a stream subscription per strategy, the instrument's
/// best-bid/ask topic, and the instance itself, fresh in `WaitBuy`.
fn wire_instance(
    channels: &mut Vec<Topic>,
    streams: &mut Vec<String>,
    conf: &config::Instance,
) -> (r: Instance)
    requires
        topic_keys_distinct(old(channels)@),
        forall|a: int, b: int|
            0 <= a < b < old(streams)@.len() ==> old(streams)@[a]@ != old(streams)@[b]@,
        config::valid_symbol(conf.symbol@),
        forall|b: int|
            0 <= b < conf.strategies@.len() ==> (
            #[trigger] conf.strategies@[b]).spec_params_valid(),
    ensures
        topic_keys_distinct(final(channels)@),
        forall|a: int, b: int|
            0 <= a < b < final(streams)@.len() ==> final(streams)@[a]@ != final(streams)@[b]@,
        old(channels)@.len() <= final(channels)@.len(),
        forall|a: int| 0 <= a < old(channels)@.len() ==> final(channels)@[a] == old(channels)@[a],
        forall|t: int|
            old(channels)@.len() <= t < final(channels)@.len() ==> topic_from_instance(
                *conf,
                (#[trigger] final(channels)@[t]).key@,
            ),
        forall|b: int|
            0 <= b < conf.strategies@.len() ==> contains_topic(
                final(channels)@,
                (conf.symbol@, Category::Kline((#[trigger] conf.strategies@[b]).spec_interval())),
            ),
        contains_topic(final(channels)@, (conf.symbol@, Category::BookTicker)),
        old(streams)@.len() <= final(streams)@.len(),
        forall|a: int| 0 <= a < old(streams)@.len() ==> final(streams)@[a] == old(streams)@[a],
        forall|s: int|
            old(streams)@.len() <= s < final(streams)@.len() ==> stream_from_instance(
                *conf,
                (#[trigger] final(streams)@[s])@,
            ),
        forall|b: int|
            0 <= b < conf.strategies@.len() ==> contains_stream(
                final(streams)@,
                spec_stream_name(conf.symbol@, (#[trigger] conf.strategies@[b]).spec_interval()),
            ),
        r.symbol@ == conf.symbol@,
        r.strategy_mode == conf.mode,
        r.state == InstanceState::WaitBuy,
        r.open_order is None,
        r.current_signals@.len() == 0,
        r.wf(),
        r.strategies@.len() == conf.strategies@.len(),
        forall|b: int|
            0 <= b < conf.strategies@.len() ==> strategy::strategy_matches(
                #[trigger] r.strategies@[b],
                conf.strategies@[b],
            ),
{
    let mut strategies: Vec<Strategies> = Vec::new();
    let m = conf.strategies.len();
    let mut j: usize = 0;
    while j < m
        invariant
            j <= m,
            m == conf.strategies@.len(),
            config::valid_symbol(conf.symbol@),
            forall|b: int|
                0 <= b < conf.strategies@.len() ==> (
                #[trigger] conf.strategies@[b]).spec_params_valid(),
            topic_keys_distinct(channels@),
            forall|a: int, b: int|
                0 <= a < b < streams@.len() ==> streams@[a]@ != streams@[b]@,
            old(channels)@.len() <= channels@.len(),
            forall|a: int| 0 <= a < old(channels)@.len() ==> channels@[a] == old(channels)@[a],
            forall|t: int|
                old(channels)@.len() <= t < channels@.len() ==> kline_topic_from_instance(
                    *conf,
                    (#[trigger] channels@[t]).key@,
                ),
            forall|b: int|
                0 <= b < j ==> contains_topic(
                    channels@,
                    (
                        conf.symbol@,
                        Category::Kline((#[trigger] conf.strategies@[b]).spec_interval()),
                    ),
                ),
            old(streams)@.len() <= streams@.len(),
            forall|a: int| 0 <= a < old(streams)@.len() ==> streams@[a] == old(streams)@[a],
            forall|s: int|
                old(streams)@.len() <= s < streams@.len() ==> stream_from_instance(
                    *conf,
                    (#[trigger] streams@[s])@,
                ),
            forall|b: int|
                0 <= b < j ==> contains_stream(
                    streams@,
                    spec_stream_name(
                        conf.symbol@,
                        (#[trigger] conf.strategies@[b]).spec_interval(),
                    ),
                ),
            strategies@.len() == j,
            forall|b: int| 0 <= b < j ==> (#[trigger] strategies@[b]).wf(),
            forall|b: int|
                0 <= b < j ==> strategy::strategy_matches(
                    #[trigger] strategies@[b],
                    conf.strategies@[b],
                ),
        decreases m - j,
    {
        proof {
            assert(conf.strategies@[j as int].spec_params_valid());
        }
        let interval: KlineInterval;
        let strat: Strategies;
        match &conf.strategies[j] {
            config::Strategy::Rsi { interval: itv, period, buy_threshold, sell_threshold, .. } => {
                interval = *itv;
                strat = Strategies::RelativeStrengthIndex(
                    RelativeStrengthIndex::new(*period, *itv, *buy_threshold, *sell_threshold),
                );
            },
            config::Strategy::Atr { interval: itv, period, .. } => {
                interval = *itv;
                strat = Strategies::AverageTrueRange(AverageTrueRange::new(*period, *itv));
            },
        }
        proof {
            assert(interval == conf.strategies@[j as int].spec_interval());
        }
        let ghost pre_topics = channels@;
        register_topic(channels, &conf.symbol, Category::Kline(interval));
        proof {
            assert forall|t: int|
                old(channels)@.len() <= t < channels@.len() implies kline_topic_from_instance(
                *conf,
                (#[trigger] channels@[t]).key@,
            ) by {
                if t < pre_topics.len() {
                    assert(channels@[t] == pre_topics[t]);
                } else {
                    assert(channels@[t].key@ == (conf.symbol@, Category::Kline(interval)));
                    assert(0 <= j < conf.strategies@.len() && channels@[t].key@.1
                        == Category::Kline(conf.strategies@[j as int].spec_interval()));
                }
            }
        }
        let ghost pre_streams = streams@;
        push_stream(streams, &conf.symbol, &interval);
        proof {
            assert forall|s: int|
                old(streams)@.len() <= s < streams@.len() implies stream_from_instance(
                *conf,
                (#[trigger] streams@[s])@,
            ) by {
                if s < pre_streams.len() {
                    assert(streams@[s] == pre_streams[s]);
                } else {
                    assert(0 <= j < conf.strategies@.len() && streams@[s]@ == spec_stream_name(
                        conf.symbol@,
                        conf.strategies@[j as int].spec_interval(),
                    ));
                }
            }
        }
        strategies.push(strat);
        j = j + 1;
    }
    let ghost pre_topics_bt = channels@;
    register_topic(channels, &conf.symbol, Category::BookTicker);
    proof {
        assert forall|t: int|
            old(channels)@.len() <= t < channels@.len() implies topic_from_instance(
            *conf,
            (#[trigger] channels@[t]).key@,
        ) by {
            if t < pre_topics_bt.len() {
                assert(channels@[t] == pre_topics_bt[t]);
                assert(kline_topic_from_instance(*conf, channels@[t].key@));
            } else {
                assert(channels@[t].key@ == (conf.symbol@, Category::BookTicker));
            }
        }
        assert forall|b: int|
            0 <= b < conf.strategies@.len() implies contains_topic(
            channels@,
            (conf.symbol@, Category::Kline((#[trigger] conf.strategies@[b]).spec_interval())),
        ) by {
            let key = (conf.symbol@, Category::Kline(conf.strategies@[b].spec_interval()));
            assert(contains_topic(pre_topics_bt, key));
            let w = choose|w: int|
                0 <= w < pre_topics_bt.len() && (#[trigger] pre_topics_bt[w]).key@ == key;
            assert(channels@[w].key@ == key);
        }
    }
    Instance::new(conf.symbol.as_str(), conf.mode, strategies)
}

/// Whether a built instance is the fresh instance a configuration entry
/// asks for: same instrument and mode, initial lifecycle state, an empty
/// cache, and each strategy built from its entry.
pub open spec fn instance_matches_config(built: Instance, conf: config::Instance) -> bool {
    &&& built.symbol@ == conf.symbol@
    &&& built.strategy_mode == conf.mode
    &&& built.state == InstanceState::WaitBuy
    &&& built.open_order is None
    &&& built.current_signals@.len() == 0
    &&& built.strategies@.len() == conf.strategies@.len()
    &&& forall|b: int|
        0 <= b < conf.strategies@.len() ==> strategy::strategy_matches(
            #[trigger] built.strategies@[b],
            conf.strategies@[b],
        )
}

/// Builds the full wiring a valid configuration implies: the topic
/// registry, one instance per instrument, and the stream-subscription
/// list.
fn build_wiring(config: &Config) -> (w: (Vec<Topic>, Vec<Instance>, Vec<String>))
    requires
        config.spec_valid(),
    ensures
        topic_keys_distinct(w.0@),
        forall|t: int|
            0 <= t < w.0@.len() ==> config_implies_topic(
                config.instances@,
                (#[trigger] w.0@[t]).key@,
            ),
        forall|i: int, j: int|
            0 <= i < config.instances@.len() && 0 <= j < config.instances@[i].strategies@.len()
                ==> contains_topic(
                w.0@,
                (
                    config.instances@[i].symbol@,
                    Category::Kline(
                        (#[trigger] config.instances@[i].strategies@[j]).spec_interval(),
                    ),
                ),
            ),
        forall|i: int|
            0 <= i < config.instances@.len() ==> contains_topic(
                w.0@,
                ((#[trigger] config.instances@[i]).symbol@, Category::BookTicker),
            ),
        w.1@.len() == config.instances@.len(),
        forall|i: int|
            0 <= i < config.instances@.len() ==> instance_matches_config(
                #[trigger] w.1@[i],
                config.instances@[i],
            ),
        forall|i: int| 0 <= i < w.1@.len() ==> (#[trigger] w.1@[i]).wf(),
        forall|s: int|
            0 <= s < w.2@.len() ==> config_implies_stream(config.instances@, (#[trigger] w.2@[s])@),
        forall|i: int, j: int|
            0 <= i < config.instances@.len() && 0 <= j < config.instances@[i].strategies@.len()
                ==> contains_stream(
                w.2@,
                spec_stream_name(
                    config.instances@[i].symbol@,
                    (#[trigger] config.instances@[i].strategies@[j]).spec_interval(),
                ),
            ),
        forall|a: int, b: int| 0 <= a < b < w.2@.len() ==> w.2@[a]@ != w.2@[b]@,
{
    let mut data_channels: Vec<Topic> = Vec::new();
    let mut instances: Vec<Instance> = Vec::new();
    let mut streams: Vec<String> = Vec::new();
    let n = config.instances.len();
    let mut i: usize = 0;
    while i < n
        invariant
            i <= n,
            n == config.instances@.len(),
            config.spec_valid(),
            topic_keys_distinct(data_channels@),
            forall|a: int, b: int| 0 <= a < b < streams@.len() ==> streams@[a]@ != streams@[b]@,
            forall|t: int|
                0 <= t < data_channels@.len() ==> config_implies_topic(
                    config.instances@,
                    (#[trigger] data_channels@[t]).key@,
                ),
            forall|a: int, b: int|
                0 <= a < i && 0 <= b < config.instances@[a].strategies@.len() ==> contains_topic(
                    data_channels@,
                    (
                        config.instances@[a].symbol@,
                        Category::Kline(
                            (#[trigger] config.instances@[a].strategies@[b]).spec_interval(),
                        ),
                    ),
                ),
            forall|a: int|
                0 <= a < i ==> contains_topic(
                    data_channels@,
                    ((#[trigger] config.instances@[a]).symbol@, Category::BookTicker),
                ),
            forall|s: int|
                0 <= s < streams@.len() ==> config_implies_stream(
                    config.instances@,
                    (#[trigger] streams@[s])@,
                ),
            forall|a: int, b: int|
                0 <= a < i && 0 <= b < config.instances@[a].strategies@.len() ==> contains_stream(
                    streams@,
                    spec_stream_name(
                        config.instances@[a].symbol@,
                        (#[trigger] config.instances@[a].strategies@[b]).spec_interval(),
                    ),
                ),
            instances@.len() == i,
            forall|a: int|
                0 <= a < i ==> instance_matches_config(
                    #[trigger] instances@[a],
                    config.instances@[a],
                ),
            forall|a: int| 0 <= a < instances@.len() ==> (#[trigger] instances@[a]).wf(),
        decreases n - i,
    {
        let ghost pre_topics = data_channels@;
        let ghost pre_streams = streams@;
        let built = wire_instance(&mut data_channels, &mut streams, &config.instances[i]);
        proof {
            assert forall|t: int|
                0 <= t < data_channels@.len() implies config_implies_topic(
                config.instances@,
                (#[trigger] data_channels@[t]).key@,
            ) by {
                if t < pre_topics.len() {
                    assert(data_channels@[t] == pre_topics[t]);
                } else {
                    assert(topic_from_instance(
                        config.instances@[i as int],
                        data_channels@[t].key@,
                    ));
                }
            }
            assert forall|s: int|
                0 <= s < streams@.len() implies config_implies_stream(
                config.instances@,
                (#[trigger] streams@[s])@,
            ) by {
                if s < pre_streams.len() {
                    assert(streams@[s] == pre_streams[s]);
                } else {
                    assert(stream_from_instance(config.instances@[i as int], streams@[s]@));
                }
            }
        }
        instances.push(built);
        i = i + 1;
    }
    (data_channels, instances, streams)
}

/// The orchestrated engine: topic registry, instances, ledger and queues,
/// wired once from the configuration.
pub struct Engine {
    pub state: State,
    pub data_channels: Vec<Topic>,
    pub order_channel: Mpsc<OrderUpdateEvent>,
    pub wss_streams: Vec<String>,
    pub decision: Mpsc<(String, Signal)>,
    pub principal: u64,
    pub next_order_id: u64,
}

impl Engine {
    pub open spec fn instances(&self) -> Seq<Instance> {
        self.state.instances@
    }

    pub open spec fn open_orders(&self) -> Seq<Order> {
        self.state.ledger.orders@
    }

    pub open spec fn archived_orders(&self) -> Seq<Order> {
        self.state.ledger.archived@
    }

    /// The engine invariant. Beyond each part's own well-formedness it ties
    /// the instances to the ledger: an instance holds an open-order id
    /// exactly when it is in `WaitSell`; every open order belongs to the
    /// one instance trading its instrument; an instance without an open
    /// order has no open order under its instrument; and order ids stay
    /// below the id counter, so fresh ids never collide.
    pub open spec fn wf(&self) -> bool {
        &&& self.state.ledger.wf()
        &&& topic_keys_distinct(self.data_channels@)
        &&& forall|i: int| 0 <= i < self.instances().len() ==> (#[trigger] self.instances()[i]).wf()
        &&& forall|i: int, j: int|
            0 <= i < j < self.instances().len() ==> self.instances()[i].symbol@
                != self.instances()[j].symbol@
        &&& forall|j: int|
            0 <= j < self.open_orders().len() ==> (#[trigger] self.open_orders()[j]).id
                < self.next_order_id
        &&& forall|j: int|
            0 <= j < self.archived_orders().len() ==> (#[trigger] self.archived_orders()[j]).id
                < self.next_order_id
        &&& forall|j: int|
            0 <= j < self.open_orders().len() ==> !(
            #[trigger] self.open_orders()[j]).status.is_terminal()
        &&& forall|i: int, j: int|
            #![trigger self.instances()[i], self.open_orders()[j]]
            0 <= i < self.instances().len() && 0 <= j < self.open_orders().len()
                && self.instances()[i].open_order is None ==> self.open_orders()[j].symbol@
                != self.instances()[i].symbol@
        &&& forall|i: int, j: int|
            #![trigger self.instances()[i], self.open_orders()[j]]
            0 <= i < self.instances().len() && 0 <= j < self.open_orders().len()
                && self.open_orders()[j].symbol@ == self.instances()[i].symbol@
                ==> self.instances()[i].open_order == Some(self.open_orders()[j].id)
        &&& forall|i: int|
            #![trigger self.instances()[i].open_order]
            0 <= i < self.instances().len() && self.instances()[i].open_order is Some
                ==> exists|j: int|
                0 <= j < self.open_orders().len() && (#[trigger] self.open_orders()[j].id)
                    == self.instances()[i].open_order->0 && self.open_orders()[j].symbol@
                    == self.instances()[i].symbol@
    }

    /// Final assembly: wraps the wiring into an engine with an empty
    /// ledger, fresh queues, and the id counter at its start.
    #[verifier::rlimit(50)]
    fn assemble(
        data_channels: Vec<Topic>,
        instances: Vec<Instance>,
        streams: Vec<String>,
        principal: u64,
    ) -> (e: Engine)
        requires
            topic_keys_distinct(data_channels@),
            forall|i: int| 0 <= i < instances@.len() ==> (#[trigger] instances@[i]).wf(),
            forall|i: int, j: int|
                0 <= i < j < instances@.len() ==> instances@[i].symbol@ != instances@[j].symbol@,
            forall|i: int| 0 <= i < instances@.len() ==> (#[trigger] instances@[i]).open_order is None,
        ensures
            e.wf(),
            e.data_channels == data_channels,
            e.state.instances == instances,
            e.wss_streams == streams,
            e.open_orders().len() == 0,
            e.archived_orders().len() == 0,
            e.next_order_id == 1,
            e.principal == principal,
            e.state.principal == principal,
    {
        let e = Engine {
            state: State {
                instances,
                optimal_price: Vec::new(),
                profit: 0,
                principal,
                ledger: OrderLedger::new(),
            },
            data_channels,
            order_channel: Mpsc::default(),
            wss_streams: streams,
            decision: Mpsc::default(),
            principal,
            next_order_id: 1,
        };
        proof {
            assert(e.open_orders().len() == 0);
            assert(e.archived_orders().len() == 0);
            assert(e.instances() == instances@);
            assert(e.state.ledger.wf());
            assert(topic_keys_distinct(e.data_channels@));
            assert(forall|i: int|
                0 <= i < e.instances().len() ==> (#[trigger] e.instances()[i]).wf());
            assert(forall|i: int, j: int|
                0 <= i < j < e.instances().len() ==> e.instances()[i].symbol@
                    != e.instances()[j].symbol@);
            assert(forall|i: int|
                0 <= i < e.instances().len() ==> !((#[trigger] e.instances()[i]).open_order
                    is Some));
        }
        e
    }

    /// One-time wiring: validates the configuration, derives and registers
    /// every topic it implies — one candle topic per distinct
    /// (instrument, granularity) a strategy asks for, plus one best-bid/ask
    /// topic per instrument, no duplicates — builds one instance per
    /// configured instrument in `WaitBuy` with an empty ledger, and lists
    /// the exchange streams to subscribe, one per candle topic.
    #[verifier::rlimit(100)]
    pub fn new(config: Config) -> (r: Result<Engine, ConfigError>)
        ensures
            r is Ok <==> config.spec_valid(),
            r matches Ok(e) ==> {
                &&& e.wf()
                // the registry holds only topics the configuration implies
                &&& forall|t: int|
                    0 <= t < e.data_channels@.len() ==> config_implies_topic(
                        config.instances@,
                        (#[trigger] e.data_channels@[t]).key@,
                    )
                // every candle topic a strategy asks for is registered
                &&& forall|i: int, j: int|
                    0 <= i < config.instances@.len() && 0 <= j < config.instances@[
                        i
                    ].strategies@.len() ==> contains_topic(
                        e.data_channels@,
                        (
                            config.instances@[i].symbol@,
                            Category::Kline(
                                (#[trigger] config.instances@[i].strategies@[j]).spec_interval(),
                            ),
                        ),
                    )
                // every instrument's best-bid/ask topic is registered
                &&& forall|i: int|
                    0 <= i < config.instances@.len() ==> contains_topic(
                        e.data_channels@,
                        ((#[trigger] config.instances@[i]).symbol@, Category::BookTicker),
                    )
                // one instance per configured instrument, in its initial state
                &&& e.instances().len() == config.instances@.len()
                &&& forall|i: int|
                    0 <= i < config.instances@.len() ==> instance_matches_config(
                        #[trigger] e.instances()[i],
                        config.instances@[i],
                    )
                // the stream list carries exactly the candle topics' streams
                &&& forall|s: int|
                    0 <= s < e.wss_streams@.len() ==> config_implies_stream(
                        config.instances@,
                        (#[trigger] e.wss_streams@[s])@,
                    )
                &&& forall|i: int, j: int|
                    0 <= i < config.instances@.len() && 0 <= j < config.instances@[
                        i
                    ].strategies@.len() ==> contains_stream(
                        e.wss_streams@,
                        spec_stream_name(
                            config.instances@[i].symbol@,
                            (#[trigger] config.instances@[i].strategies@[j]).spec_interval(),
                        ),
                    )
                &&& forall|a: int, b: int|
                    0 <= a < b < e.wss_streams@.len() ==> e.wss_streams@[a]@ != e.wss_streams@[b]@
                // nothing is trading yet
                &&& e.open_orders().len() == 0
                &&& e.archived_orders().len() == 0
                &&& e.next_order_id == 1
                &&& e.principal == config.principal
                &&& e.state.principal == config.principal
            },
    {
        if let Err(e) = config.validate() {
            return Err(e);
        }
        let wiring = build_wiring(&config);
        let (data_channels, instances, streams) = wiring;
        proof {
            assert forall|a: int, b: int|
                0 <= a < b < instances@.len() implies instances@[a].symbol@
                != instances@[b].symbol@ by {
                assert(instance_matches_config(instances@[a], config.instances@[a]));
                assert(instance_matches_config(instances@[b], config.instances@[b]));
                assert(config.instances@[a].symbol@ != config.instances@[b].symbol@);
            }
        }
        let engine = Engine::assemble(data_channels, instances, streams, config.principal);
        Ok(engine)
    }

    /// Fan-out publication: delivers the event to its topic's subscribers,
    /// without ever blocking on them, and answers how many subscribers the
    /// topic had. An event whose topic was never registered is a
    /// construction fault and is refused loudly, never dropped in silence.
    pub fn publish(&self, data: &Data) -> (r: Result<usize, EngineError>)
        ensures
            r is Err <==> !contains_topic(self.data_channels@, data.spec_data_index()),
            r matches Err(e) ==> e == EngineError::UnknownTopic,
    {
        let key = data.data_index();
        let n = self.data_channels.len();
        let mut i: usize = 0;
        while i < n
            invariant
                i <= n,
                n == self.data_channels@.len(),
                key@ == data.spec_data_index(),
                forall|a: int|
                    0 <= a < i ==> (#[trigger] self.data_channels@[a]).key@
                        != data.spec_data_index(),
            decreases n - i,
        {
            if self.data_channels[i].key.matches(&key) {
                proof {
                    assert(contains_topic(self.data_channels@, data.spec_data_index()));
                }
                let delivered = match self.data_channels[i].channel.send(data.clone()) {
                    Ok(c) => c,
                    Err(_) => 0,
                };
                return Ok(delivered);
            }
            i = i + 1;
        }
        Err(EngineError::UnknownTopic)
    }

    /// A fresh, independent subscription to one topic: an ordered stream of
    /// the events published after this call. Refused when the key names no
    /// registered topic.
    pub fn subscribe(&self, key: &Index) -> (r: Result<
        tokio::sync::broadcast::Receiver<Data>,
        EngineError,
    >)
        ensures
            r is Ok <==> contains_topic(self.data_channels@, key@),
            r matches Err(e) ==> e == EngineError::UnknownTopic,
    {
        let n = self.data_channels.len();
        let mut i: usize = 0;
        while i < n
            invariant
                i <= n,
                n == self.data_channels@.len(),
                forall|a: int| 0 <= a < i ==> (#[trigger] self.data_channels@[a]).key@ != key@,
            decreases n - i,
        {
            if self.data_channels[i].key.matches(key) {
                proof {
                    assert(contains_topic(self.data_channels@, key@));
                }
                return Ok(self.data_channels[i].channel.subscribe());
            }
            i = i + 1;
        }
        Err(EngineError::UnknownTopic)
    }
}

impl Engine {
    /// Commits a buy the shell has placed for an instance that was watching
    /// for one: the order enters the ledger as `Committed` under a fresh
    /// id, and the instance moves to `WaitSell`. Refused when the instance
    /// index is unknown or the instance already holds an open order.
    pub fn commit_buy(
        &mut self,
        inst_idx: usize,
        buy_price: u64,
        quantity: u64,
        min_sell_price: u64,
        now: u64,
    ) -> (r: Result<u64, EngineError>)
        requires
            old(self).wf(),
            old(self).next_order_id < u64::MAX,
        ensures
            final(self).wf(),
            r is Ok <==> (inst_idx < old(self).instances().len() && old(self).instances()[
                inst_idx as int
            ].state == InstanceState::WaitBuy),
            r matches Err(_) ==> *final(self) == *old(self),
            r matches Err(e) ==> (e == EngineError::NoSuchInstance <==> inst_idx >= old(
                self,
            ).instances().len()),
            r matches Ok(id) ==> {
                let owner = old(self).instances()[inst_idx as int];
                &&& id == old(self).next_order_id
                &&& final(self).next_order_id == old(self).next_order_id + 1
                &&& final(self).open_orders() == old(self).open_orders().push(
                    Order {
                        symbol: owner.symbol,
                        id,
                        side: OrderSide::Buy,
                        quantity,
                        buy_price,
                        min_sell_price,
                        status: OrderStatus::Committed,
                        update_ts: now,
                    },
                )
                &&& final(self).archived_orders() == old(self).archived_orders()
                &&& final(self).instances().len() == old(self).instances().len()
                &&& forall|a: int|
                    0 <= a < old(self).instances().len() && a != inst_idx
                        ==> final(self).instances()[a] == old(self).instances()[a]
                &&& final(self).instances()[inst_idx as int].state == InstanceState::WaitSell
                &&& final(self).instances()[inst_idx as int].open_order == Some(id)
                &&& final(self).instances()[inst_idx as int].symbol == owner.symbol
                &&& final(self).instances()[inst_idx as int].strategies == owner.strategies
                &&& final(self).instances()[inst_idx as int].current_signals
                    == owner.current_signals
                &&& final(self).data_channels == old(self).data_channels
                &&& final(self).wss_streams == old(self).wss_streams
            },
    {
        if inst_idx >= self.state.instances.len() {
            return Err(EngineError::NoSuchInstance);
        }
        match self.state.instances[inst_idx].state {
            InstanceState::WaitSell => {
                return Err(EngineError::NotAwaitingBuy);
            },
            InstanceState::WaitBuy => {},
        }
        let id = self.next_order_id;
        let order = Order {
            symbol: self.state.instances[inst_idx].symbol.clone(),
            id,
            side: OrderSide::Buy,
            quantity,
            buy_price,
            min_sell_price,
            status: OrderStatus::Committed,
            update_ts: now,
        };
        proof {
            assert(!contains_order_id(self.state.ledger.orders@, id)) by {
                if contains_order_id(self.state.ledger.orders@, id) {
                    let w = choose|w: int|
                        0 <= w < self.state.ledger.orders@.len() && self.state.ledger.orders@[w].id
                            == id;
                    assert(self.open_orders()[w].id < self.next_order_id);
                }
            }
        }
        let recorded = self.state.ledger.record_open(order);
        proof {
            assert(recorded is Ok);
        }
        let mut inst = self.state.instances.remove(inst_idx);
        inst.state = InstanceState::WaitSell;
        inst.open_order = Some(id);
        self.state.instances.insert(inst_idx, inst);
        self.next_order_id = id + 1;
        proof {
            assert(self.instances() =~= old(self).instances().update(
                inst_idx as int,
                self.instances()[inst_idx as int],
            ));
            let pre = *old(self);
            let post = *self;
            assert(post.instances()[inst_idx as int].wf());
            assert(post.open_orders() == pre.open_orders().push(
                post.open_orders()[pre.open_orders().len() as int],
            ));
            assert forall|a: int, b: int|
                #![trigger post.instances()[a], post.open_orders()[b]]
                0 <= a < post.instances().len() && 0 <= b < post.open_orders().len()
                    && post.instances()[a].open_order is None implies post.open_orders()[b].symbol@
                != post.instances()[a].symbol@ by {
                if b < pre.open_orders().len() {
                    assert(pre.instances()[a].open_order is None);
                } else {
                    // the fresh order trades the committing instance's
                    // instrument, and that instance now holds it
                    assert(post.open_orders()[b].symbol@ == pre.instances()[
                        inst_idx as int
                    ].symbol@);
                    if a != inst_idx {
                        assert(pre.instances()[a].symbol@ != pre.instances()[
                            inst_idx as int
                        ].symbol@);
                    }
                }
            }
            assert forall|a: int|
                #![trigger post.instances()[a].open_order]
                0 <= a < post.instances().len() && post.instances()[a].open_order
                    is Some implies exists|b: int|
                0 <= b < post.open_orders().len() && (#[trigger] post.open_orders()[b].id)
                    == post.instances()[a].open_order->0 && post.open_orders()[b].symbol@
                    == post.instances()[a].symbol@ by {
                if a == inst_idx {
                    let b = pre.open_orders().len() as int;
                    assert(post.open_orders()[b].id == post.instances()[a].open_order->0
                        && post.open_orders()[b].symbol@ == post.instances()[a].symbol@);
                } else {
                    assert(pre.instances()[a].open_order is Some);
                    let w = choose|w: int|
                        0 <= w < pre.open_orders().len() && (#[trigger] pre.open_orders()[w].id)
                            == pre.instances()[a].open_order->0 && pre.open_orders()[w].symbol@
                            == pre.instances()[a].symbol@;
                    assert(post.open_orders()[w].id == post.instances()[a].open_order->0
                        && post.open_orders()[w].symbol@ == post.instances()[a].symbol@);
                }
            }
            assert forall|a: int, b: int|
                #![trigger post.instances()[a], post.open_orders()[b]]
                0 <= a < post.instances().len() && 0 <= b < post.open_orders().len()
                    && post.open_orders()[b].symbol@ == post.instances()[a].symbol@ implies post.instances()[
                a
            ].open_order == Some(post.open_orders()[b].id) by {
                if b < pre.open_orders().len() {
                    if a == inst_idx {
                        assert(pre.instances()[a].open_order is None);
                        assert(pre.open_orders()[b].symbol@ != pre.instances()[a].symbol@);
                    } else {
                        assert(pre.instances()[a].open_order == Some(pre.open_orders()[b].id));
                    }
                } else {
                    if a != inst_idx {
                        assert(pre.instances()[a].symbol@ != pre.instances()[
                            inst_idx as int
                        ].symbol@);
                    }
                }
            }
        }
        Ok(id)
    }

    /// Archives the closed order at ghost position `j` and returns its
    /// owning instance `i` to `WaitBuy`: the path of a cancellation or a
    /// filled sell.
    fn close_and_clear(&mut self, ev: &OrderUpdateEvent, i: usize, Ghost(j): Ghost<int>)
        requires
            old(self).wf(),
            0 <= j < old(self).open_orders().len(),
            old(self).open_orders()[j].id == ev.order_id,
            ev.event_time > old(self).open_orders()[j].update_ts,
            ev.status is Canceled || (ev.status is Trade && old(self).open_orders()[j].side
                is Sell),
            i < old(self).instances().len(),
            old(self).instances()[i as int].symbol@ == old(self).open_orders()[j].symbol@,
        ensures
            final(self).wf(),
            final(self).open_orders() == old(self).open_orders().remove(j),
            final(self).archived_orders() == old(self).archived_orders().push(
                merged_order(old(self).open_orders()[j], *ev),
            ),
            final(self).next_order_id == old(self).next_order_id,
            final(self).data_channels == old(self).data_channels,
            final(self).wss_streams == old(self).wss_streams,
            final(self).instances().len() == old(self).instances().len(),
            forall|a: int|
                0 <= a < old(self).instances().len() && (#[trigger] old(self).instances()[
                    a
                ]).symbol@ != old(self).open_orders()[j].symbol@ ==> final(self).instances()[a]
                    == old(self).instances()[a],
            forall|a: int|
                0 <= a < old(self).instances().len() && (#[trigger] old(self).instances()[
                    a
                ]).symbol@ == old(self).open_orders()[j].symbol@ ==> {
                    let inst = final(self).instances()[a];
                    &&& inst.state == InstanceState::WaitBuy
                    &&& inst.open_order is None
                    &&& inst.symbol == old(self).instances()[a].symbol
                    &&& inst.strategies == old(self).instances()[a].strategies
                    &&& inst.current_signals == old(self).instances()[a].current_signals
                    &&& inst.strategy_mode == old(self).instances()[a].strategy_mode
                },
    {
        let ghost sym = old(self).open_orders()[j].symbol@;
        let outcome = self.state.ledger.apply_update(ev);
        proof {
            assert(outcome == UpdateOutcome::Closed);
        }
        let mut inst = self.state.instances.remove(i);
        inst.state = InstanceState::WaitBuy;
        inst.open_order = None;
        self.state.instances.insert(i, inst);
        proof {
            let pre = *old(self);
            let post = *self;
            assert(post.instances() =~= pre.instances().update(
                i as int,
                post.instances()[i as int],
            ));
            assert(post.instances()[i as int].wf());
            // only the closed order traded this instrument
            assert forall|b: int|
                0 <= b < post.open_orders().len() implies (#[trigger] post.open_orders()[
                b
            ]).symbol@ != sym by {
                let src = if b < j {
                    b
                } else {
                    b + 1
                };
                assert(post.open_orders()[b] == pre.open_orders()[src]);
                if pre.open_orders()[src].symbol@ == sym {
                    assert(pre.instances()[i as int].open_order == Some(
                        pre.open_orders()[src].id,
                    ));
                    assert(pre.instances()[i as int].open_order == Some(pre.open_orders()[j].id));
                    if src != j {
                        assert(pre.open_orders()[src].id != pre.open_orders()[j].id);
                    }
                }
            }
            assert forall|a: int|
                #![trigger post.instances()[a].open_order]
                0 <= a < post.instances().len() && post.instances()[a].open_order
                    is Some implies exists|b: int|
                0 <= b < post.open_orders().len() && (#[trigger] post.open_orders()[b].id)
                    == post.instances()[a].open_order->0 && post.open_orders()[b].symbol@
                    == post.instances()[a].symbol@ by {
                assert(a != i);
                assert(pre.instances()[a].open_order is Some);
                let w = choose|w: int|
                    0 <= w < pre.open_orders().len() && (#[trigger] pre.open_orders()[w].id)
                        == pre.instances()[a].open_order->0 && pre.open_orders()[w].symbol@
                        == pre.instances()[a].symbol@;
                assert(pre.open_orders()[w].symbol@ == pre.instances()[a].symbol@);
                if w == j {
                    assert(pre.instances()[a].symbol@ == sym);
                    assert(pre.instances()[i as int].open_order == Some(pre.open_orders()[j].id));
                    assert(false);
                }
                let b = if w < j {
                    w
                } else {
                    w - 1
                };
                assert(post.open_orders()[b] == pre.open_orders()[w]);
                assert(post.open_orders()[b].id == post.instances()[a].open_order->0
                    && post.open_orders()[b].symbol@ == post.instances()[a].symbol@);
            }
            assert forall|a: int, b: int|
                #![trigger post.instances()[a], post.open_orders()[b]]
                0 <= a < post.instances().len() && 0 <= b < post.open_orders().len() implies ((
            post.instances()[a].open_order is None ==> post.open_orders()[b].symbol@
                != post.instances()[a].symbol@) && (post.open_orders()[b].symbol@
                == post.instances()[a].symbol@ ==> post.instances()[a].open_order == Some(
                post.open_orders()[b].id,
            ))) by {
                let src = if b < j {
                    b
                } else {
                    b + 1
                };
                assert(post.open_orders()[b] == pre.open_orders()[src]);
                if a != i {
                    assert(post.instances()[a] == pre.instances()[a]);
                } else {
                    assert(post.open_orders()[b].symbol@ != sym);
                }
            }
        }
    }

    /// Archives the filled buy at ghost position `j` and commits the
    /// follow-up sell for its owning instance `i` under a fresh id, the
    /// instance staying in `WaitSell` holding it. Answers the sell's id.
    fn close_and_roll(
        &mut self,
        ev: &OrderUpdateEvent,
        now: u64,
        o: Order,
        i: usize,
        Ghost(j): Ghost<int>,
    ) -> (sell_id: u64)
        requires
            old(self).wf(),
            old(self).next_order_id < u64::MAX,
            0 <= j < old(self).open_orders().len(),
            o == old(self).open_orders()[j],
            o.id == ev.order_id,
            ev.event_time > o.update_ts,
            ev.status is Trade,
            o.side is Buy,
            i < old(self).instances().len(),
            old(self).instances()[i as int].symbol@ == o.symbol@,
        ensures
            final(self).wf(),
            sell_id == old(self).next_order_id,
            final(self).next_order_id == old(self).next_order_id + 1,
            final(self).open_orders() == old(self).open_orders().remove(j).push(
                Order {
                    symbol: old(self).open_orders()[j].symbol,
                    id: old(self).next_order_id,
                    side: OrderSide::Sell,
                    quantity: old(self).open_orders()[j].quantity,
                    buy_price: old(self).open_orders()[j].buy_price,
                    min_sell_price: old(self).open_orders()[j].min_sell_price,
                    status: OrderStatus::Committed,
                    update_ts: now,
                },
            ),
            final(self).archived_orders() == old(self).archived_orders().push(
                merged_order(old(self).open_orders()[j], *ev),
            ),
            final(self).data_channels == old(self).data_channels,
            final(self).wss_streams == old(self).wss_streams,
            final(self).instances().len() == old(self).instances().len(),
            forall|a: int|
                0 <= a < old(self).instances().len() && (#[trigger] old(self).instances()[
                    a
                ]).symbol@ != old(self).open_orders()[j].symbol@ ==> final(self).instances()[a]
                    == old(self).instances()[a],
            forall|a: int|
                0 <= a < old(self).instances().len() && (#[trigger] old(self).instances()[
                    a
                ]).symbol@ == old(self).open_orders()[j].symbol@ ==> {
                    let inst = final(self).instances()[a];
                    &&& inst.state == InstanceState::WaitSell
                    &&& inst.open_order == Some(old(self).next_order_id)
                    &&& inst.symbol == old(self).instances()[a].symbol
                    &&& inst.strategies == old(self).instances()[a].strategies
                    &&& inst.current_signals == old(self).instances()[a].current_signals
                    &&& inst.strategy_mode == old(self).instances()[a].strategy_mode
                },
    {
        let ghost sym = o.symbol@;
        let outcome = self.state.ledger.apply_update(ev);
        proof {
            assert(outcome == UpdateOutcome::Closed);
        }
        let sell_id = self.next_order_id;
        let sell = Order {
            symbol: o.symbol,
            id: sell_id,
            side: OrderSide::Sell,
            quantity: o.quantity,
            buy_price: o.buy_price,
            min_sell_price: o.min_sell_price,
            status: OrderStatus::Committed,
            update_ts: now,
        };
        proof {
            assert(!contains_order_id(self.state.ledger.orders@, sell_id)) by {
                if contains_order_id(self.state.ledger.orders@, sell_id) {
                    let w = choose|w: int|
                        0 <= w < self.state.ledger.orders@.len() && self.state.ledger.orders@[w].id
                            == sell_id;
                    let src = if w < j {
                        w
                    } else {
                        w + 1
                    };
                    assert(self.state.ledger.orders@[w] == old(self).open_orders()[src]);
                    assert(old(self).open_orders()[src].id < old(self).next_order_id);
                }
            }
        }
        let recorded = self.state.ledger.record_open(sell);
        proof {
            assert(recorded is Ok);
        }
        let mut inst = self.state.instances.remove(i);
        inst.open_order = Some(sell_id);
        self.state.instances.insert(i, inst);
        self.next_order_id = sell_id + 1;
        proof {
            let pre = *old(self);
            let post = *self;
            assert(post.instances() =~= pre.instances().update(
                i as int,
                post.instances()[i as int],
            ));
            assert(pre.instances()[i as int].open_order == Some(pre.open_orders()[j].id));
            assert(pre.instances()[i as int].state == InstanceState::WaitSell);
            assert(post.instances()[i as int].wf());
            let removed = pre.open_orders().remove(j);
            assert(post.open_orders() == removed.push(sell));
            // among the orders that survive the close, none trades this instrument
            assert forall|b: int|
                0 <= b < removed.len() implies (#[trigger] removed[b]).symbol@ != sym by {
                let src = if b < j {
                    b
                } else {
                    b + 1
                };
                assert(removed[b] == pre.open_orders()[src]);
                if pre.open_orders()[src].symbol@ == sym {
                    assert(pre.instances()[i as int].open_order == Some(
                        pre.open_orders()[src].id,
                    ));
                    if src != j {
                        assert(pre.open_orders()[src].id != pre.open_orders()[j].id);
                    }
                }
            }
            assert forall|a: int|
                #![trigger post.instances()[a].open_order]
                0 <= a < post.instances().len() && post.instances()[a].open_order
                    is Some implies exists|b: int|
                0 <= b < post.open_orders().len() && (#[trigger] post.open_orders()[b].id)
                    == post.instances()[a].open_order->0 && post.open_orders()[b].symbol@
                    == post.instances()[a].symbol@ by {
                if a == i {
                    let b = removed.len() as int;
                    assert(post.open_orders()[b] == sell);
                    assert(post.open_orders()[b].id == post.instances()[a].open_order->0
                        && post.open_orders()[b].symbol@ == post.instances()[a].symbol@);
                } else {
                    assert(pre.instances()[a].open_order is Some);
                    let w = choose|w: int|
                        0 <= w < pre.open_orders().len() && (#[trigger] pre.open_orders()[w].id)
                            == pre.instances()[a].open_order->0 && pre.open_orders()[w].symbol@
                            == pre.instances()[a].symbol@;
                    if w == j {
                        assert(pre.instances()[i as int].open_order == Some(
                            pre.open_orders()[j].id,
                        ));
                        assert(false);
                    }
                    let b = if w < j {
                        w
                    } else {
                        w - 1
                    };
                    assert(post.open_orders()[b] == pre.open_orders()[w]);
                    assert(post.open_orders()[b].id == post.instances()[a].open_order->0
                        && post.open_orders()[b].symbol@ == post.instances()[a].symbol@);
                }
            }
            assert forall|a: int, b: int|
                #![trigger post.instances()[a], post.open_orders()[b]]
                0 <= a < post.instances().len() && 0 <= b < post.open_orders().len() implies ((
            post.instances()[a].open_order is None ==> post.open_orders()[b].symbol@
                != post.instances()[a].symbol@) && (post.open_orders()[b].symbol@
                == post.instances()[a].symbol@ ==> post.instances()[a].open_order == Some(
                post.open_orders()[b].id,
            ))) by {
                if b < removed.len() {
                    assert(post.open_orders()[b] == removed[b]);
                    assert(removed[b].symbol@ != sym);
                    if a != i {
                        assert(post.instances()[a] == pre.instances()[a]);
                        let src = if b < j {
                            b
                        } else {
                            b + 1
                        };
                        assert(removed[b] == pre.open_orders()[src]);
                    }
                } else {
                    assert(post.open_orders()[b] == sell);
                    if a != i {
                        assert(pre.instances()[a].symbol@ != pre.instances()[i as int].symbol@);
                        assert(post.instances()[a] == pre.instances()[a]);
                    }
                }
            }
        }
        sell_id
    }

    /// What the shell must do at the exchange after instance `inst_idx`
    /// decides: a Buy decision while watching for a buy asks for a limit
    /// buy on the instrument; a Sell decision while the resting open order
    /// is still the buy asks to revoke it; every other combination asks
    /// nothing.
    pub fn decide_action(&self, inst_idx: usize, decision: Signal) -> (r: Result<
        Option<TradeAction>,
        EngineError,
    >)
        requires
            self.wf(),
        ensures
            r is Err <==> inst_idx >= self.instances().len(),
            r matches Err(e) ==> e == EngineError::NoSuchInstance,
            r matches Ok(act) ==> {
                let inst = self.instances()[inst_idx as int];
                &&& (inst.state == InstanceState::WaitBuy && decision == Signal::Buy) ==> (
                act matches Some(TradeAction::PlaceBuy { symbol }) && symbol@ == inst.symbol@)
                &&& (inst.state == InstanceState::WaitBuy && decision != Signal::Buy) ==> act
                    is None
                &&& inst.state == InstanceState::WaitSell ==> forall|b: int|
                    0 <= b < self.open_orders().len() && (#[trigger] self.open_orders()[b]).id
                        == inst.open_order->0 ==> {
                        if decision == Signal::Sell && self.open_orders()[b].side is Buy {
                            act matches Some(TradeAction::Revoke { symbol, order_id })
                                && symbol@ == inst.symbol@ && order_id == self.open_orders()[b].id
                        } else {
                            act is None
                        }
                    }
            },
    {
        if inst_idx >= self.state.instances.len() {
            return Err(EngineError::NoSuchInstance);
        }
        let inst = &self.state.instances[inst_idx];
        match inst.state {
            InstanceState::WaitBuy => {
                if decision == Signal::Buy {
                    Ok(Some(TradeAction::PlaceBuy { symbol: inst.symbol.clone() }))
                } else {
                    Ok(None)
                }
            },
            InstanceState::WaitSell => {
                if decision != Signal::Sell {
                    return Ok(None);
                }
                let id = match inst.open_order {
                    Some(id) => id,
                    None => {
                        proof {
                            assert(self.instances()[inst_idx as int].wf());
                            assert(false);
                        }
                        return Ok(None);
                    },
                };
                let resting = self.state.ledger.open_order(id);
                match resting {
                    Some(o) => {
                        proof {
                            let w = choose|w: int|
                                0 <= w < self.open_orders().len() && self.open_orders()[w].id == id
                                    && o == self.open_orders()[w];
                            assert forall|b: int|
                                0 <= b < self.open_orders().len() && (
                                #[trigger] self.open_orders()[b]).id == id implies self.open_orders()[
                                b
                            ] == o by {
                                if b < w {
                                    assert(self.open_orders()[b].id != self.open_orders()[w].id);
                                }
                                if w < b {
                                    assert(self.open_orders()[w].id != self.open_orders()[b].id);
                                }
                            }
                        }
                        if o.side == OrderSide::Buy {
                            Ok(
                                Some(
                                    TradeAction::Revoke {
                                        symbol: inst.symbol.clone(),
                                        order_id: id,
                                    },
                                ),
                            )
                        } else {
                            Ok(None)
                        }
                    },
                    None => {
                        proof {
                            // a WaitSell instance always has its open order
                            // in the ledger
                            assert(self.instances()[inst_idx as int].open_order is Some);
                            assert(contains_order_id(self.open_orders(), id)) by {
                                let w = choose|w: int|
                                    0 <= w < self.open_orders().len() && (
                                    #[trigger] self.open_orders()[w].id) == self.instances()[
                                        inst_idx as int
                                    ].open_order->0 && self.open_orders()[w].symbol@
                                        == self.instances()[inst_idx as int].symbol@;
                                assert(self.open_orders()[w].id == id);
                            }
                            assert(false);
                        }
                        Ok(None)
                    },
                }
            },
        }
    }

    /// The position of the instance trading `symbol`, if one is configured.
    fn find_instance(&self, symbol: &String) -> (r: Option<usize>)
        ensures
            match r {
                Some(i) => i < self.instances().len() && self.instances()[i as int].symbol@
                    == symbol@,
                None => forall|i: int|
                    0 <= i < self.instances().len() ==> (#[trigger] self.instances()[i]).symbol@
                        != symbol@,
            },
    {
        let n = self.state.instances.len();
        let mut i: usize = 0;
        while i < n
            invariant
                i <= n,
                n == self.instances().len(),
                forall|a: int| 0 <= a < i ==> (#[trigger] self.instances()[a]).symbol@ != symbol@,
            decreases n - i,
        {
            if self.state.instances[i].symbol.eq(symbol) {
                return Some(i);
            }
            i = i + 1;
        }
        None
    }

    /// Merges one exchange order update and drives the owning instance: a
    /// filled buy is archived and the follow-up sell is committed under a
    /// fresh id, the instance staying in `WaitSell` holding it; a filled
    /// sell or a cancellation archives the order and returns the instance
    /// to `WaitBuy`; stale, unknown and unrecognized updates change
    /// nothing. The new sell order starts at time `now`.
    #[verifier::rlimit(50)]
    pub fn apply_order_update(&mut self, ev: &OrderUpdateEvent, now: u64) -> (r: OrderReaction)
        requires
            old(self).wf(),
            old(self).next_order_id < u64::MAX,
        ensures
            final(self).wf(),
            r == OrderReaction::Dropped <==> !contains_order_id(
                old(self).open_orders(),
                ev.order_id,
            ),
            r == OrderReaction::Dropped ==> *final(self) == *old(self),
            final(self).data_channels == old(self).data_channels,
            final(self).wss_streams == old(self).wss_streams,
            final(self).instances().len() == old(self).instances().len(),
            forall|j: int|
                0 <= j < old(self).open_orders().len() && (#[trigger] old(self).open_orders()[
                    j
                ]).id == ev.order_id ==> {
                    let o = old(self).open_orders()[j];
                    &&& !ledger::update_applies(o, *ev) ==> {
                        &&& r == (if ev.event_time > o.update_ts {
                            OrderReaction::Ignored
                        } else {
                            OrderReaction::Stale
                        })
                        &&& final(self).open_orders() == old(self).open_orders()
                        &&& final(self).archived_orders() == old(self).archived_orders()
                        &&& final(self).state.instances == old(self).state.instances
                        &&& final(self).next_order_id == old(self).next_order_id
                    }
                    &&& ledger::update_applies(o, *ev) && ev.status is New ==> {
                        &&& r == OrderReaction::Acknowledged
                        &&& final(self).open_orders() == old(self).open_orders().update(
                            j,
                            merged_order(o, *ev),
                        )
                        &&& final(self).archived_orders() == old(self).archived_orders()
                        &&& final(self).state.instances == old(self).state.instances
                        &&& final(self).next_order_id == old(self).next_order_id
                    }
                    &&& ledger::update_applies(o, *ev) && (ev.status is Canceled || (ev.status
                        is Trade && o.side is Sell)) ==> {
                        &&& r == (if ev.status is Canceled {
                            OrderReaction::Cancelled
                        } else {
                            OrderReaction::Settled
                        })
                        &&& final(self).open_orders() == old(self).open_orders().remove(j)
                        &&& final(self).archived_orders() == old(self).archived_orders().push(
                            merged_order(o, *ev),
                        )
                        &&& final(self).next_order_id == old(self).next_order_id
                        &&& forall|i: int|
                            0 <= i < old(self).instances().len() && (#[trigger] old(
                                self,
                            ).instances()[i]).symbol@ != o.symbol@ ==> final(self).instances()[i]
                                == old(self).instances()[i]
                        &&& forall|i: int|
                            0 <= i < old(self).instances().len() && (#[trigger] old(
                                self,
                            ).instances()[i]).symbol@ == o.symbol@ ==> {
                                let inst = final(self).instances()[i];
                                &&& inst.state == InstanceState::WaitBuy
                                &&& inst.open_order is None
                                &&& inst.symbol == old(self).instances()[i].symbol
                                &&& inst.strategies == old(self).instances()[i].strategies
                                &&& inst.current_signals == old(self).instances()[i].current_signals
                                &&& inst.strategy_mode == old(self).instances()[i].strategy_mode
                            }
                    }
                    &&& ledger::update_applies(o, *ev) && ev.status is Trade && o.side is Buy
                        ==> {
                        if has_owner(old(self).instances(), o.symbol@) {
                            &&& r == OrderReaction::SellPlaced(old(self).next_order_id)
                            &&& final(self).open_orders() == old(self).open_orders().remove(j).push(
                                Order {
                                    symbol: o.symbol,
                                    id: old(self).next_order_id,
                                    side: OrderSide::Sell,
                                    quantity: o.quantity,
                                    buy_price: o.buy_price,
                                    min_sell_price: o.min_sell_price,
                                    status: OrderStatus::Committed,
                                    update_ts: now,
                                },
                            )
                            &&& final(self).archived_orders() == old(
                                self,
                            ).archived_orders().push(merged_order(o, *ev))
                            &&& final(self).next_order_id == old(self).next_order_id + 1
                            &&& forall|i: int|
                                0 <= i < old(self).instances().len() && (#[trigger] old(
                                    self,
                                ).instances()[i]).symbol@ != o.symbol@
                                    ==> final(self).instances()[i] == old(self).instances()[i]
                            &&& forall|i: int|
                                0 <= i < old(self).instances().len() && (#[trigger] old(
                                    self,
                                ).instances()[i]).symbol@ == o.symbol@ ==> {
                                    let inst = final(self).instances()[i];
                                    &&& inst.state == InstanceState::WaitSell
                                    &&& inst.open_order == Some(old(self).next_order_id)
                                    &&& inst.symbol == old(self).instances()[i].symbol
                                    &&& inst.strategies == old(self).instances()[i].strategies
                                    &&& inst.current_signals == old(self).instances()[
                                        i
                                    ].current_signals
                                    &&& inst.strategy_mode == old(self).instances()[
                                        i
                                    ].strategy_mode
                                }
                        } else {
                            &&& r == OrderReaction::Settled
                            &&& final(self).open_orders() == old(self).open_orders().remove(j)
                            &&& final(self).archived_orders() == old(
                                self,
                            ).archived_orders().push(merged_order(o, *ev))
                            &&& final(self).state.instances == old(self).state.instances
                            &&& final(self).next_order_id == old(self).next_order_id
                        }
                    }
                },
    {
        let found = self.state.ledger.open_order(ev.order_id);
        let o = match found {
            None => {
                return OrderReaction::Dropped;
            },
            Some(o) => o,
        };
        let ghost j = choose|j: int|
            0 <= j < self.open_orders().len() && self.open_orders()[j].id == ev.order_id;
        proof {
            let w = choose|w: int|
                0 <= w < self.open_orders().len() && self.open_orders()[w].id == ev.order_id && o
                    == self.open_orders()[w];
            if w < j {
                assert(self.open_orders()[w].id != self.open_orders()[j].id);
            }
            if j < w {
                assert(self.open_orders()[j].id != self.open_orders()[w].id);
            }
            assert(o == self.open_orders()[j]);
        }
        if ev.event_time <= o.update_ts {
            let outcome = self.state.ledger.apply_update(ev);
            proof {
                assert(outcome == UpdateOutcome::Stale);
            }
            return OrderReaction::Stale;
        }
        match ev.status {
            UpdateStatus::Unrecognized => {
                let outcome = self.state.ledger.apply_update(ev);
                proof {
                    assert(outcome == UpdateOutcome::Ignored);
                }
                OrderReaction::Ignored
            },
            UpdateStatus::New => {
                let outcome = self.state.ledger.apply_update(ev);
                proof {
                    assert(outcome == UpdateOutcome::Updated);
                    let pre = *old(self);
                    let post = *self;
                    assert(merged_order(pre.open_orders()[j], *ev).id == pre.open_orders()[j].id);
                    assert(merged_order(pre.open_orders()[j], *ev).symbol == pre.open_orders()[
                        j
                    ].symbol);
                    assert forall|a: int|
                        #![trigger post.instances()[a].open_order]
                        0 <= a < post.instances().len() && post.instances()[a].open_order
                            is Some implies exists|b: int|
                        0 <= b < post.open_orders().len() && (#[trigger] post.open_orders()[b].id)
                            == post.instances()[a].open_order->0 && post.open_orders()[b].symbol@
                            == post.instances()[a].symbol@ by {
                        let w = choose|w: int|
                            0 <= w < pre.open_orders().len() && (#[trigger] pre.open_orders()[
                                w
                            ].id) == pre.instances()[a].open_order->0 && pre.open_orders()[
                                w
                            ].symbol@ == pre.instances()[a].symbol@;
                        assert(post.open_orders()[w].id == post.instances()[a].open_order->0
                            && post.open_orders()[w].symbol@ == post.instances()[a].symbol@);
                    }
                }
                OrderReaction::Acknowledged
            },
            UpdateStatus::Canceled | UpdateStatus::Trade => {
                let owner = self.find_instance(&o.symbol);
                match owner {
                    None => {
                        proof {
                            assert(!has_owner(self.instances(), o.symbol@));
                        }
                        let outcome = self.state.ledger.apply_update(ev);
                        proof {
                            assert(outcome == UpdateOutcome::Closed);
                            let pre = *old(self);
                            let post = *self;
                            assert(post.open_orders() == pre.open_orders().remove(j));
                            assert(post.archived_orders() == pre.archived_orders().push(
                                merged_order(pre.open_orders()[j], *ev),
                            ) && merged_order(pre.open_orders()[j], *ev).id == pre.open_orders()[
                                j
                            ].id);
                            lemma_remove_keeps_agreement(&pre, &post, j, o.symbol@);
                        }
                        if ev.status == UpdateStatus::Canceled {
                            OrderReaction::Cancelled
                        } else {
                            OrderReaction::Settled
                        }
                    },
                    Some(i) => {
                        proof {
                            assert(has_owner(self.instances(), o.symbol@));
                        }
                        if ev.status == UpdateStatus::Trade && o.side == OrderSide::Buy {
                            let sell_id = self.close_and_roll(ev, now, o, i, Ghost(j));
                            OrderReaction::SellPlaced(sell_id)
                        } else {
                            self.close_and_clear(ev, i, Ghost(j));
                            if ev.status == UpdateStatus::Canceled {
                                OrderReaction::Cancelled
                            } else {
                                OrderReaction::Settled
                            }
                        }
                    },
                }
            },
        }
    }
}

/// Closing one open order whose instrument no configured instance trades
/// keeps the engine invariant: the instances never referenced it.
proof fn lemma_remove_keeps_agreement(pre: &Engine, post: &Engine, j: int, sym: Seq<char>)
    requires
        pre.wf(),
        0 <= j < pre.open_orders().len(),
        pre.open_orders()[j].symbol@ == sym,
        forall|i: int|
            0 <= i < pre.instances().len() ==> (#[trigger] pre.instances()[i]).symbol@ != sym,
        post.state.instances == pre.state.instances,
        post.state.ledger.wf(),
        post.open_orders() == pre.open_orders().remove(j),
        exists|closed: Order|
            post.archived_orders() == pre.archived_orders().push(closed) && (#[trigger] closed.id)
                == pre.open_orders()[j].id,
        post.next_order_id == pre.next_order_id,
        post.data_channels == pre.data_channels,
    ensures
        post.wf(),
{
    assert(forall|b: int| 0 <= b < j ==> post.open_orders()[b] == pre.open_orders()[b]);
    assert(forall|b: int|
        j <= b < post.open_orders().len() ==> post.open_orders()[b] == pre.open_orders()[b + 1]);
    assert forall|b: int|
        0 <= b < post.open_orders().len() implies (#[trigger] post.open_orders()[b]).id
        < post.next_order_id && !post.open_orders()[b].status.is_terminal() by {
        let src = if b < j {
            b
        } else {
            b + 1
        };
        assert(post.open_orders()[b] == pre.open_orders()[src]);
    }
    assert forall|a: int|
        #![trigger post.instances()[a].open_order]
        0 <= a < post.instances().len() && post.instances()[a].open_order
            is Some implies exists|b: int|
        0 <= b < post.open_orders().len() && (#[trigger] post.open_orders()[b].id)
            == post.instances()[a].open_order->0 && post.open_orders()[b].symbol@
            == post.instances()[a].symbol@ by {
        assert(pre.instances()[a].open_order is Some);
        let w = choose|w: int|
            0 <= w < pre.open_orders().len() && (#[trigger] pre.open_orders()[w].id)
                == pre.instances()[a].open_order->0 && pre.open_orders()[w].symbol@
                == pre.instances()[a].symbol@;
        assert(pre.open_orders()[w].symbol@ == pre.instances()[a].symbol@);
        assert(pre.instances()[a].symbol@ != sym);
        assert(w != j);
        let b = if w < j {
            w
        } else {
            w - 1
        };
        assert(post.open_orders()[b] == pre.open_orders()[w]);
        assert(post.open_orders()[b].id == post.instances()[a].open_order->0
            && post.open_orders()[b].symbol@ == post.instances()[a].symbol@);
    }
    assert forall|a: int, b: int|
        #![trigger post.instances()[a], post.open_orders()[b]]
        0 <= a < post.instances().len() && 0 <= b < post.open_orders().len() implies ((
    post.instances()[a].open_order is None ==> post.open_orders()[b].symbol@ != post.instances()[
        a
    ].symbol@) && (post.open_orders()[b].symbol@ == post.instances()[a].symbol@
        ==> post.instances()[a].open_order == Some(post.open_orders()[b].id))) by {
        let src = if b < j {
            b
        } else {
            b + 1
        };
        assert(post.open_orders()[b] == pre.open_orders()[src]);
        assert(post.instances()[a] == pre.instances()[a]);
    }
}

/// The lifecycle/ledger agreement, both ways: in a well-formed engine an
/// instance stands in `WaitSell` exactly when the ledger holds an open
/// order on its instrument — and then exactly one, as the companion lemma
/// shows.
pub proof fn lemma_waitsell_iff_open_order(e: &Engine, i: int)
    requires
        e.wf(),
        0 <= i < e.instances().len(),
    ensures
        (e.instances()[i].state == InstanceState::WaitSell) <==> exists|j: int|
            0 <= j < e.open_orders().len() && (#[trigger] e.open_orders()[j]).symbol@
                == e.instances()[i].symbol@,
{
    assert(e.instances()[i].wf());
    if e.instances()[i].state == InstanceState::WaitSell {
        assert(e.instances()[i].open_order is Some);
        let w = choose|w: int|
            0 <= w < e.open_orders().len() && (#[trigger] e.open_orders()[w].id)
                == e.instances()[i].open_order->0 && e.open_orders()[w].symbol@
                == e.instances()[i].symbol@;
        assert(e.open_orders()[w].symbol@ == e.instances()[i].symbol@);
    }
    if exists|j: int|
        0 <= j < e.open_orders().len() && (#[trigger] e.open_orders()[j]).symbol@
            == e.instances()[i].symbol@ {
        let j = choose|j: int|
            0 <= j < e.open_orders().len() && (#[trigger] e.open_orders()[j]).symbol@
                == e.instances()[i].symbol@;
        assert(e.instances()[i].open_order == Some(e.open_orders()[j].id));
    }
}

/// An instance never has two concurrently open orders: in a well-formed
/// engine, any open order on an instance's instrument is the one order its
/// open-order slot names, the instance stands in `WaitSell` while it is
/// open, and an instance watching for a buy has no open order at all.
pub proof fn lemma_at_most_one_open_order(e: &Engine, i: int, j: int)
    requires
        e.wf(),
        0 <= i < e.instances().len(),
        0 <= j < e.open_orders().len(),
        e.open_orders()[j].symbol@ == e.instances()[i].symbol@,
    ensures
        e.instances()[i].open_order == Some(e.open_orders()[j].id),
        e.instances()[i].state == InstanceState::WaitSell,
        forall|k: int|
            0 <= k < e.open_orders().len() && (#[trigger] e.open_orders()[k]).symbol@
                == e.instances()[i].symbol@ ==> k == j,
{
    assert(e.instances()[i].wf());
    assert forall|k: int|
        0 <= k < e.open_orders().len() && (#[trigger] e.open_orders()[k]).symbol@
            == e.instances()[i].symbol@ implies k == j by {
        assert(e.instances()[i].open_order == Some(e.open_orders()[k].id));
        if k != j {
            assert(e.open_orders()[k].id != e.open_orders()[j].id);
        }
    }
}

} // verus!
