use bq::config::Config;
use bq::config::ConfigError;
use bq::config::Strategy as StrategyConfig;
use bq::config::StrategyMode;
use bq::config::StrategyType;
use bq::instance::Instance;
use bq::instance::State;
use bq::instance::StrategySignal;
use bq::ledger::Order;
use bq::ledger::OrderLedger;
use bq::ledger::OrderSide;
use bq::ledger::OrderStatus;
use bq::ledger::OrderUpdateEvent;
use bq::ledger::UpdateOutcome;
use bq::ledger::UpdateStatus;
use bq::market::stream_name;
use bq::market::Category;
use bq::market::Data;
use bq::market::DataCategory;
use bq::market::DataId;
use bq::market::DataIndex;
use bq::market::Index;
use bq::market::Kline;
use bq::market::KlineEvent;
use bq::market::KlineInterval;
use bq::market::Signal;
use bq::strategy::Strategies;
use bq::strategy::Strategy;
use bq::Engine;
use bq::EngineError;
use bq::RelativeStrengthIndex;

#[test]
fn test_it() {}

fn rsi_entry(interval: KlineInterval, period: u64, buy: u64, sell: u64) -> StrategyConfig {
    StrategyConfig::Rsi {
        strategy_type: StrategyType::RSI,
        interval,
        period,
        buy_threshold: buy,
        sell_threshold: sell,
        id: String::new(),
    }
}

fn atr_entry(interval: KlineInterval, period: u64) -> StrategyConfig {
    StrategyConfig::Atr {
        strategy_type: StrategyType::ATR,
        interval,
        period,
        threshold: 0,
        id: String::new(),
    }
}

fn one_instrument_config() -> Config {
    Config {
        principal: 1_000_00,
        instances: vec![bq::config::Instance {
            symbol: "BTCUSDT".to_string(),
            mode: StrategyMode::Or,
            strategies: vec![
                rsi_entry(KlineInterval::Hour1, 14, 3000, 7000),
                atr_entry(KlineInterval::Hour4, 14),
            ],
            stop_loss: 0,
            principal: 500_00,
            id: String::new(),
        }],
    }
}

fn candle(symbol: &str, interval: KlineInterval, event_time: u64, close: u64) -> Data {
    Data::Kline(KlineEvent {
        symbol: symbol.to_string(),
        event_time,
        kline: Kline { interval, open: close, high: close + 1, low: close - 1, close },
    })
}

// The registry holds one candle topic per configured (instrument,
// granularity) and one best-bid/ask topic per instrument, and nothing else.
#[test]
fn registry_has_exactly_the_implied_topics() {
    let engine = Engine::new(one_instrument_config()).unwrap();
    let sym = "BTCUSDT".to_string();
    assert!(engine
        .subscribe(&Index::new(sym.clone(), Category::Kline(KlineInterval::Hour1)))
        .is_ok());
    assert!(engine
        .subscribe(&Index::new(sym.clone(), Category::Kline(KlineInterval::Hour4)))
        .is_ok());
    assert!(engine.subscribe(&Index::new(sym.clone(), Category::BookTicker)).is_ok());
    // not implied: another granularity, another instrument
    assert_eq!(
        engine
            .subscribe(&Index::new(sym.clone(), Category::Kline(KlineInterval::Day1)))
            .err(),
        Some(EngineError::UnknownTopic)
    );
    assert_eq!(
        engine
            .subscribe(&Index::new("ETHUSDT".to_string(), Category::BookTicker))
            .err(),
        Some(EngineError::UnknownTopic)
    );
    // one candle stream per (instrument, granularity)
    let mut streams = engine.wss_streams.clone();
    streams.sort();
    assert_eq!(streams, vec!["btcusdt@kline_1h".to_string(), "btcusdt@kline_4h".to_string()]);
}

#[test]
fn publish_routes_by_topic_and_refuses_unknown_topics() {
    let engine = Engine::new(one_instrument_config()).unwrap();
    let mut rx = engine
        .subscribe(&Index::new("BTCUSDT".to_string(), Category::Kline(KlineInterval::Hour1)))
        .unwrap();
    let event = candle("BTCUSDT", KlineInterval::Hour1, 7, 100);
    assert_eq!(engine.publish(&event).unwrap(), 1);
    let delivered = rx.try_recv().unwrap();
    assert_eq!(delivered.data_id(), 7);
    assert_eq!(delivered.data_category(), Category::Kline(KlineInterval::Hour1));
    // an event for an unregistered topic is refused loudly
    let stray = candle("BTCUSDT", KlineInterval::Day1, 8, 100);
    assert_eq!(engine.publish(&stray).err(), Some(EngineError::UnknownTopic));
}

#[test]
fn rejects_bad_configurations() {
    let mut config = one_instrument_config();
    config.instances[0].symbol = "btcusdt".to_string();
    assert_eq!(Engine::new(config).err(), Some(ConfigError::InvalidSymbol));

    let mut config = one_instrument_config();
    config.instances.push(bq::config::Instance {
        symbol: "BTCUSDT".to_string(),
        mode: StrategyMode::Or,
        strategies: vec![],
        stop_loss: 0,
        principal: 0,
        id: String::new(),
    });
    assert_eq!(Engine::new(config).err(), Some(ConfigError::DuplicateSymbol));

    let mut config = one_instrument_config();
    config.instances[0].strategies[0] = rsi_entry(KlineInterval::Hour1, 0, 3000, 7000);
    assert_eq!(Engine::new(config).err(), Some(ConfigError::InvalidStrategyParams));

    let mut config = one_instrument_config();
    config.instances[0].strategies[0] = rsi_entry(KlineInterval::Hour1, 14, 20000, 7000);
    assert_eq!(Engine::new(config).err(), Some(ConfigError::InvalidStrategyParams));
}

fn fresh_order(id: u64, symbol: &str) -> Order {
    Order {
        symbol: symbol.to_string(),
        id,
        side: OrderSide::Buy,
        quantity: 10,
        buy_price: 1000,
        min_sell_price: 1010,
        status: OrderStatus::Committed,
        update_ts: 0,
    }
}

// A stale update never overwrites a newer one: New at time 100, then
// Canceled at time 50, leaves the order Accepted.
#[test]
fn stale_update_is_ignored() {
    let mut ledger = OrderLedger::new();
    ledger.record_open(fresh_order(1, "BTCUSDT")).unwrap();
    let newer = OrderUpdateEvent {
        order_id: 1,
        symbol: "BTCUSDT".to_string(),
        status: UpdateStatus::New,
        event_time: 100,
    };
    assert_eq!(ledger.apply_update(&newer), UpdateOutcome::Updated);
    let stale = OrderUpdateEvent {
        order_id: 1,
        symbol: "BTCUSDT".to_string(),
        status: UpdateStatus::Canceled,
        event_time: 50,
    };
    assert_eq!(ledger.apply_update(&stale), UpdateOutcome::Stale);
    let order = ledger.open_order(1).unwrap();
    assert_eq!(order.status, OrderStatus::Accepted);
    assert_eq!(order.update_ts, 100);
}

// An update for an order id the ledger does not know never mutates it and
// never fails.
#[test]
fn unknown_order_update_is_dropped() {
    let mut ledger = OrderLedger::new();
    ledger.record_open(fresh_order(1, "BTCUSDT")).unwrap();
    let unknown = OrderUpdateEvent {
        order_id: 99,
        symbol: "BTCUSDT".to_string(),
        status: UpdateStatus::Trade,
        event_time: 100,
    };
    assert_eq!(ledger.apply_update(&unknown), UpdateOutcome::NotFound);
    assert_eq!(ledger.orders.len(), 1);
    assert_eq!(ledger.archived.len(), 0);
    assert_eq!(ledger.open_order(1).unwrap().status, OrderStatus::Committed);
}

// Out-of-time-order delivery converges to the same state as in-order
// delivery: the update with the largest event time wins.
#[test]
fn update_delivery_order_does_not_matter() {
    let updates = |ids: &[usize]| {
        let all = [
            (UpdateStatus::New, 10u64),
            (UpdateStatus::New, 30u64),
            (UpdateStatus::New, 20u64),
        ];
        ids.iter()
            .map(|&k| OrderUpdateEvent {
                order_id: 1,
                symbol: "BTCUSDT".to_string(),
                status: all[k].0,
                event_time: all[k].1,
            })
            .collect::<Vec<_>>()
    };
    let mut in_order = OrderLedger::new();
    in_order.record_open(fresh_order(1, "BTCUSDT")).unwrap();
    for u in updates(&[0, 2, 1]) {
        in_order.apply_update(&u);
    }
    let mut shuffled = OrderLedger::new();
    shuffled.record_open(fresh_order(1, "BTCUSDT")).unwrap();
    for u in updates(&[1, 0, 2]) {
        shuffled.apply_update(&u);
    }
    let a = in_order.open_order(1).unwrap();
    let b = shuffled.open_order(1).unwrap();
    assert_eq!(a.status, b.status);
    assert_eq!(a.update_ts, 30);
    assert_eq!(b.update_ts, 30);
}

// A terminal update moves the order to the archive; a duplicate insert of
// the same id is a fatal collision.
#[test]
fn terminal_update_archives_and_collisions_are_refused() {
    let mut ledger = OrderLedger::new();
    ledger.record_open(fresh_order(1, "BTCUSDT")).unwrap();
    assert!(ledger.record_open(fresh_order(1, "BTCUSDT")).is_err());
    let fill = OrderUpdateEvent {
        order_id: 1,
        symbol: "BTCUSDT".to_string(),
        status: UpdateStatus::Trade,
        event_time: 5,
    };
    assert_eq!(ledger.apply_update(&fill), UpdateOutcome::Closed);
    assert!(ledger.open_order(1).is_none());
    assert_eq!(ledger.archived.len(), 1);
    assert_eq!(ledger.archived[0].status, OrderStatus::Success);
}

// Fifteen consecutive descending closes push the 14-period RSI to zero:
// exactly one Buy, on the fifteenth candle, and the instance decides Buy
// for that epoch.
#[test]
fn descending_closes_trigger_one_buy() {
    let rsi = RelativeStrengthIndex::new(14, KlineInterval::Hour1, 3000, 7000);
    let mut instance = Instance::new(
        "BTCUSDT",
        StrategyMode::Or,
        vec![Strategies::RelativeStrengthIndex(rsi)],
    );
    let mut buys = 0;
    let mut decisions = Vec::new();
    for n in 0..15u64 {
        let data = candle("BTCUSDT", KlineInterval::Hour1, n + 1, 10_000 - 100 * n);
        let signal = match &mut instance.strategies[0] {
            Strategies::RelativeStrengthIndex(r) => r.signal(&data),
            Strategies::AverageTrueRange(a) => a.signal(&data),
        };
        if signal == Signal::Buy {
            buys += 1;
            assert_eq!(n, 14);
        } else {
            assert_eq!(signal, Signal::Nothing);
        }
        let tagged = StrategySignal { id: data.data_id(), symbol: "BTCUSDT".to_string(), signal };
        decisions.push(instance.absorb_signal(tagged));
    }
    assert_eq!(buys, 1);
    assert_eq!(decisions[13], Some(Signal::Nothing));
    assert_eq!(decisions[14], Some(Signal::Buy));
    assert_eq!(instance.state, State::WaitBuy);
    assert!(instance.open_order.is_none());
}

// Two strategies both reporting Nothing for an epoch leave the instance in
// WaitBuy, and the epoch's cache entry is discarded: no growth over many
// epochs.
#[test]
fn nothing_signals_leave_no_cache_behind() {
    let instance_strategies = vec![
        Strategies::RelativeStrengthIndex(RelativeStrengthIndex::new(
            14,
            KlineInterval::Hour1,
            3000,
            7000,
        )),
        Strategies::RelativeStrengthIndex(RelativeStrengthIndex::new(
            7,
            KlineInterval::Hour1,
            3000,
            7000,
        )),
    ];
    let mut instance = Instance::new("BTCUSDT", StrategyMode::Or, instance_strategies);
    for epoch in 1..200u64 {
        let first = StrategySignal {
            id: epoch,
            symbol: "BTCUSDT".to_string(),
            signal: Signal::Nothing,
        };
        assert_eq!(instance.absorb_signal(first), None);
        assert_eq!(instance.current_signals.len(), 1);
        let second = StrategySignal {
            id: epoch,
            symbol: "BTCUSDT".to_string(),
            signal: Signal::Nothing,
        };
        assert_eq!(instance.absorb_signal(second), Some(Signal::Nothing));
        assert_eq!(instance.current_signals.len(), 0);
        assert_eq!(instance.state, State::WaitBuy);
    }
}

// Any strategy's Buy wins under the "or" rule, and an epoch superseded by a
// newer resolved one is swept away.
#[test]
fn or_rule_and_epoch_supersession() {
    let strategies = vec![
        Strategies::RelativeStrengthIndex(RelativeStrengthIndex::default()),
        Strategies::RelativeStrengthIndex(RelativeStrengthIndex::default()),
    ];
    let mut instance = Instance::new("BTCUSDT", StrategyMode::Or, strategies);
    let sig = |id: u64, signal: Signal| StrategySignal {
        id,
        symbol: "BTCUSDT".to_string(),
        signal,
    };
    // epoch 5 stays incomplete; epoch 6 completes and sweeps epoch 5 away
    assert_eq!(instance.absorb_signal(sig(5, Signal::Nothing)), None);
    assert_eq!(instance.absorb_signal(sig(6, Signal::Sell)), None);
    assert_eq!(instance.absorb_signal(sig(6, Signal::Buy)), Some(Signal::Buy));
    assert_eq!(instance.current_signals.len(), 0);
}

// A subscriber that falls behind never blocks the publisher: it misses the
// oldest events, observes a gap, and resumes in publish order.
#[test]
fn slow_subscriber_sees_gap_then_order() {
    let topic: bq::Broadcast<u64> = Default::default();
    let mut rx = topic.tx.subscribe();
    let total: u64 = 1500;
    for v in 0..total {
        // never blocks, whatever the subscriber does
        topic.send(v).unwrap();
    }
    let runtime = tokio::runtime::Builder::new_current_thread().build().unwrap();
    runtime.block_on(async move {
        let first = match rx.recv().await {
            Err(tokio::sync::broadcast::error::RecvError::Lagged(missed)) => {
                assert!(missed > 0);
                rx.recv().await.unwrap()
            }
            Ok(v) => v,
            Err(e) => panic!("unexpected channel state: {e:?}"),
        };
        let mut prev = first;
        loop {
            match rx.try_recv() {
                Ok(v) => {
                    assert_eq!(v, prev + 1);
                    prev = v;
                }
                Err(_) => break,
            }
        }
        assert_eq!(prev, total - 1);
    });
}

#[test]
fn interval_spellings() {
    assert_eq!(KlineInterval::Hour1.to_string(), "1h");
    assert_eq!(KlineInterval::Hour2.to_string(), "2h");
    assert_eq!(KlineInterval::Hour4.to_string(), "4h");
    assert_eq!(KlineInterval::Hour6.to_string(), "6h");
    assert_eq!(KlineInterval::Day1.to_string(), "1d");
    assert_eq!(
        stream_name(&"BTC9USDT".to_string(), &KlineInterval::Day1),
        "btc9usdt@kline_1d"
    );
}

// The RSI window keeps only the freshest 2 * period closes.
#[test]
fn rsi_window_stays_bounded() {
    let mut rsi = RelativeStrengthIndex::new(2, KlineInterval::Hour1, 0, 10_000);
    for n in 0..10u64 {
        let _ = rsi.signal(&candle("BTCUSDT", KlineInterval::Hour1, n + 1, 100 + n));
    }
    assert_eq!(rsi.close_prices, vec![106, 107, 108, 109]);
    // rising prices with sell threshold at RSI 100: every full window sells
    let s = rsi.signal(&candle("BTCUSDT", KlineInterval::Hour1, 11, 200));
    assert_eq!(s, Signal::Sell);
}

// A buy trigger leads to exactly one committed open order and the move to
// WaitSell; a second commitment is refused while that order is open.
#[test]
fn buy_commitment_keeps_one_open_order() {
    let mut engine = Engine::new(one_instrument_config()).unwrap();
    let id = engine.commit_buy(0, 1000, 5, 1010, 1).unwrap();
    assert_eq!(id, 1);
    assert_eq!(engine.state.instances[0].state, State::WaitSell);
    assert_eq!(engine.state.instances[0].open_order, Some(id));
    assert_eq!(engine.state.ledger.orders.len(), 1);
    assert_eq!(engine.state.ledger.orders[0].status, OrderStatus::Committed);
    assert_eq!(engine.state.ledger.orders[0].side, OrderSide::Buy);
    assert_eq!(
        engine.commit_buy(0, 1000, 5, 1010, 2).err(),
        Some(EngineError::NotAwaitingBuy)
    );
    assert_eq!(
        engine.commit_buy(7, 1000, 5, 1010, 2).err(),
        Some(EngineError::NoSuchInstance)
    );
    assert_eq!(engine.state.ledger.orders.len(), 1);
}

fn update(id: u64, status: UpdateStatus, t: u64) -> OrderUpdateEvent {
    OrderUpdateEvent { order_id: id, symbol: "BTCUSDT".to_string(), status, event_time: t }
}

// The full round trip: the buy is committed, acknowledged and filled; the
// engine rolls into the follow-up sell, and once the sell fills the
// instance watches for the next buy — with exactly one open order in
// WaitSell at every step, and none in WaitBuy.
#[test]
fn reconciler_drives_the_instance_round_trip() {
    let mut engine = Engine::new(one_instrument_config()).unwrap();
    let buy_id = engine.commit_buy(0, 1000, 5, 1010, 1).unwrap();

    assert_eq!(engine.apply_order_update(&update(buy_id, UpdateStatus::New, 10), 10), bq::OrderReaction::Acknowledged);
    assert_eq!(engine.state.instances[0].state, State::WaitSell);
    assert_eq!(engine.state.ledger.orders.len(), 1);
    assert_eq!(engine.state.ledger.orders[0].status, OrderStatus::Accepted);

    // a stale disagreement and an unknown id change nothing
    assert_eq!(engine.apply_order_update(&update(buy_id, UpdateStatus::Canceled, 5), 5), bq::OrderReaction::Stale);
    assert_eq!(engine.apply_order_update(&update(99, UpdateStatus::Trade, 50), 50), bq::OrderReaction::Dropped);
    assert_eq!(engine.state.ledger.orders[0].status, OrderStatus::Accepted);

    // the buy fills: the sell is committed under a fresh id
    let r = engine.apply_order_update(&update(buy_id, UpdateStatus::Trade, 20), 20);
    let sell_id = match r {
        bq::OrderReaction::SellPlaced(id) => id,
        other => panic!("expected the follow-up sell, got {other:?}"),
    };
    assert_eq!(engine.state.instances[0].state, State::WaitSell);
    assert_eq!(engine.state.instances[0].open_order, Some(sell_id));
    assert_eq!(engine.state.ledger.orders.len(), 1);
    assert_eq!(engine.state.ledger.orders[0].side, OrderSide::Sell);
    assert_eq!(engine.state.ledger.orders[0].status, OrderStatus::Committed);
    assert_eq!(engine.state.ledger.archived.len(), 1);
    assert_eq!(engine.state.ledger.archived[0].status, OrderStatus::Success);

    // the sell fills: round trip done, WaitBuy, zero open orders
    assert_eq!(engine.apply_order_update(&update(sell_id, UpdateStatus::Trade, 30), 30), bq::OrderReaction::Settled);
    assert_eq!(engine.state.instances[0].state, State::WaitBuy);
    assert_eq!(engine.state.instances[0].open_order, None);
    assert_eq!(engine.state.ledger.orders.len(), 0);
    assert_eq!(engine.state.ledger.archived.len(), 2);

    // and the instance can trade again
    assert!(engine.commit_buy(0, 900, 5, 910, 40).is_ok());
}

// A cancellation of the resting buy returns the instance to WaitBuy.
#[test]
fn cancellation_returns_instance_to_waitbuy() {
    let mut engine = Engine::new(one_instrument_config()).unwrap();
    let buy_id = engine.commit_buy(0, 1000, 5, 1010, 1).unwrap();
    assert_eq!(engine.apply_order_update(&update(buy_id, UpdateStatus::Canceled, 10), 10), bq::OrderReaction::Cancelled);
    assert_eq!(engine.state.instances[0].state, State::WaitBuy);
    assert_eq!(engine.state.instances[0].open_order, None);
    assert_eq!(engine.state.ledger.orders.len(), 0);
    assert_eq!(engine.state.ledger.archived.len(), 1);
    assert_eq!(engine.state.ledger.archived[0].status, OrderStatus::Canceled);
}

// The decision-to-action step: Buy while watching asks for a limit buy,
// Sell while the resting buy is open asks to revoke it, the rest ask
// nothing.
#[test]
fn decisions_map_to_exchange_actions() {
    let mut engine = Engine::new(one_instrument_config()).unwrap();
    match engine.decide_action(0, Signal::Buy).unwrap() {
        Some(bq::TradeAction::PlaceBuy { symbol }) => assert_eq!(symbol, "BTCUSDT"),
        other => panic!("expected a buy request, got {other:?}"),
    }
    assert!(engine.decide_action(0, Signal::Sell).unwrap().is_none());
    assert!(engine.decide_action(0, Signal::Nothing).unwrap().is_none());
    assert_eq!(engine.decide_action(9, Signal::Buy).err(), Some(EngineError::NoSuchInstance));

    let buy_id = engine.commit_buy(0, 1000, 5, 1010, 1).unwrap();
    match engine.decide_action(0, Signal::Sell).unwrap() {
        Some(bq::TradeAction::Revoke { symbol, order_id }) => {
            assert_eq!(symbol, "BTCUSDT");
            assert_eq!(order_id, buy_id);
        }
        other => panic!("expected a revoke request, got {other:?}"),
    }
    assert!(engine.decide_action(0, Signal::Buy).unwrap().is_none());

    // once holding the follow-up sell, a Sell decision asks nothing more
    let r = engine.apply_order_update(&update(buy_id, UpdateStatus::Trade, 20), 20);
    assert!(matches!(r, bq::OrderReaction::SellPlaced(_)));
    assert!(engine.decide_action(0, Signal::Sell).unwrap().is_none());
}

// The maintenance sweep: orders idle past the bound are archived as
// locally canceled, fresher ones stay.
#[test]
fn sweep_archives_stale_orders() {
    let mut ledger = OrderLedger::new();
    let mut old_order = fresh_order(1, "BTCUSDT");
    old_order.update_ts = 100;
    let mut fresh = fresh_order(2, "ETHUSDT");
    fresh.update_ts = 900;
    ledger.record_open(old_order).unwrap();
    ledger.record_open(fresh).unwrap();
    let swept = ledger.sweep_stale(1000, 500);
    assert_eq!(swept, 1);
    assert_eq!(ledger.orders.len(), 1);
    assert_eq!(ledger.orders[0].id, 2);
    assert_eq!(ledger.archived.len(), 1);
    assert_eq!(ledger.archived[0].id, 1);
    assert_eq!(ledger.archived[0].status, OrderStatus::Canceled);
    assert_eq!(ledger.archived[0].update_ts, 1000);
    // nothing left to sweep
    assert_eq!(ledger.sweep_stale(1000, 500), 0);
    assert_eq!(ledger.orders.len(), 1);
}

// An incomplete epoch a newer signal supersedes is discarded: with one of
// two strategies silent, the cache never grows past the one live epoch.
#[test]
fn superseded_incomplete_epochs_are_discarded() {
    let strategies = vec![
        Strategies::RelativeStrengthIndex(RelativeStrengthIndex::default()),
        Strategies::RelativeStrengthIndex(RelativeStrengthIndex::default()),
    ];
    let mut instance = Instance::new("BTCUSDT", StrategyMode::Or, strategies);
    for epoch in 1..300u64 {
        // only the first strategy ever reports
        let only = StrategySignal {
            id: epoch,
            symbol: "BTCUSDT".to_string(),
            signal: Signal::Nothing,
        };
        assert_eq!(instance.absorb_signal(only), None);
        assert_eq!(instance.current_signals.len(), 1);
        assert_eq!(instance.current_signals[0].epoch, epoch);
    }
}
