//! The order ledger: the authoritative in-memory table of open orders plus
//! an archive of closed ones, reconciled against asynchronous status updates
//! under a last-writer-by-event-time policy. Stale or duplicate updates are
//! no-ops; updates for unknown order ids are dropped; terminal statuses move
//! the order from the open table to the archive.
use vstd::prelude::*;

verus! {

/// Which way an order trades.
#[derive(Clone, Copy, Debug, PartialEq, Eq, Structural)]
pub enum OrderSide {
    Buy,
    Sell,
}

/// Lifecycle status of an order owned by this engine.
#[derive(Clone, Copy, Debug, PartialEq, Eq, Structural)]
pub enum OrderStatus {
    /// Placed by the engine, not yet acknowledged by the exchange.
    Committed,
    /// Acknowledged by the exchange, still working.
    Accepted,
    /// Fully traded.
    Success,
    /// Canceled at the exchange.
    Canceled,
}

impl OrderStatus {
    /// A terminal status closes the order: it leaves the open table.
    pub open spec fn is_terminal(&self) -> bool {
        self is Success || self is Canceled
    }
}

/// The status vocabulary of the exchange's order-update stream, as the
/// gateway normalizes it. Statuses the engine does not act on arrive as
/// `Unrecognized`.
#[derive(Clone, Copy, Debug, PartialEq, Eq, Structural)]
pub enum UpdateStatus {
    New,
    Canceled,
    Trade,
    Unrecognized,
}

impl UpdateStatus {
    /// Whether the engine maps this update status to an order status.
    pub open spec fn is_recognized(&self) -> bool {
        !(self is Unrecognized)
    }

    /// The order status a recognized update advances an order to.
    pub open spec fn spec_order_status(&self) -> OrderStatus
        recommends
            self.is_recognized(),
    {
        match self {
            UpdateStatus::New => OrderStatus::Accepted,
            UpdateStatus::Canceled => OrderStatus::Canceled,
            UpdateStatus::Trade => OrderStatus::Success,
            UpdateStatus::Unrecognized => OrderStatus::Accepted,
        }
    }
}

/// One order as the ledger tracks it. Prices and quantity are scaled
/// integers; `update_ts` is the event time of the newest update applied.
#[derive(Debug)]
pub struct Order {
    pub symbol: String,
    pub id: u64,
    pub side: OrderSide,
    pub quantity: u64,
    pub buy_price: u64,
    pub min_sell_price: u64,
    pub status: OrderStatus,
    pub update_ts: u64,
}

impl Clone for Order {
    fn clone(&self) -> (r: Self)
        ensures
            r == *self,
    {
        Order {
            symbol: self.symbol.clone(),
            id: self.id,
            side: self.side,
            quantity: self.quantity,
            buy_price: self.buy_price,
            min_sell_price: self.min_sell_price,
            status: self.status,
            update_ts: self.update_ts,
        }
    }
}

/// A normalized order update from the exchange's user stream.
#[derive(Debug)]
pub struct OrderUpdateEvent {
    pub order_id: u64,
    pub symbol: String,
    pub status: UpdateStatus,
    pub event_time: u64,
}

impl Clone for OrderUpdateEvent {
    fn clone(&self) -> (r: Self)
        ensures
            r == *self,
    {
        OrderUpdateEvent {
            order_id: self.order_id,
            symbol: self.symbol.clone(),
            status: self.status,
            event_time: self.event_time,
        }
    }
}

/// How the ledger disposed of one update.
#[derive(Clone, Copy, Debug, PartialEq, Eq, Structural)]
pub enum UpdateOutcome {
    /// No open order has the update's id: the update does not belong to
    /// this engine and is dropped.
    NotFound,
    /// The update's event time is not strictly newer than the stored one.
    Stale,
    /// The update's status is not one the engine acts on.
    Ignored,
    /// The open order advanced to a non-terminal status.
    Updated,
    /// The order reached a terminal status and moved to the archive.
    Closed,
}

/// Errors of the ledger's write path.
#[derive(Clone, Copy, Debug, PartialEq, Eq, Structural)]
pub enum LedgerError {
    /// An order with the same id is already open: a fatal invariant
    /// violation in the caller.
    IdCollision,
}

/// Whether some order in `s` has id `id`.
pub open spec fn contains_order_id(s: Seq<Order>, id: u64) -> bool {
    exists|i: int| 0 <= i < s.len() && s[i].id == id
}

/// Whether the orders in `s` all have distinct ids.
pub open spec fn order_ids_distinct(s: Seq<Order>) -> bool {
    forall|i: int, j: int| 0 <= i < j < s.len() ==> s[i].id != s[j].id
}

/// The order `o` after one update `ev` is merged into it, unconditionally:
/// the status advances and the stored time becomes the update's event time.
pub open spec fn merged_order(o: Order, ev: OrderUpdateEvent) -> Order {
    Order { status: ev.status.spec_order_status(), update_ts: ev.event_time, ..o }
}

/// Whether the ledger applies `ev` to `o` at all: only recognized statuses
/// strictly newer than the stored time take effect.
pub open spec fn update_applies(o: Order, ev: OrderUpdateEvent) -> bool {
    ev.event_time > o.update_ts && ev.status.is_recognized()
}

/// One step of the reconciliation policy on a single order.
pub open spec fn step_order(o: Order, ev: OrderUpdateEvent) -> Order {
    if update_applies(o, ev) {
        merged_order(o, ev)
    } else {
        o
    }
}

/// The reconciliation policy folded over a delivery sequence of updates.
pub open spec fn merge_all(o: Order, evs: Seq<OrderUpdateEvent>) -> Order
    decreases evs.len(),
{
    if evs.len() == 0 {
        o
    } else {
        merge_all(step_order(o, evs.first()), evs.drop_first())
    }
}

/// A delivery sequence in which no two updates carry the same event time.
pub open spec fn event_times_distinct(evs: Seq<OrderUpdateEvent>) -> bool {
    forall|i: int, j: int|
        0 <= i < j < evs.len() ==> evs[i].event_time != evs[j].event_time
}

/// A delivery sequence in which every status is one the engine acts on.
pub open spec fn all_recognized(evs: Seq<OrderUpdateEvent>) -> bool {
    forall|i: int| 0 <= i < evs.len() ==> (#[trigger] evs[i].status).is_recognized()
}

/// Updates none of which is strictly newer than the stored time leave an
/// order exactly as it was.
pub proof fn lemma_merge_all_stale(o: Order, evs: Seq<OrderUpdateEvent>)
    requires
        forall|i: int| 0 <= i < evs.len() ==> (#[trigger] evs[i]).event_time <= o.update_ts,
    ensures
        merge_all(o, evs) == o,
    decreases evs.len(),
{
    if evs.len() > 0 {
        assert(evs[0].event_time <= o.update_ts);
        assert(step_order(o, evs.first()) == o);
        assert(forall|i: int|
            0 <= i < evs.drop_first().len() ==> (#[trigger] evs.drop_first()[i]).event_time
                <= o.update_ts) by {
            assert(forall|i: int|
                0 <= i < evs.drop_first().len() ==> #[trigger] evs.drop_first()[i] == evs[i + 1]);
        }
        lemma_merge_all_stale(o, evs.drop_first());
    }
}

/// Last writer by event time: whatever order the updates arrive in, the
/// order an instance ends with carries the status and time of the update
/// with the largest event time, provided that update is newer than what the
/// order already stored. `k` names the position of that update.
pub proof fn lemma_merge_all_latest(o: Order, evs: Seq<OrderUpdateEvent>, k: int)
    requires
        0 <= k < evs.len(),
        forall|i: int|
            0 <= i < evs.len() ==> (#[trigger] evs[i]).event_time <= evs[k].event_time,
        event_times_distinct(evs),
        all_recognized(evs),
        evs[k].event_time > o.update_ts,
    ensures
        merge_all(o, evs) == merged_order(o, evs[k]),
    decreases evs.len(),
{
    let rest = evs.drop_first();
    assert(forall|i: int| 0 <= i < rest.len() ==> #[trigger] rest[i] == evs[i + 1]);
    if k == 0 {
        let o1 = step_order(o, evs.first());
        assert(o1 == merged_order(o, evs[0]));
        assert(forall|i: int|
            0 <= i < rest.len() ==> (#[trigger] rest[i]).event_time <= o1.update_ts);
        lemma_merge_all_stale(o1, rest);
    } else {
        let o1 = step_order(o, evs.first());
        assert(evs[0].event_time < evs[k].event_time);
        assert(o1.update_ts < evs[k].event_time);
        assert(rest[k - 1] == evs[k]);
        lemma_merge_all_latest(o1, rest, k - 1);
        assert(merged_order(o1, rest[k - 1]) == merged_order(o, evs[k]));
    }
}

/// Idempotent convergence: two deliveries of the same set of updates for
/// one order, in whatever order, leave the order in the same final state.
pub proof fn lemma_reconciliation_converges(
    o: Order,
    evs1: Seq<OrderUpdateEvent>,
    evs2: Seq<OrderUpdateEvent>,
)
    requires
        evs1.to_multiset() == evs2.to_multiset(),
        event_times_distinct(evs1),
        all_recognized(evs1),
    ensures
        merge_all(o, evs1) == merge_all(o, evs2),
{
    broadcast use vstd::seq_lib::group_seq_properties;

    evs1.to_multiset_ensures();
    evs2.to_multiset_ensures();
    // every element of either delivery occurs in the other
    assert forall|i: int| 0 <= i < evs2.len() implies evs1.contains(#[trigger] evs2[i]) by {
        assert(evs2.contains(evs2[i]));
        assert(evs2.to_multiset().count(evs2[i]) > 0);
    }
    assert forall|i: int| 0 <= i < evs1.len() implies evs2.contains(#[trigger] evs1[i]) by {
        assert(evs1.contains(evs1[i]));
        assert(evs1.to_multiset().count(evs1[i]) > 0);
    }
    assert(all_recognized(evs2)) by {
        assert forall|i: int| 0 <= i < evs2.len() implies (#[trigger] evs2[i]).status.is_recognized()
        by {
            let a = choose|a: int| 0 <= a < evs1.len() && evs1[a] == evs2[i];
            assert(evs1[a].status.is_recognized());
        }
    }
    assert(event_times_distinct(evs2)) by {
        assert(evs1.no_duplicates()) by {
            assert forall|i: int, j: int|
                0 <= i < evs1.len() && 0 <= j < evs1.len() && i != j implies evs1[i] != evs1[j] by {
                assert(evs1[i].event_time != evs1[j].event_time);
            }
        }
        evs1.lemma_multiset_has_no_duplicates();
        evs2.lemma_multiset_has_no_duplicates_conv();
        assert forall|i: int, j: int| 0 <= i < j < evs2.len() implies evs2[i].event_time
            != evs2[j].event_time by {
            let a = choose|a: int| 0 <= a < evs1.len() && evs1[a] == evs2[i];
            let b = choose|b: int| 0 <= b < evs1.len() && evs1[b] == evs2[j];
            assert(evs2[i] != evs2[j]);
            assert(a != b);
        }
    }
    if evs1.len() == 0 {
        assert(evs2.len() == 0);
    } else {
        let k1 = latest_index(evs1);
        lemma_latest_index(evs1);
        if evs1[k1].event_time > o.update_ts {
            let k2 = choose|k2: int| 0 <= k2 < evs2.len() && evs2[k2] == evs1[k1];
            assert forall|i: int|
                0 <= i < evs2.len() implies (#[trigger] evs2[i]).event_time
                <= evs2[k2].event_time by {
                let a = choose|a: int| 0 <= a < evs1.len() && evs1[a] == evs2[i];
                assert(evs1[a].event_time <= evs1[k1].event_time);
            }
            lemma_merge_all_latest(o, evs1, k1);
            lemma_merge_all_latest(o, evs2, k2);
        } else {
            assert forall|i: int|
                0 <= i < evs2.len() implies (#[trigger] evs2[i]).event_time <= o.update_ts by {
                let a = choose|a: int| 0 <= a < evs1.len() && evs1[a] == evs2[i];
                assert(evs1[a].event_time <= evs1[k1].event_time);
            }
            lemma_merge_all_stale(o, evs1);
            lemma_merge_all_stale(o, evs2);
        }
    }
}

/// The position of an update with the largest event time in a nonempty
/// delivery sequence.
pub open spec fn latest_index(evs: Seq<OrderUpdateEvent>) -> int
    recommends
        evs.len() > 0,
    decreases evs.len(),
{
    if evs.len() <= 1 {
        0
    } else {
        let rest_latest = 1 + latest_index(evs.drop_first());
        if evs[0].event_time >= evs[rest_latest].event_time {
            0
        } else {
            rest_latest
        }
    }
}

/// `latest_index` names a position whose event time no other update in the
/// sequence exceeds.
pub proof fn lemma_latest_index(evs: Seq<OrderUpdateEvent>)
    requires
        evs.len() > 0,
    ensures
        0 <= latest_index(evs) < evs.len(),
        forall|i: int|
            0 <= i < evs.len() ==> (#[trigger] evs[i]).event_time
                <= evs[latest_index(evs)].event_time,
    decreases evs.len(),
{
    if evs.len() > 1 {
        let rest = evs.drop_first();
        lemma_latest_index(rest);
        assert(forall|i: int| 0 <= i < rest.len() ==> #[trigger] rest[i] == evs[i + 1]);
        let rest_latest = 1 + latest_index(rest);
        assert(evs[rest_latest] == rest[latest_index(rest)]);
        assert forall|i: int| 0 <= i < evs.len() implies (#[trigger] evs[i]).event_time
            <= evs[latest_index(evs)].event_time by {
            if i > 0 {
                assert(evs[i] == rest[i - 1]);
                assert(rest[i - 1].event_time <= rest[latest_index(rest)].event_time);
            }
        }
    }
}

/// The open table with every order still fresh at `now` kept: those whose
/// stored time lies within `bound` of `now`, in table order.
pub open spec fn retain_fresh(s: Seq<Order>, now: u64, bound: u64) -> Seq<Order>
    decreases s.len(),
{
    if s.len() == 0 {
        s
    } else {
        let rest = retain_fresh(s.drop_first(), now, bound);
        if s[0].update_ts + bound >= now {
            seq![s[0]] + rest
        } else {
            rest
        }
    }
}

/// The orders a sweep at `now` closes, in table order, each already
/// stamped with the local cancellation the bounded-staleness policy
/// applies: status `Canceled`, time `now`.
pub open spec fn swept_to_archive(s: Seq<Order>, now: u64, bound: u64) -> Seq<Order>
    decreases s.len(),
{
    if s.len() == 0 {
        s
    } else {
        let rest = swept_to_archive(s.drop_first(), now, bound);
        if s[0].update_ts + bound >= now {
            rest
        } else {
            seq![Order { status: OrderStatus::Canceled, update_ts: now, ..s[0] }] + rest
        }
    }
}

/// What `retain_fresh` keeps stood in the old table, each within the
/// staleness bound, and id distinctness survives.
pub proof fn lemma_retain_fresh_wf(s: Seq<Order>, now: u64, bound: u64)
    ensures
        forall|i: int|
            0 <= i < retain_fresh(s, now, bound).len() ==> s.contains(
                #[trigger] retain_fresh(s, now, bound)[i],
            ) && retain_fresh(s, now, bound)[i].update_ts + bound >= now,
        order_ids_distinct(s) ==> order_ids_distinct(retain_fresh(s, now, bound)),
    decreases s.len(),
{
    if s.len() > 0 {
        let rest = s.drop_first();
        lemma_retain_fresh_wf(rest, now, bound);
        assert(forall|i: int| 0 <= i < rest.len() ==> #[trigger] rest[i] == s[i + 1]);
        assert(forall|i: int|
            0 <= i < rest.len() && order_ids_distinct(s) ==> rest[i].id != s[0].id);
        if order_ids_distinct(s) {
            assert(order_ids_distinct(rest));
        }
        assert(forall|i: int|
            0 <= i < retain_fresh(rest, now, bound).len() ==> s.contains(
                #[trigger] retain_fresh(rest, now, bound)[i],
            )) by {
            assert(forall|i: int|
                0 <= i < retain_fresh(rest, now, bound).len() ==> rest.contains(
                    #[trigger] retain_fresh(rest, now, bound)[i],
                ));
            assert(forall|x: Order| rest.contains(x) ==> s.contains(x));
        }
        if s[0].update_ts + bound >= now {
            let kept = seq![s[0]] + retain_fresh(rest, now, bound);
            assert(kept[0] == s[0]);
            assert(s.contains(s[0]));
            assert(forall|i: int|
                1 <= i < kept.len() ==> #[trigger] kept[i] == retain_fresh(rest, now, bound)[i
                    - 1]);
            if order_ids_distinct(s) {
                assert forall|i: int, j: int| 0 <= i < j < kept.len() implies kept[i].id
                    != kept[j].id by {
                    if i == 0 {
                        let x = retain_fresh(rest, now, bound)[j - 1];
                        assert(rest.contains(x));
                        let w = choose|w: int| 0 <= w < rest.len() && rest[w] == x;
                        assert(s[w + 1] == x);
                    }
                }
            }
        }
    }
}

/// The open-order table and the archive of closed orders.
#[derive(Debug)]
pub struct OrderLedger {
    pub orders: Vec<Order>,
    pub archived: Vec<Order>,
}

impl OrderLedger {
    /// The ledger is well formed when no two open orders share an id.
    pub open spec fn wf(&self) -> bool {
        order_ids_distinct(self.orders@)
    }

    pub fn new() -> (l: OrderLedger)
        ensures
            l.orders@ == Seq::<Order>::empty(),
            l.archived@ == Seq::<Order>::empty(),
            l.wf(),
    {
        OrderLedger { orders: Vec::new(), archived: Vec::new() }
    }

    /// The position of the open order with id `id`, if any.
    fn find_open(&self, id: u64) -> (r: Option<usize>)
        ensures
            match r {
                Some(i) => i < self.orders@.len() && self.orders@[i as int].id == id,
                None => !contains_order_id(self.orders@, id),
            },
    {
        let n = self.orders.len();
        let mut i: usize = 0;
        while i < n
            invariant
                i <= n,
                n == self.orders@.len(),
                forall|j: int| 0 <= j < i ==> self.orders@[j].id != id,
            decreases n - i,
        {
            if self.orders[i].id == id {
                return Some(i);
            }
            i = i + 1;
        }
        None
    }

    /// A copy of the open order with id `id`, if any.
    pub fn open_order(&self, id: u64) -> (r: Option<Order>)
        ensures
            r is Some <==> contains_order_id(self.orders@, id),
            match r {
                Some(o) => exists|i: int|
                    0 <= i < self.orders@.len() && self.orders@[i].id == id && o
                        == self.orders@[i],
                None => true,
            },
    {
        match self.find_open(id) {
            Some(i) => Some(self.orders[i].clone()),
            None => None,
        }
    }

    /// Records a newly placed order. An id collision with an open order is
    /// a fatal invariant violation: the insert is refused and nothing
    /// changes.
    pub fn record_open(&mut self, order: Order) -> (r: Result<(), LedgerError>)
        requires
            order.status is Committed,
            old(self).wf(),
        ensures
            final(self).wf(),
            r is Ok <==> !contains_order_id(old(self).orders@, order.id),
            r is Ok ==> final(self).orders@ == old(self).orders@.push(order),
            r is Err ==> final(self).orders@ == old(self).orders@,
            final(self).archived@ == old(self).archived@,
    {
        match self.find_open(order.id) {
            Some(_) => Err(LedgerError::IdCollision),
            None => {
                self.orders.push(order);
                Ok(())
            },
        }
    }

    /// Merges one asynchronous status update into the ledger.
    ///
    /// An update whose order id is not open is dropped without touching
    /// anything; one not strictly newer than the stored time is a no-op; an
    /// unrecognized status is ignored; otherwise the order advances to the
    /// mapped status, and on a terminal status it moves to the archive.
    pub fn apply_update(&mut self, ev: &OrderUpdateEvent) -> (r: UpdateOutcome)
        requires
            old(self).wf(),
        ensures
            final(self).wf(),
            r == UpdateOutcome::NotFound <==> !contains_order_id(old(self).orders@, ev.order_id),
            r == UpdateOutcome::NotFound ==> final(self).orders@ == old(self).orders@
                && final(self).archived@ == old(self).archived@,
            forall|i: int|
                0 <= i < old(self).orders@.len() && old(self).orders@[i].id == ev.order_id ==> {
                    let o = old(self).orders@[i];
                    &&& !update_applies(o, *ev) ==> {
                        &&& r == (if ev.event_time > o.update_ts {
                            UpdateOutcome::Ignored
                        } else {
                            UpdateOutcome::Stale
                        })
                        &&& final(self).orders@ == old(self).orders@
                        &&& final(self).archived@ == old(self).archived@
                    }
                    &&& update_applies(o, *ev) && !ev.status.spec_order_status().is_terminal()
                        ==> {
                        &&& r == UpdateOutcome::Updated
                        &&& final(self).orders@ == old(self).orders@.update(i, merged_order(o, *ev))
                        &&& final(self).archived@ == old(self).archived@
                    }
                    &&& update_applies(o, *ev) && ev.status.spec_order_status().is_terminal()
                        ==> {
                        &&& r == UpdateOutcome::Closed
                        &&& final(self).orders@ == old(self).orders@.remove(i)
                        &&& final(self).archived@ == old(self).archived@.push(merged_order(o, *ev))
                    }
                },
    {
        let ix = match self.find_open(ev.order_id) {
            None => {
                return UpdateOutcome::NotFound;
            },
            Some(i) => i,
        };
        let stored_ts = self.orders[ix].update_ts;
        if ev.event_time <= stored_ts {
            return UpdateOutcome::Stale;
        }
        let new_status = match ev.status {
            UpdateStatus::New => OrderStatus::Accepted,
            UpdateStatus::Canceled => OrderStatus::Canceled,
            UpdateStatus::Trade => OrderStatus::Success,
            UpdateStatus::Unrecognized => {
                return UpdateOutcome::Ignored;
            },
        };
        let mut o = self.orders.remove(ix);
        o.status = new_status;
        o.update_ts = ev.event_time;
        if new_status == OrderStatus::Success || new_status == OrderStatus::Canceled {
            self.archived.push(o);
            assert(final(self).orders@ =~= old(self).orders@.remove(ix as int));
            UpdateOutcome::Closed
        } else {
            self.orders.insert(ix, o);
            assert(final(self).orders@ =~= old(self).orders@.update(
                ix as int,
                merged_order(old(self).orders@[ix as int], *ev),
            ));
            UpdateOutcome::Updated
        }
    }

    /// The periodic maintenance sweep, under a bounded-staleness policy: an
    /// open order whose stored time is more than `bound` behind `now` is
    /// treated as locally canceled and moved to the archive, stamped with
    /// status `Canceled` at time `now`; fresher orders stay untouched.
    /// Answers how many orders were swept.
    pub fn sweep_stale(&mut self, now: u64, bound: u64) -> (swept: usize)
        requires
            old(self).wf(),
        ensures
            final(self).wf(),
            final(self).orders@ == retain_fresh(old(self).orders@, now, bound),
            final(self).archived@ == old(self).archived@ + swept_to_archive(
                old(self).orders@,
                now,
                bound,
            ),
            swept == swept_to_archive(old(self).orders@, now, bound).len(),
    {
        let mut kept: Vec<Order> = Vec::new();
        let base = self.archived.len();
        while self.orders.len() > 0
            invariant
                retain_fresh(old(self).orders@, now, bound) == kept@ + retain_fresh(
                    self.orders@,
                    now,
                    bound,
                ),
                old(self).archived@ + swept_to_archive(old(self).orders@, now, bound)
                    == self.archived@ + swept_to_archive(self.orders@, now, bound),
                base == old(self).archived@.len(),
                self.archived@.len() >= base,
            decreases self.orders.len(),
        {
            let ghost pre = self.orders@;
            let o = self.orders.remove(0);
            proof {
                assert(pre.drop_first() =~= self.orders@);
            }
            if bound >= now || o.update_ts >= now - bound {
                kept.push(o);
                proof {
                    assert(kept@ + retain_fresh(self.orders@, now, bound) =~= kept@.drop_last() + (
                    seq![pre[0]] + retain_fresh(pre.drop_first(), now, bound)));
                }
            } else {
                let mut closed = o;
                closed.status = OrderStatus::Canceled;
                closed.update_ts = now;
                self.archived.push(closed);
                proof {
                    assert(self.archived@ + swept_to_archive(self.orders@, now, bound)
                        =~= self.archived@.drop_last() + (seq![
                        Order { status: OrderStatus::Canceled, update_ts: now, ..pre[0] },
                    ] + swept_to_archive(pre.drop_first(), now, bound)));
                }
            }
        }
        proof {
            assert(retain_fresh(self.orders@, now, bound) =~= Seq::<Order>::empty());
            assert(kept@ + Seq::<Order>::empty() =~= kept@);
            assert(swept_to_archive(self.orders@, now, bound) =~= Seq::<Order>::empty());
            assert(self.archived@ + Seq::<Order>::empty() =~= self.archived@);
            lemma_retain_fresh_wf(old(self).orders@, now, bound);
        }
        self.orders = kept;
        self.archived.len() - base
    }
}

} // verus!
