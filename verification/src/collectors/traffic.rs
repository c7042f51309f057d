//! Per-interface bandwidth accounting.
//!
//! A tick reads the counters of every interface, turns their growth since
//! the tick before into rates, and appends the rates to a bounded history
//! for each interface.

use std::collections::VecDeque;
use vstd::prelude::*;
use vstd::seq_lib::*;

use crate::text;

verus! {

/// How many samples a history holds: ten minutes at one per second.
pub const SPARKLINE_HISTORY: usize = 600;

/// The shortest time between two ticks: a hundredth of a second.
pub const MIN_INTERVAL_NS: u64 = 10_000_000;

/// Whether enough time has passed since the last tick for a new one.
pub fn is_due(elapsed_ns: u64) -> (r: bool)
    ensures
        r == (elapsed_ns >= MIN_INTERVAL_NS),
{
    elapsed_ns >= MIN_INTERVAL_NS
}

/// The counters of one interface.
#[derive(Debug, Clone)]
pub struct InterfaceStats {
    pub name: String,
    pub rx_bytes: u64,
    pub tx_bytes: u64,
    pub rx_packets: u64,
    pub tx_packets: u64,
    pub rx_errors: u64,
    pub tx_errors: u64,
    pub rx_drops: u64,
    pub tx_drops: u64,
}

/// The counters of one interface and the rates at this tick.
#[derive(Debug, Clone)]
pub struct Reading {
    pub stats: InterfaceStats,
    /// The rates in bytes per second, as the bits of a double.
    pub rx_rate_bits: u64,
    pub tx_rate_bits: u64,
    /// The rates in whole bytes per second.
    pub rx_sample: u64,
    pub tx_sample: u64,
}

/// What is shown of one interface.
#[derive(Debug, Clone)]
pub struct InterfaceTraffic {
    pub name: String,
    /// The rates in bytes per second, as the bits of a double.
    pub rx_rate_bits: u64,
    pub tx_rate_bits: u64,
    pub rx_bytes_total: u64,
    pub tx_bytes_total: u64,
    pub rx_packets: u64,
    pub tx_packets: u64,
    pub rx_errors: u64,
    pub tx_errors: u64,
    pub rx_drops: u64,
    pub tx_drops: u64,
    /// The latest rates in whole bytes per second, oldest first.
    pub rx_history: VecDeque<u64>,
    pub tx_history: VecDeque<u64>,
}

/// An [`InterfaceTraffic`] as mathematical values.
#[verifier::ext_equal]
pub struct TrafficView {
    pub name: Seq<char>,
    pub rx_rate_bits: u64,
    pub tx_rate_bits: u64,
    pub rx_bytes_total: u64,
    pub tx_bytes_total: u64,
    pub rx_packets: u64,
    pub tx_packets: u64,
    pub rx_errors: u64,
    pub tx_errors: u64,
    pub rx_drops: u64,
    pub tx_drops: u64,
    pub rx_history: Seq<u64>,
    pub tx_history: Seq<u64>,
}

impl View for InterfaceTraffic {
    type V = TrafficView;

    open spec fn view(&self) -> TrafficView {
        TrafficView {
            name: self.name@,
            rx_rate_bits: self.rx_rate_bits,
            tx_rate_bits: self.tx_rate_bits,
            rx_bytes_total: self.rx_bytes_total,
            tx_bytes_total: self.tx_bytes_total,
            rx_packets: self.rx_packets,
            tx_packets: self.tx_packets,
            rx_errors: self.rx_errors,
            tx_errors: self.tx_errors,
            rx_drops: self.rx_drops,
            tx_drops: self.tx_drops,
            rx_history: self.rx_history@,
            tx_history: self.tx_history@,
        }
    }
}

/// A list of interfaces, as views.
pub open spec fn views(list: Seq<InterfaceTraffic>) -> Seq<TrafficView> {
    list.map_values(|i: InterfaceTraffic| i@)
}

/// The position of the first interface called `name`, or the length.
pub open spec fn stats_position(list: Seq<InterfaceStats>, name: Seq<char>) -> int
    decreases list.len(),
{
    if list.len() == 0 || list[0].name@ == name {
        0
    } else {
        1 + stats_position(list.drop_first(), name)
    }
}

/// How far a counter has grown; zero when it was reset.
pub open spec fn growth(before: u64, now: u64) -> u64 {
    if now >= before {
        (now - before) as u64
    } else {
        0
    }
}

/// The bytes received and sent since `before`, for an interface that was
/// there before.
pub open spec fn bytes_since(before: Seq<InterfaceStats>, now: InterfaceStats) -> Option<
    (u64, u64),
> {
    let k = stats_position(before, now.name@);
    if k < before.len() {
        Some((growth(before[k].rx_bytes, now.rx_bytes), growth(before[k].tx_bytes, now.tx_bytes)))
    } else {
        None
    }
}

fn same_name(a: &String, b: &String) -> (r: bool)
    ensures
        r == (a@ == b@),
{
    text::same_chars(text::chars_of(a.as_str()).as_slice(), text::chars_of(b.as_str()).as_slice())
}

fn grown(before: u64, now: u64) -> (r: u64)
    ensures
        r == growth(before, now),
{
    if now >= before {
        now - before
    } else {
        0
    }
}

/// The bytes that an interface received and sent since the tick before, or
/// `None` when it is new.
pub fn byte_deltas(before: &[InterfaceStats], now: &InterfaceStats) -> (r: Option<(u64, u64)>)
    ensures
        r == bytes_since(before@, *now),
{
    let mut i: usize = 0;
    assert(before@.skip(0) == before@);
    while i < before.len()
        invariant
            i <= before@.len(),
            stats_position(before@, now.name@) == i + stats_position(
                before@.skip(i as int),
                now.name@,
            ),
        decreases before@.len() - i,
    {
        let ghost rest = before@.skip(i as int);
        assert(rest[0] == before@[i as int]);
        assert(rest.drop_first() == before@.skip(i + 1));
        if same_name(&before[i].name, &now.name) {
            return Some(
                (
                    grown(before[i].rx_bytes, now.rx_bytes),
                    grown(before[i].tx_bytes, now.tx_bytes),
                ),
            );
        }
        i = i + 1;
    }
    None
}

/// `history` after one more sample, without its oldest one when it has grown
/// too long.
pub open spec fn with_sample(history: Seq<u64>, sample: u64) -> Seq<u64> {
    let longer = history.push(sample);
    if longer.len() > SPARKLINE_HISTORY {
        longer.skip(1)
    } else {
        longer
    }
}

/// Appends a sample to a history.
pub fn push_sample(history: &mut VecDeque<u64>, sample: u64)
    ensures
        final(history)@ == with_sample(old(history)@, sample),
{
    history.push_back(sample);
    if history.len() > SPARKLINE_HISTORY {
        let _ = history.pop_front();
    }
}

/// The position of the first interface called `name`, or the length.
pub open spec fn position(list: Seq<TrafficView>, name: Seq<char>) -> int
    decreases list.len(),
{
    if list.len() == 0 || list[0].name == name {
        0
    } else {
        1 + position(list.drop_first(), name)
    }
}

/// What is shown of an interface after a tick: its counters and rates as
/// read, and its histories from the tick before with the new samples.
pub open spec fn ticked(shown: Seq<TrafficView>, reading: Reading) -> TrafficView {
    let k = position(shown, reading.stats.name@);
    let old_rx = if k < shown.len() {
        shown[k].rx_history
    } else {
        seq![]
    };
    let old_tx = if k < shown.len() {
        shown[k].tx_history
    } else {
        seq![]
    };
    TrafficView {
        name: reading.stats.name@,
        rx_rate_bits: reading.rx_rate_bits,
        tx_rate_bits: reading.tx_rate_bits,
        rx_bytes_total: reading.stats.rx_bytes,
        tx_bytes_total: reading.stats.tx_bytes,
        rx_packets: reading.stats.rx_packets,
        tx_packets: reading.stats.tx_packets,
        rx_errors: reading.stats.rx_errors,
        tx_errors: reading.stats.tx_errors,
        rx_drops: reading.stats.rx_drops,
        tx_drops: reading.stats.tx_drops,
        rx_history: with_sample(old_rx, reading.rx_sample),
        tx_history: with_sample(old_tx, reading.tx_sample),
    }
}

fn find(shown: &[InterfaceTraffic], name: &String) -> (r: usize)
    ensures
        r == position(views(shown@), name@),
        r <= shown@.len(),
{
    let mut i: usize = 0;
    let ghost all = views(shown@);
    assert(all.skip(0) == all);
    while i < shown.len()
        invariant
            i <= shown@.len(),
            all == views(shown@),
            position(all, name@) == i + position(all.skip(i as int), name@),
        decreases shown@.len() - i,
    {
        let ghost rest = all.skip(i as int);
        assert(rest[0] == shown@[i as int]@);
        assert(rest.drop_first() == all.skip(i + 1));
        if same_name(&shown[i].name, name) {
            return i;
        }
        i = i + 1;
    }
    i
}

fn tick_one(shown: &[InterfaceTraffic], reading: &Reading) -> (r: InterfaceTraffic)
    ensures
        r@ == ticked(views(shown@), *reading),
{
    let k = find(shown, &reading.stats.name);
    let mut rx_history: VecDeque<u64> = VecDeque::new();
    let mut tx_history: VecDeque<u64> = VecDeque::new();
    if k < shown.len() {
        assert(views(shown@)[k as int] == shown@[k as int]@);
        rx_history = shown[k].rx_history.clone();
        tx_history = shown[k].tx_history.clone();
    }
    push_sample(&mut rx_history, reading.rx_sample);
    push_sample(&mut tx_history, reading.tx_sample);
    InterfaceTraffic {
        name: reading.stats.name.clone(),
        rx_rate_bits: reading.rx_rate_bits,
        tx_rate_bits: reading.tx_rate_bits,
        rx_bytes_total: reading.stats.rx_bytes,
        tx_bytes_total: reading.stats.tx_bytes,
        rx_packets: reading.stats.rx_packets,
        tx_packets: reading.stats.tx_packets,
        rx_errors: reading.stats.rx_errors,
        tx_errors: reading.stats.tx_errors,
        rx_drops: reading.stats.rx_drops,
        tx_drops: reading.stats.tx_drops,
        rx_history,
        tx_history,
    }
}

/// Whether a list of interfaces is in the order of their names.
pub open spec fn by_name(list: Seq<TrafficView>) -> bool {
    forall|i: int, j: int|
        0 <= i < j < list.len() ==> !text::precedes(#[trigger] list[j].name, #[trigger] list[i].name)
}

/// What is shown of each interface of a tick, in the order they were read.
pub open spec fn all_ticked(shown: Seq<TrafficView>, readings: Seq<Reading>) -> Seq<TrafficView> {
    readings.map_values(|r: Reading| ticked(shown, r))
}

fn name_precedes(a: &String, b: &String) -> (r: bool)
    ensures
        r == text::precedes(a@, b@),
{
    let a = text::chars_of(a.as_str());
    let b = text::chars_of(b.as_str());
    match text::order_of(a.as_slice(), b.as_slice()) {
        text::Order::Before => true,
        _ => false,
    }
}

/// Puts one more interface in its place among interfaces in name order.
fn insert_by_name(list: &mut Vec<InterfaceTraffic>, x: InterfaceTraffic)
    requires
        by_name(views(old(list)@)),
    ensures
        by_name(views(final(list)@)),
        views(final(list)@).to_multiset() == views(old(list)@).to_multiset().insert(x@),
{
    let ghost before = views(list@);
    let mut k: usize = 0;
    while k < list.len() && !name_precedes(&x.name, &list[k].name)
        invariant
            k <= list@.len(),
            views(list@) == before,
            forall|j: int|
                0 <= j < k ==> !text::precedes(x@.name, (#[trigger] before[j]).name),
        decreases list@.len() - k,
    {
        assert(before[k as int] == list@[k as int]@);
        k = k + 1;
    }
    assert(k < list@.len() ==> before[k as int] == list@[k as int]@);
    list.insert(k, x);
    proof {
        let after = views(list@);
        assert(after =~= before.insert(k as int, x@));
        to_multiset_insert(before, k as int, x@);
        assert forall|j: int| k <= j < before.len() implies !text::precedes(
            (#[trigger] before[j]).name,
            x@.name,
        ) by {
            let least = before[k as int].name;
            let other = before[j].name;
            text::lemma_precedes_trichotomy(least, other);
            text::lemma_precedes_trichotomy(x@.name, other);
            if text::precedes(least, other) {
                text::lemma_precedes_transitive(x@.name, least, other);
            }
        }
        assert forall|i: int, j: int| 0 <= i < j < after.len() implies !text::precedes(
            #[trigger] after[j].name,
            #[trigger] after[i].name,
        ) by {
            let a = if i < k {
                before[i]
            } else if i > k {
                before[i - 1]
            } else {
                x@
            };
            let b = if j < k {
                before[j]
            } else if j > k {
                before[j - 1]
            } else {
                x@
            };
            assert(after[i] == a && after[j] == b);
        }
    }
}

/// Takes one tick: what is shown of every interface that was read, with the
/// histories of `shown` carried on, in the order of the names.
pub fn tick(shown: &[InterfaceTraffic], readings: &[Reading]) -> (r: Vec<InterfaceTraffic>)
    ensures
        by_name(views(r@)),
        views(r@).to_multiset() == all_ticked(views(shown@), readings@).to_multiset(),
{
    broadcast use group_to_multiset_ensures;

    let mut r: Vec<InterfaceTraffic> = Vec::new();
    let mut i: usize = 0;
    let ghost all = all_ticked(views(shown@), readings@);
    assert(views(r@) =~= all.take(0));
    while i < readings.len()
        invariant
            i <= readings@.len(),
            all == all_ticked(views(shown@), readings@),
            by_name(views(r@)),
            views(r@).to_multiset() == all.take(i as int).to_multiset(),
        decreases readings@.len() - i,
    {
        let one = tick_one(shown, &readings[i]);
        proof {
            assert(one@ == all[i as int]);
            assert(all.take(i + 1) == all.take(i as int).push(one@));
            to_multiset_build(all.take(i as int), one@);
        }
        insert_by_name(&mut r, one);
        i = i + 1;
    }
    assert(all.take(i as int) == all);
    r
}

/// What a collector knows between two updates.
#[derive(Debug, Clone)]
pub struct Sampled {
    /// When the last sample was taken, in nanoseconds of a clock that never
    /// goes back.
    pub taken_ns: u64,
    /// The counters of the last sample.
    pub stats: Vec<InterfaceStats>,
    /// What is shown of the interfaces, in the order of their names.
    pub shown: Vec<InterfaceTraffic>,
}

/// Whether no two counters are of interfaces with the same name.
pub open spec fn distinct(stats: Seq<InterfaceStats>) -> bool {
    forall|i: int, j: int|
        0 <= i < j < stats.len() ==> (#[trigger] stats[i]).name@ != (#[trigger] stats[j]).name@
}

/// Whether interfaces are in the order of their names, each name once.
pub open spec fn strictly_by_name(list: Seq<TrafficView>) -> bool {
    forall|i: int, j: int|
        0 <= i < j < list.len() ==> text::precedes(#[trigger] list[i].name, #[trigger] list[j].name)
}

/// Whether every history holds at least one sample and not too many.
pub open spec fn histories_in_bounds(list: Seq<TrafficView>) -> bool {
    forall|i: int|
        0 <= i < list.len() ==> 1 <= (#[trigger] list[i]).rx_history.len() <= SPARKLINE_HISTORY
            && 1 <= list[i].tx_history.len() <= SPARKLINE_HISTORY
}

impl Sampled {
    /// The counters are a mapping from names, and what is shown is in strict
    /// name order with histories of bounded length.
    pub open spec fn well_formed(self) -> bool {
        &&& distinct(self.stats@)
        &&& strictly_by_name(views(self.shown@))
        &&& histories_in_bounds(views(self.shown@))
    }

    /// Whether an update at `now_ns` comes long enough after the last sample.
    pub open spec fn due_at(self, now_ns: u64) -> bool {
        growth(self.taken_ns, now_ns) >= MIN_INTERVAL_NS
    }

    /// The state before the first update: counters to measure from, and no
    /// interface shown.
    pub fn new(now_ns: u64, stats: Vec<InterfaceStats>) -> (r: Sampled)
        ensures
            r.taken_ns == now_ns,
            r.stats == stats,
            r.shown@ == Seq::<InterfaceTraffic>::empty(),
            distinct(stats@) ==> r.well_formed(),
    {
        Sampled { taken_ns: now_ns, stats, shown: Vec::new() }
    }

    /// The nanoseconds since the last sample; none when the clock stands.
    pub fn elapsed_ns(&self, now_ns: u64) -> (r: u64)
        ensures
            r == growth(self.taken_ns, now_ns),
    {
        grown(self.taken_ns, now_ns)
    }
}

/// The counters in a row of readings.
pub open spec fn counters(readings: Seq<Reading>) -> Seq<InterfaceStats> {
    readings.map_values(|r: Reading| r.stats)
}

fn copy_stats(s: &InterfaceStats) -> (r: InterfaceStats)
    ensures
        r == *s,
{
    InterfaceStats {
        name: s.name.clone(),
        rx_bytes: s.rx_bytes,
        tx_bytes: s.tx_bytes,
        rx_packets: s.rx_packets,
        tx_packets: s.tx_packets,
        rx_errors: s.rx_errors,
        tx_errors: s.tx_errors,
        rx_drops: s.rx_drops,
        tx_drops: s.tx_drops,
    }
}

fn copy_counters(readings: &[Reading]) -> (r: Vec<InterfaceStats>)
    ensures
        r@ == counters(readings@),
{
    let mut r: Vec<InterfaceStats> = Vec::new();
    let mut i: usize = 0;
    while i < readings.len()
        invariant
            i <= readings@.len(),
            r@ == counters(readings@.take(i as int)),
        decreases readings@.len() - i,
    {
        r.push(copy_stats(&readings[i].stats));
        assert(r@ =~= counters(readings@.take(i + 1)));
        i = i + 1;
    }
    assert(readings@.take(i as int) == readings@);
    r
}

/// The state after an update at `now_ns`, and whether it took a sample. One
/// that comes too early, or without a reading, leaves everything as it was.
/// Any other one records the time and the counters that were read, and shows
/// the interfaces that were read. A well-formed state stays so, as long as no
/// interface was read twice.
pub fn after_update(state: Sampled, now_ns: u64, read: Option<Vec<Reading>>) -> (r: (Sampled, bool))
    ensures
        r.1 == (state.due_at(now_ns) && read is Some),
        !r.1 ==> r.0 == state,
        r.1 ==> {
            let readings = read->0@;
            &&& r.0.taken_ns == now_ns
            &&& r.0.stats@ == counters(readings)
            &&& by_name(views(r.0.shown@))
            &&& views(r.0.shown@).to_multiset() == all_ticked(
                views(state.shown@),
                readings,
            ).to_multiset()
        },
        state.well_formed() && (read matches Some(readings) ==> distinct(counters(readings@)))
            ==> r.0.well_formed(),
{
    if !is_due(state.elapsed_ns(now_ns)) {
        return (state, false);
    }
    match read {
        None => (state, false),
        Some(readings) => {
            let stats = copy_counters(readings.as_slice());
            let shown = tick(state.shown.as_slice(), readings.as_slice());
            proof {
                if state.well_formed() && distinct(counters(readings@)) {
                    law_updates_keep_order_and_bound(
                        views(state.shown@),
                        readings@,
                        views(shown@),
                    );
                }
            }
            (Sampled { taken_ns: now_ns, stats, shown }, true)
        },
    }
}

/// A history that is not too long stays so, ends with the newest sample, and
/// keeps the others in order, all of them while there is room.
pub proof fn law_histories_are_bounded(history: Seq<u64>, sample: u64)
    requires
        history.len() <= SPARKLINE_HISTORY,
    ensures
        with_sample(history, sample).len() <= SPARKLINE_HISTORY,
        with_sample(history, sample).last() == sample,
        history.len() < SPARKLINE_HISTORY ==> with_sample(history, sample).drop_last() == history,
        history.len() == SPARKLINE_HISTORY ==> with_sample(history, sample).drop_last()
            == history.skip(1),
{
}

/// With histories that are not too long before a tick, there is none after
/// it: the bound holds at every tick.
pub proof fn law_ticks_keep_the_bound(shown: Seq<TrafficView>, reading: Reading)
    requires
        forall|i: int|
            0 <= i < shown.len() ==> (#[trigger] shown[i]).rx_history.len() <= SPARKLINE_HISTORY
                && shown[i].tx_history.len() <= SPARKLINE_HISTORY,
    ensures
        1 <= ticked(shown, reading).rx_history.len() <= SPARKLINE_HISTORY,
        1 <= ticked(shown, reading).tx_history.len() <= SPARKLINE_HISTORY,
{
    lemma_position(shown, reading.stats.name@);
}

proof fn lemma_position(list: Seq<TrafficView>, name: Seq<char>)
    ensures
        0 <= position(list, name) <= list.len(),
        position(list, name) < list.len() ==> list[position(list, name)].name == name,
    decreases list.len(),
{
    if list.len() > 0 && list[0].name != name {
        lemma_position(list.drop_first(), name);
    }
}

/// Interfaces with different names can be put in name order in one way only.
proof fn lemma_name_order_is_unique(a: Seq<TrafficView>, b: Seq<TrafficView>)
    requires
        by_name(a),
        by_name(b),
        a.to_multiset() == b.to_multiset(),
        forall|i: int, j: int|
            0 <= i < j < a.len() ==> (#[trigger] a[i]).name != (#[trigger] a[j]).name,
    ensures
        a == b,
    decreases a.len(),
{
    broadcast use group_to_multiset_ensures;

    to_multiset_len(a);
    to_multiset_len(b);
    if a.len() > 0 {
        let x = a[0];
        let y = b[0];
        assert(b.to_multiset().count(x) > 0) by {
            assert(a.contains(x));
        }
        assert(b.contains(x));
        assert(a.to_multiset().count(y) > 0) by {
            assert(b.contains(y));
        }
        assert(a.contains(y));
        let i = choose|i: int| 0 <= i < b.len() && b[i] == x;
        let j = choose|j: int| 0 <= j < a.len() && a[j] == y;
        if x != y {
            assert(!text::precedes(b[i].name, b[0].name));
            assert(!text::precedes(a[j].name, a[0].name));
            text::lemma_precedes_trichotomy(x.name, y.name);
            assert(x.name == y.name);
            assert(a[0].name != a[j].name);
            assert(false);
        }
        assert(a.remove(0) == a.drop_first());
        assert(b.remove(0) == b.drop_first());
        to_multiset_remove(a, 0);
        to_multiset_remove(b, 0);
        let a1 = a.drop_first();
        let b1 = b.drop_first();
        assert forall|p: int, q: int| 0 <= p < q < a1.len() implies (#[trigger] a1[p]).name != (
        #[trigger] a1[q]).name by {
            assert(a1[p] == a[p + 1] && a1[q] == a[q + 1]);
        }
        assert forall|p: int, q: int| 0 <= p < q < a1.len() implies !text::precedes(
            #[trigger] a1[q].name,
            #[trigger] a1[p].name,
        ) by {
            assert(a1[p] == a[p + 1] && a1[q] == a[q + 1]);
        }
        assert forall|p: int, q: int| 0 <= p < q < b1.len() implies !text::precedes(
            #[trigger] b1[q].name,
            #[trigger] b1[p].name,
        ) by {
            assert(b1[p] == b[p + 1] && b1[q] == b[q + 1]);
        }
        lemma_name_order_is_unique(a1, b1);
        assert(a =~= seq![x] + a1);
        assert(b =~= seq![x] + b1);
    } else {
        assert(a =~= b);
    }
}

proof fn lemma_ticked_reordered(shown: Seq<TrafficView>, p: Seq<Reading>, q: Seq<Reading>)
    requires
        p.to_multiset() == q.to_multiset(),
    ensures
        all_ticked(shown, p).to_multiset() == all_ticked(shown, q).to_multiset(),
    decreases p.len(),
{
    broadcast use group_to_multiset_ensures;

    to_multiset_len(p);
    to_multiset_len(q);
    if p.len() > 0 {
        let x = p[0];
        assert(p.contains(x));
        to_multiset_contains(p, x);
        to_multiset_contains(q, x);
        let i = choose|i: int| 0 <= i < q.len() && q[i] == x;
        to_multiset_remove(p, 0);
        to_multiset_remove(q, i);
        lemma_ticked_reordered(shown, p.remove(0), q.remove(i));
        let a = all_ticked(shown, p);
        let b = all_ticked(shown, q);
        assert(all_ticked(shown, p.remove(0)) =~= a.remove(0));
        assert(all_ticked(shown, q.remove(i)) =~= b.remove(i));
        to_multiset_remove(a, 0);
        to_multiset_remove(b, i);
        assert(a[0] == b[i]);
        assert(a.contains(a[0]) && b.contains(b[i]));
        to_multiset_contains(a, a[0]);
        to_multiset_contains(b, b[i]);
        assert(a.to_multiset() =~= a.to_multiset().remove(a[0]).insert(a[0]));
        assert(b.to_multiset() =~= b.to_multiset().remove(b[i]).insert(b[i]));
    } else {
        assert(p =~= q);
    }
}

/// Interfaces that were read under different names are shown under different
/// names.
proof fn lemma_ticked_names_differ(shown: Seq<TrafficView>, p: Seq<Reading>, a: Seq<TrafficView>)
    requires
        distinct(counters(p)),
        a.to_multiset() == all_ticked(shown, p).to_multiset(),
    ensures
        forall|i: int, j: int|
            0 <= i < j < a.len() ==> (#[trigger] a[i]).name != (#[trigger] a[j]).name,
{
    let names = counters(p);
    let t = all_ticked(shown, p);
    assert(t.no_duplicates()) by {
        assert forall|i: int, j: int| 0 <= i < t.len() && 0 <= j < t.len() && i != j implies t[i]
            != t[j] by {
            assert(t[i].name == names[i].name@);
            assert(t[j].name == names[j].name@);
        }
    }
    t.lemma_multiset_has_no_duplicates();
    a.lemma_multiset_has_no_duplicates_conv();
    assert forall|i: int, j: int| 0 <= i < j < a.len() implies (#[trigger] a[i]).name != (
    #[trigger] a[j]).name by {
        assert(a.contains(a[i]) && a.contains(a[j]));
        to_multiset_contains(a, a[i]);
        to_multiset_contains(a, a[j]);
        to_multiset_contains(t, a[i]);
        to_multiset_contains(t, a[j]);
        let k = choose|k: int| 0 <= k < t.len() && t[k] == a[i];
        let l = choose|l: int| 0 <= l < t.len() && t[l] == a[j];
        assert(t[k].name == names[k].name@);
        assert(t[l].name == names[l].name@);
        assert(k != l);
    }
}

/// After an update whose readings have different names, what is shown is in
/// strict name order, and every history holds between one sample and the
/// bound, given that none was longer than the bound before.
pub proof fn law_updates_keep_order_and_bound(
    shown: Seq<TrafficView>,
    readings: Seq<Reading>,
    after: Seq<TrafficView>,
)
    requires
        forall|i: int|
            0 <= i < shown.len() ==> (#[trigger] shown[i]).rx_history.len() <= SPARKLINE_HISTORY
                && shown[i].tx_history.len() <= SPARKLINE_HISTORY,
        distinct(counters(readings)),
        by_name(after),
        after.to_multiset() == all_ticked(shown, readings).to_multiset(),
    ensures
        strictly_by_name(after),
        histories_in_bounds(after),
{
    let t = all_ticked(shown, readings);
    lemma_ticked_names_differ(shown, readings, after);
    assert forall|i: int, j: int| 0 <= i < j < after.len() implies text::precedes(
        #[trigger] after[i].name,
        #[trigger] after[j].name,
    ) by {
        text::lemma_precedes_trichotomy(after[i].name, after[j].name);
    }
    assert forall|i: int| 0 <= i < after.len() implies 1 <= (
    #[trigger] after[i]).rx_history.len() <= SPARKLINE_HISTORY && 1 <= after[i].tx_history.len()
        <= SPARKLINE_HISTORY by {
        assert(after.contains(after[i]));
        to_multiset_contains(after, after[i]);
        to_multiset_contains(t, after[i]);
        let k = choose|k: int| 0 <= k < t.len() && t[k] == after[i];
        law_ticks_keep_the_bound(shown, readings[k]);
    }
}

/// What a tick shows does not depend on the order in which the interfaces
/// were read, as long as no two of them have the same name.
pub proof fn law_reading_order_is_irrelevant(
    shown: Seq<TrafficView>,
    p: Seq<Reading>,
    q: Seq<Reading>,
    a: Seq<TrafficView>,
    b: Seq<TrafficView>,
)
    requires
        p.to_multiset() == q.to_multiset(),
        distinct(counters(p)),
        by_name(a),
        a.to_multiset() == all_ticked(shown, p).to_multiset(),
        by_name(b),
        b.to_multiset() == all_ticked(shown, q).to_multiset(),
    ensures
        a == b,
{
    lemma_ticked_reordered(shown, p, q);
    lemma_ticked_names_differ(shown, p, a);
    lemma_name_order_is_unique(a, b);
}

/// Growth is measured from the last sample: after an update that took the
/// readings `readings`, an interface among them has grown by what its
/// counters gained on its reading, and one that is not among them is new.
pub proof fn law_growth_is_measured_from_the_last_sample(
    readings: Seq<Reading>,
    now: InterfaceStats,
)
    requires
        forall|i: int, j: int|
            0 <= i < j < readings.len() ==> (#[trigger] readings[i]).stats.name@ != (
            #[trigger] readings[j]).stats.name@,
    ensures
        forall|i: int|
            0 <= i < readings.len() && (#[trigger] readings[i]).stats.name@ == now.name@
                ==> bytes_since(counters(readings), now) == Some(
                (
                    growth(readings[i].stats.rx_bytes, now.rx_bytes),
                    growth(readings[i].stats.tx_bytes, now.tx_bytes),
                ),
            ),
        (forall|i: int|
            0 <= i < readings.len() ==> (#[trigger] readings[i]).stats.name@ != now.name@)
            ==> bytes_since(counters(readings), now) is None,
{
    let list = counters(readings);
    let k = stats_position(list, now.name@);
    lemma_stats_position(list, now.name@);
    assert forall|i: int|
        0 <= i < readings.len() && (#[trigger] readings[i]).stats.name@ == now.name@ implies k
        == i by {
        assert(list[i] == readings[i].stats);
        if k < i {
            assert(list[k] == readings[k].stats);
        }
    }
    if k < list.len() {
        assert(list[k] == readings[k].stats);
    }
}

proof fn lemma_stats_position(list: Seq<InterfaceStats>, name: Seq<char>)
    ensures
        0 <= stats_position(list, name) <= list.len(),
        stats_position(list, name) < list.len() ==> list[stats_position(list, name)].name@ == name,
        forall|i: int|
            0 <= i < stats_position(list, name) ==> (#[trigger] list[i]).name@ != name,
    decreases list.len(),
{
    if list.len() > 0 && list[0].name@ != name {
        let rest = list.drop_first();
        lemma_stats_position(rest, name);
        assert forall|i: int| 0 <= i < stats_position(list, name) implies (
        #[trigger] list[i]).name@ != name by {
            if i > 0 {
                assert(list[i] == rest[i - 1]);
            }
        }
    }
}

/// A counter has grown by what was added to it, and by nothing when it was
/// reset.
pub proof fn law_growth(before: u64, added: u64)
    ensures
        before + added <= u64::MAX ==> growth(before, (before + added) as u64) == added,
        added > 0 && before >= added ==> growth(before, (before - added) as u64) == 0,
{
}

/// An update is due a hundredth of a second after the last sample, and not
/// before.
pub proof fn law_updates_keep_their_distance(state: Sampled, now_ns: u64)
    ensures
        state.due_at(now_ns) <==> now_ns >= state.taken_ns + 10_000_000,
{
}

/// An interface goes on with its own histories: those shown under its name,
/// with the new samples at the end, and without the oldest when there were
/// six hundred already.
pub proof fn law_histories_are_carried_on(shown: Seq<TrafficView>, reading: Reading, k: int)
    requires
        0 <= k < shown.len(),
        shown[k].name == reading.stats.name@,
        forall|i: int| 0 <= i < shown.len() && i != k ==> (#[trigger] shown[i]).name
            != reading.stats.name@,
        shown[k].rx_history.len() <= 600,
        shown[k].tx_history.len() <= 600,
    ensures
        ({
            let rx = shown[k].rx_history;
            let tx = shown[k].tx_history;
            let next = ticked(shown, reading);
            &&& rx.len() < 600 ==> next.rx_history == rx.push(reading.rx_sample)
            &&& rx.len() == 600 ==> next.rx_history == rx.skip(1).push(reading.rx_sample)
            &&& tx.len() < 600 ==> next.tx_history == tx.push(reading.tx_sample)
            &&& tx.len() == 600 ==> next.tx_history == tx.skip(1).push(reading.tx_sample)
        }),
{
    lemma_position(shown, reading.stats.name@);
    let p = position(shown, reading.stats.name@);
    if p == shown.len() {
        lemma_position_passes(shown, reading.stats.name@, k);
    }
    assert(p == k);
    let rx = shown[k].rx_history;
    let tx = shown[k].tx_history;
    assert(rx.len() == 600 ==> rx.push(reading.rx_sample).skip(1) =~= rx.skip(1).push(
        reading.rx_sample,
    ));
    assert(tx.len() == 600 ==> tx.push(reading.tx_sample).skip(1) =~= tx.skip(1).push(
        reading.tx_sample,
    ));
}

/// An interface that was not shown before starts its histories with the first
/// samples.
pub proof fn law_new_interfaces_start_afresh(shown: Seq<TrafficView>, reading: Reading)
    requires
        forall|i: int| 0 <= i < shown.len() ==> (#[trigger] shown[i]).name != reading.stats.name@,
    ensures
        ticked(shown, reading).rx_history == seq![reading.rx_sample],
        ticked(shown, reading).tx_history == seq![reading.tx_sample],
{
    lemma_position(shown, reading.stats.name@);
    assert(Seq::<u64>::empty().push(reading.rx_sample) =~= seq![reading.rx_sample]);
    assert(Seq::<u64>::empty().push(reading.tx_sample) =~= seq![reading.tx_sample]);
}

proof fn lemma_position_passes(list: Seq<TrafficView>, name: Seq<char>, k: int)
    requires
        0 <= k < list.len(),
        list[k].name == name,
    ensures
        position(list, name) <= k,
    decreases list.len(),
{
    if list[0].name != name {
        assert(list.drop_first()[k - 1] == list[k]);
        lemma_position_passes(list.drop_first(), name, k - 1);
    }
}

/// Name, counters and rates are shown as they were read, each in its place.
pub proof fn law_readings_are_shown(shown: Seq<TrafficView>, reading: Reading)
    ensures
        ({
            let next = ticked(shown, reading);
            let stats = reading.stats;
            &&& next.name == stats.name@
            &&& next.rx_rate_bits == reading.rx_rate_bits && next.tx_rate_bits
                == reading.tx_rate_bits
            &&& next.rx_bytes_total == stats.rx_bytes && next.tx_bytes_total == stats.tx_bytes
            &&& next.rx_packets == stats.rx_packets && next.tx_packets == stats.tx_packets
            &&& next.rx_errors == stats.rx_errors && next.tx_errors == stats.tx_errors
            &&& next.rx_drops == stats.rx_drops && next.tx_drops == stats.tx_drops
        }),
{
}

/// Whether an interface is shown as one of the readings says.
pub open spec fn was_read(shown: Seq<TrafficView>, readings: Seq<Reading>, x: TrafficView) -> bool {
    exists|k: int| 0 <= k < readings.len() && x == ticked(shown, #[trigger] readings[k])
}

/// After a tick exactly the interfaces that were read are shown, each as its
/// own reading says.
pub proof fn law_shown_are_those_read(
    shown: Seq<TrafficView>,
    readings: Seq<Reading>,
    after: Seq<TrafficView>,
)
    requires
        after.to_multiset() == all_ticked(shown, readings).to_multiset(),
    ensures
        after.len() == readings.len(),
        forall|k: int|
            0 <= k < readings.len() ==> after.contains(ticked(shown, #[trigger] readings[k])),
        forall|i: int| 0 <= i < after.len() ==> was_read(shown, readings, #[trigger] after[i]),
{
    let t = all_ticked(shown, readings);
    to_multiset_len(after);
    to_multiset_len(t);
    assert forall|k: int| 0 <= k < readings.len() implies after.contains(
        ticked(shown, #[trigger] readings[k]),
    ) by {
        assert(t[k] == ticked(shown, readings[k]));
        assert(t.contains(t[k]));
        to_multiset_contains(t, t[k]);
        to_multiset_contains(after, t[k]);
    }
    assert forall|i: int| 0 <= i < after.len() implies was_read(
        shown,
        readings,
        #[trigger] after[i],
    ) by {
        assert(after.contains(after[i]));
        to_multiset_contains(after, after[i]);
        to_multiset_contains(t, after[i]);
        let k = choose|k: int| 0 <= k < t.len() && t[k] == after[i];
        assert(after[i] == ticked(shown, readings[k]));
    }
}

/// The counters that an update records are those of the readings, in order.
pub proof fn law_counters_are_those_read(readings: Seq<Reading>, i: int)
    requires
        0 <= i < readings.len(),
    ensures
        counters(readings).len() == readings.len(),
        counters(readings)[i] == readings[i].stats,
{
}

/// The view of an interface keeps every field, and lists keep their order.
pub proof fn law_views(x: InterfaceTraffic, list: Seq<InterfaceTraffic>, i: int)
    ensures
        x@.name == x.name@,
        x@.rx_rate_bits == x.rx_rate_bits && x@.tx_rate_bits == x.tx_rate_bits,
        x@.rx_bytes_total == x.rx_bytes_total && x@.tx_bytes_total == x.tx_bytes_total,
        x@.rx_packets == x.rx_packets && x@.tx_packets == x.tx_packets,
        x@.rx_errors == x.rx_errors && x@.tx_errors == x.tx_errors,
        x@.rx_drops == x.rx_drops && x@.tx_drops == x.tx_drops,
        x@.rx_history == x.rx_history@ && x@.tx_history == x.tx_history@,
        views(list).len() == list.len(),
        0 <= i < list.len() ==> views(list)[i] == list[i]@,
{
}

/// Name order: of two interfaces in a list, the later one's name does not
/// precede the earlier one's.
pub proof fn law_name_order(list: Seq<TrafficView>)
    ensures
        by_name(list) <==> forall|i: int, j: int|
            0 <= i < j < list.len() ==> #[trigger] list[i].name == #[trigger] list[j].name
                || text::precedes(list[i].name, list[j].name),
{
    assert forall|i: int, j: int| 0 <= i < j < list.len() implies (!text::precedes(
        #[trigger] list[j].name,
        #[trigger] list[i].name,
    )) == (list[i].name == list[j].name || text::precedes(list[i].name, list[j].name)) by {
        text::lemma_precedes_trichotomy(list[i].name, list[j].name);
    }
}

} // verus!
