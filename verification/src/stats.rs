//! Time spent per activity, computed from the events of a log within a
//! window of time.

use vstd::prelude::*;
use crate::activity::{
    key_less, lemma_key_less_irreflexive, lemma_key_less_total, lemma_key_less_transitive,
    Activity,
};
use crate::event::{Event, EventModel, TimedEvent, TimedEventModel};

verus! {

/// A span of time credited to an activity, with identifiers as sequences
/// of characters.
pub struct IntervalModel {
    pub start: int,
    pub end: int,
    pub activity: Seq<char>,
    pub duration: int,
}

/// A span of time credited to an activity: from the switch to it until the
/// next switch.
#[derive(Debug)]
pub struct Interval {
    pub start: i64,
    pub end: i64,
    pub activity: Activity,
    pub duration: i64,
}

impl View for Interval {
    type V = IntervalModel;

    open spec fn view(&self) -> IntervalModel {
        IntervalModel {
            start: self.start as int,
            end: self.end as int,
            activity: self.activity@,
            duration: self.duration as int,
        }
    }
}

/// The seconds credited to one activity.
#[derive(Debug)]
pub struct Total {
    pub activity: Activity,
    pub seconds: i64,
}

/// What a replay has gathered so far: the activity that is running and
/// since when, the intervals closed so far, and the seconds per activity.
pub struct Tally {
    pub open: Option<(Seq<char>, int)>,
    pub intervals: Seq<IntervalModel>,
    pub totals: Map<Seq<char>, int>,
}

/// The tally before any event.
pub open spec fn empty_tally() -> Tally {
    Tally { open: None, intervals: Seq::empty(), totals: Map::empty() }
}

/// The seconds that `totals` holds for `name`: none where it has no entry.
pub open spec fn seconds_of(totals: Map<Seq<char>, int>, name: Seq<char>) -> int {
    if totals.dom().contains(name) {
        totals[name]
    } else {
        0
    }
}

/// `totals` with `seconds` more for `name`.
pub open spec fn credit(totals: Map<Seq<char>, int>, name: Seq<char>, seconds: int) -> Map<
    Seq<char>,
    int,
> {
    totals.insert(name, seconds_of(totals, name) + seconds)
}

/// The tally after a switch at `now`: the running activity, if any, is
/// credited with the time since it began.
pub open spec fn close_open(t: Tally, now: int) -> Tally {
    match t.open {
        Some((name, since)) => Tally {
            open: t.open,
            intervals: t.intervals.push(
                IntervalModel { start: since, end: now, activity: name, duration: now - since },
            ),
            totals: credit(t.totals, name, now - since),
        },
        None => t,
    }
}

/// The activity that runs after a switch to `target` at `now`.
pub open spec fn opened(target: Option<Seq<char>>, now: int) -> Option<(Seq<char>, int)> {
    match target {
        Some(name) => Some((name, now)),
        None => None,
    }
}

/// Whether an event lies in the window from `start` to `end`, both
/// included.
pub open spec fn in_window(e: TimedEventModel, start: int, end: int) -> bool {
    start <= e.timestamp <= end
}

/// The tally after one more event. An event outside the window changes
/// nothing. Inside it, a power-off forgets the running activity without
/// crediting it, a power-on changes nothing, and a switch credits the
/// running activity and starts the next.
pub open spec fn tally_step(t: Tally, e: TimedEventModel, start: int, end: int) -> Tally {
    if !in_window(e, start, end) {
        t
    } else {
        match e.event {
            EventModel::Power(on) => if on {
                t
            } else {
                Tally { open: None, intervals: t.intervals, totals: t.totals }
            },
            EventModel::SwitchActivity(target) => {
                let closed = close_open(t, e.timestamp);
                Tally {
                    open: opened(target, e.timestamp),
                    intervals: closed.intervals,
                    totals: closed.totals,
                }
            },
        }
    }
}

/// The tally after all of `events`, taken in order.
pub open spec fn tally(events: Seq<TimedEventModel>, start: int, end: int) -> Tally
    decreases events.len(),
{
    if events.len() == 0 {
        empty_tally()
    } else {
        tally_step(tally(events.drop_last(), start, end), events.last(), start, end)
    }
}

/// Whether every duration and every total of the tally is an `i64`.
pub open spec fn fits(t: Tally) -> bool {
    &&& forall|i: int|
        0 <= i < t.intervals.len() ==> i64::MIN <= (#[trigger] t.intervals[i]).duration
            <= i64::MAX
    &&& forall|k: Seq<char>| #[trigger]
        t.totals.dom().contains(k) ==> i64::MIN <= t.totals[k] <= i64::MAX
}

/// Whether the tally stops fitting with the event at index `k`.
pub open spec fn overflows_at(events: Seq<TimedEventModel>, start: int, end: int, k: int) -> bool {
    !fits(tally(events.take(k + 1), start, end))
}

/// The events as models.
pub open spec fn models(events: Seq<TimedEvent>) -> Seq<TimedEventModel> {
    events.map_values(|e: TimedEvent| e@)
}

/// The intervals as models.
pub open spec fn interval_models(intervals: Seq<Interval>) -> Seq<IntervalModel> {
    intervals.map_values(|x: Interval| x@)
}

/// Whether `totals` has an entry for `name`.
pub open spec fn has_entry(totals: Seq<Total>, name: Seq<char>) -> bool {
    exists|i: int| 0 <= i < totals.len() && (#[trigger] totals[i]).activity@ == name
}

/// An index at which `totals` holds `name`, where there is one.
pub open spec fn entry_index(totals: Seq<Total>, name: Seq<char>) -> int {
    choose|i: int| 0 <= i < totals.len() && (#[trigger] totals[i]).activity@ == name
}

/// No two entries are for the same activity.
pub open spec fn distinct(totals: Seq<Total>) -> bool {
    forall|i: int, j: int|
        0 <= i < j < totals.len() ==> (#[trigger] totals[i]).activity@ != (
        #[trigger] totals[j]).activity@
}

/// The entries as a map from identifier to seconds.
pub open spec fn totals_map(totals: Seq<Total>) -> Map<Seq<char>, int> {
    Map::new(
        |name: Seq<char>| has_entry(totals, name),
        |name: Seq<char>| totals[entry_index(totals, name)].seconds as int,
    )
}

/// The result of a replay: the intervals in the order in which they were
/// closed, and one total per activity that was credited.
#[derive(Debug)]
pub struct Stats {
    pub intervals: Vec<Interval>,
    pub totals: Vec<Total>,
}

/// The replay stopped because a duration or a total left the range of
/// `i64` with the event at `index`.
#[derive(Debug)]
pub struct Overflow {
    pub index: usize,
}

/// With distinct entries, the map holds for each entry its seconds.
pub proof fn lemma_entry(totals: Seq<Total>, j: int)
    requires
        distinct(totals),
        0 <= j < totals.len(),
    ensures
        has_entry(totals, totals[j].activity@),
        entry_index(totals, totals[j].activity@) == j,
        totals_map(totals).dom().contains(totals[j].activity@),
        totals_map(totals)[totals[j].activity@] == totals[j].seconds,
{
    let name = totals[j].activity@;
    assert(has_entry(totals, name));
    let k = entry_index(totals, name);
    assert(0 <= k < totals.len() && totals[k].activity@ == name);
    if k < j {
        assert(totals[k].activity@ != totals[j].activity@);
    } else if j < k {
        assert(totals[j].activity@ != totals[k].activity@);
    }
}

/// The entries stand in the order of their identifiers, each before the
/// next.
pub open spec fn sorted(totals: Seq<Total>) -> bool {
    forall|i: int, j: int|
        0 <= i < j < totals.len() ==> key_less(
            (#[trigger] totals[i]).activity@,
            (#[trigger] totals[j]).activity@,
        )
}

/// Entries in order are entries for different activities.
pub proof fn lemma_sorted_distinct(totals: Seq<Total>)
    requires
        sorted(totals),
    ensures
        distinct(totals),
{
    assert forall|i: int, j: int| 0 <= i < j < totals.len() implies (
    #[trigger] totals[i]).activity@ != (#[trigger] totals[j]).activity@ by {
        lemma_key_less_irreflexive(totals[i].activity@);
    }
}

/// Puts a new entry for `name` at index `at`, where all entries before it
/// stand before `name` and all others after it.
fn insert_total(totals: &mut Vec<Total>, at: usize, name: &Activity, seconds: i64)
    requires
        sorted(old(totals)@),
        at <= old(totals)@.len(),
        forall|i: int| 0 <= i < at ==> key_less((#[trigger] old(totals)@[i]).activity@, name@),
        forall|i: int|
            at <= i < old(totals)@.len() ==> key_less(
                name@,
                (#[trigger] old(totals)@[i]).activity@,
            ),
    ensures
        sorted(final(totals)@),
        !has_entry(old(totals)@, name@),
        totals_map(final(totals)@) == credit(totals_map(old(totals)@), name@, seconds as int),
{
    let ghost before = totals@;
    totals.insert(at, Total { activity: name.clone(), seconds });
    proof {
        let after = totals@;
        lemma_key_less_irreflexive(name@);
        assert(!has_entry(before, name@));
        assert forall|a: int, b: int| 0 <= a < b < after.len() implies key_less(
            (#[trigger] after[a]).activity@,
            (#[trigger] after[b]).activity@,
        ) by {
            if b < at {
                assert(key_less(before[a].activity@, before[b].activity@));
            } else if b == at {
                assert(key_less(before[a].activity@, name@));
            } else if a < at {
                assert(key_less(before[a].activity@, before[b - 1].activity@));
            } else if a == at {
                assert(key_less(name@, before[b - 1].activity@));
            } else {
                assert(key_less(before[a - 1].activity@, before[b - 1].activity@));
            }
        }
        lemma_sorted_distinct(before);
        lemma_sorted_distinct(after);
        assert forall|k: Seq<char>| has_entry(after, k) <==> (has_entry(before, k) || k
            == name@) by {
            if has_entry(after, k) {
                let i = entry_index(after, k);
                if i < at {
                    assert(before[i].activity@ == k);
                } else if i > at {
                    assert(before[i - 1].activity@ == k);
                }
            }
            if has_entry(before, k) {
                let i = entry_index(before, k);
                if i < at {
                    assert(after[i].activity@ == k);
                } else {
                    assert(after[i + 1].activity@ == k);
                }
            }
            if k == name@ {
                assert(after[at as int].activity@ == k);
            }
        }
        assert forall|k: Seq<char>| has_entry(after, k) implies totals_map(after)[k] == credit(
            totals_map(before),
            name@,
            seconds as int,
        )[k] by {
            let i = entry_index(after, k);
            lemma_entry(after, i);
            if i < at {
                lemma_entry(before, i);
            } else if i > at {
                lemma_entry(before, i - 1);
            }
        }
        assert(totals_map(after) =~= credit(totals_map(before), name@, seconds as int));
    }
}

/// Adds `seconds` to the entry for `name`, or makes the entry, in its
/// place in the order. Returns `false`, and changes nothing, where the sum
/// is no `i64`.
fn credit_total(totals: &mut Vec<Total>, name: &Activity, seconds: i64) -> (ok: bool)
    requires
        sorted(old(totals)@),
    ensures
        ok <==> i64::MIN <= seconds_of(totals_map(old(totals)@), name@) + seconds <= i64::MAX,
        ok ==> totals_map(final(totals)@) == credit(totals_map(old(totals)@), name@, seconds as int),
        ok ==> sorted(final(totals)@),
        !ok ==> final(totals)@ == old(totals)@,
{
    proof {
        lemma_sorted_distinct(totals@);
    }
    let mut j: usize = 0;
    while j < totals.len()
        invariant
            j <= totals.len(),
            totals@ == old(totals)@,
            sorted(totals@),
            distinct(totals@),
            forall|i: int| 0 <= i < j ==> key_less((#[trigger] totals@[i]).activity@, name@),
        decreases totals.len() - j,
    {
        if totals[j].activity == *name {
            proof {
                lemma_entry(totals@, j as int);
            }
            let sum = totals[j].seconds.checked_add(seconds);
            match sum {
                Some(s) => {
                    let ghost before = totals@;
                    totals.set(j, Total { activity: name.clone(), seconds: s });
                    proof {
                        let after = totals@;
                        assert(sorted(after)) by {
                            assert forall|a: int, b: int| 0 <= a < b < after.len() implies key_less(
                                (#[trigger] after[a]).activity@,
                                (#[trigger] after[b]).activity@,
                            ) by {
                                assert(key_less(before[a].activity@, before[b].activity@));
                            }
                        }
                        lemma_sorted_distinct(after);
                        assert forall|k: Seq<char>| has_entry(after, k) <==> has_entry(
                            before,
                            k,
                        ) by {
                            if has_entry(after, k) {
                                let i = entry_index(after, k);
                                assert(before[i].activity@ == k);
                            }
                            if has_entry(before, k) {
                                let i = entry_index(before, k);
                                assert(after[i].activity@ == k);
                            }
                        }
                        assert forall|k: Seq<char>| has_entry(after, k) implies totals_map(
                            after,
                        )[k] == credit(totals_map(before), name@, seconds as int)[k] by {
                            let i = entry_index(after, k);
                            lemma_entry(after, i);
                            lemma_entry(before, i);
                        }
                        assert(totals_map(after) =~= credit(
                            totals_map(before),
                            name@,
                            seconds as int,
                        ));
                    }
                    return true;
                },
                None => {
                    return false;
                },
            }
        }
        if name.precedes(&totals[j].activity) {
            proof {
                assert forall|i: int| j <= i < totals@.len() implies key_less(
                    name@,
                    (#[trigger] totals@[i]).activity@,
                ) by {
                    if i > j {
                        assert(key_less(totals@[j as int].activity@, totals@[i].activity@));
                        lemma_key_less_transitive(
                            name@,
                            totals@[j as int].activity@,
                            totals@[i].activity@,
                        );
                    }
                }
            }
            insert_total(totals, j, name, seconds);
            return true;
        }
        proof {
            lemma_key_less_total(totals@[j as int].activity@, name@);
        }
        j = j + 1;
    }
    insert_total(totals, j, name, seconds);
    true
}

/// The running activity as a model.
pub open spec fn open_model(open: Option<(Activity, i64)>) -> Option<(Seq<char>, int)> {
    match open {
        Some((name, since)) => Some((name@, since as int)),
        None => None,
    }
}

/// Taking one more event of a sequence is one more step of the tally.
pub proof fn lemma_tally_take(events: Seq<TimedEventModel>, start: int, end: int, i: int)
    requires
        0 <= i < events.len(),
    ensures
        tally(events.take(i + 1), start, end) == tally_step(
            tally(events.take(i), start, end),
            events[i],
            start,
            end,
        ),
{
    assert(events.take(i + 1).drop_last() =~= events.take(i));
}

/// Replays `events` over the window from `start` to `end`, both included.
///
/// An event outside the window is passed over. Inside it, a switch credits
/// the activity that was running with the seconds since its own switch,
/// and a power-off forgets the running activity without crediting it.
/// Returns the intervals in order and one total per credited activity, in
/// the order of the identifiers, or
/// the index of the first event with which a duration or a total left the
/// range of `i64`.
pub fn aggregate(events: &Vec<TimedEvent>, start: i64, end: i64) -> (r: Result<Stats, Overflow>)
    ensures
        r is Ok <==> forall|k: int|
            0 <= k < events.len() ==> !overflows_at(models(events@), start as int, end as int, k),
        r matches Ok(stats) ==> {
            let t = tally(models(events@), start as int, end as int);
            &&& interval_models(stats.intervals@) == t.intervals
            &&& totals_map(stats.totals@) == t.totals
            &&& sorted(stats.totals@)
        },
        r matches Err(e) ==> {
            &&& e.index < events.len()
            &&& overflows_at(models(events@), start as int, end as int, e.index as int)
            &&& forall|k: int|
                0 <= k < e.index ==> !overflows_at(models(events@), start as int, end as int, k)
        },
{
    let mut open: Option<(Activity, i64)> = None;
    let mut intervals: Vec<Interval> = Vec::new();
    let mut totals: Vec<Total> = Vec::new();
    let ghost ms = models(events@);
    let mut i: usize = 0;
    proof {
        assert(ms.take(0) =~= Seq::<TimedEventModel>::empty());
        assert(interval_models(intervals@) =~= Seq::<IntervalModel>::empty());
        assert(totals_map(totals@) =~= Map::<Seq<char>, int>::empty());
    }
    while i < events.len()
        invariant
            i <= events.len(),
            ms == models(events@),
            open_model(open) == tally(ms.take(i as int), start as int, end as int).open,
            interval_models(intervals@) == tally(
                ms.take(i as int),
                start as int,
                end as int,
            ).intervals,
            totals_map(totals@) == tally(ms.take(i as int), start as int, end as int).totals,
            sorted(totals@),
            fits(tally(ms.take(i as int), start as int, end as int)),
            forall|k: int| 0 <= k < i ==> !overflows_at(ms, start as int, end as int, k),
        decreases events.len() - i,
    {
        let e = &events[i];
        let now = e.timestamp;
        let ghost before = tally(ms.take(i as int), start as int, end as int);
        let ghost after = tally(ms.take(i + 1), start as int, end as int);
        proof {
            lemma_tally_take(ms, start as int, end as int, i as int);
            assert(ms[i as int] == e@);
        }
        if start <= now && now <= end {
            match &e.event {
                Event::Power(on) => {
                    if !*on {
                        open = None;
                    }
                },
                Event::SwitchActivity(target) => {
                    match open {
                        Some((name, since)) => {
                            let d = match now.checked_sub(since) {
                                Some(d) => d,
                                None => {
                                    proof {
                                        let n = after.intervals.len() - 1;
                                        assert(after.intervals[n].duration == now - since);
                                        assert(overflows_at(ms, start as int, end as int, i as int));
                                    }
                                    return Err(Overflow { index: i });
                                },
                            };
                            if !credit_total(&mut totals, &name, d) {
                                proof {
                                    assert(after.totals.dom().contains(name@));
                                    assert(overflows_at(ms, start as int, end as int, i as int));
                                }
                                return Err(Overflow { index: i });
                            }
                            let ghost closed = interval_models(intervals@);
                            let interval = Interval {
                                start: since,
                                end: now,
                                activity: name,
                                duration: d,
                            };
                            intervals.push(interval);
                            proof {
                                assert(interval_models(intervals@) =~= closed.push(interval@));
                            }
                        },
                        None => {},
                    }
                    open =
                    match target {
                        Some(x) => Some((x.clone(), now)),
                        None => None,
                    };
                },
            }
        }
        proof {
            assert(fits(after));
            assert(!overflows_at(ms, start as int, end as int, i as int));
        }
        i = i + 1;
    }
    proof {
        assert(ms.take(i as int) =~= ms);
    }
    Ok(Stats { intervals, totals })
}

/// The seconds that `intervals` credit to `name`, all taken together.
pub open spec fn credited(intervals: Seq<IntervalModel>, name: Seq<char>) -> int
    decreases intervals.len(),
{
    if intervals.len() == 0 {
        0
    } else if intervals.last().activity == name {
        credited(intervals.drop_last(), name) + intervals.last().duration
    } else {
        credited(intervals.drop_last(), name)
    }
}

/// Whether an interval is for `name`.
pub open spec fn credits(intervals: Seq<IntervalModel>, name: Seq<char>) -> bool {
    exists|i: int| 0 <= i < intervals.len() && (#[trigger] intervals[i]).activity == name
}

/// Every interval begins and ends in the window and lasts from its
/// beginning to its end, and so does the activity that is still running
/// begin in the window.
pub proof fn lemma_intervals_in_window(events: Seq<TimedEventModel>, start: int, end: int)
    ensures
        forall|i: int|
            0 <= i < tally(events, start, end).intervals.len() ==> {
                let x = #[trigger] tally(events, start, end).intervals[i];
                &&& start <= x.start <= end
                &&& start <= x.end <= end
                &&& x.duration == x.end - x.start
            },
        tally(events, start, end).open matches Some((name, since)) ==> start <= since <= end,
    decreases events.len(),
{
    if events.len() > 0 {
        lemma_intervals_in_window(events.drop_last(), start, end);
    }
}

/// The total of an activity is the sum of its intervals, and only an
/// activity with an interval has a total.
pub proof fn lemma_totals_sum_intervals(
    events: Seq<TimedEventModel>,
    start: int,
    end: int,
    name: Seq<char>,
)
    ensures
        tally(events, start, end).totals.dom().contains(name) <==> credits(
            tally(events, start, end).intervals,
            name,
        ),
        seconds_of(tally(events, start, end).totals, name) == credited(
            tally(events, start, end).intervals,
            name,
        ),
    decreases events.len(),
{
    if events.len() > 0 {
        lemma_totals_sum_intervals(events.drop_last(), start, end, name);
        let before = tally(events.drop_last(), start, end);
        let after = tally(events, start, end);
        if after.intervals.len() > before.intervals.len() {
            let last = after.intervals.last();
            assert(after.intervals.drop_last() =~= before.intervals);
            if credits(before.intervals, name) {
                let i = choose|i: int|
                    0 <= i < before.intervals.len() && (#[trigger] before.intervals[i]).activity
                        == name;
                assert(after.intervals[i].activity == name);
            }
            if last.activity == name {
                assert(after.intervals[after.intervals.len() - 1].activity == name);
            }
            if credits(after.intervals, name) {
                let i = choose|i: int|
                    0 <= i < after.intervals.len() && (#[trigger] after.intervals[i]).activity
                        == name;
                if i < before.intervals.len() {
                    assert(before.intervals[i].activity == name);
                }
            }
        } else {
            assert(after.intervals == before.intervals);
            assert(after.totals == before.totals);
        }
    }
}

/// The events outside the window count for nothing: the tally is that of
/// the events in the window alone.
pub proof fn lemma_outside_window_ignored(events: Seq<TimedEventModel>, start: int, end: int)
    ensures
        tally(events, start, end) == tally(
            events.filter(|e: TimedEventModel| in_window(e, start, end)),
            start,
            end,
        ),
    decreases events.len(),
{
    let inside = |e: TimedEventModel| in_window(e, start, end);
    reveal(Seq::filter);
    if events.len() > 0 {
        lemma_outside_window_ignored(events.drop_last(), start, end);
        let kept = events.drop_last().filter(inside);
        if inside(events.last()) {
            assert(events.filter(inside) == kept.push(events.last()));
            assert(kept.push(events.last()).drop_last() =~= kept);
        } else {
            assert(events.filter(inside) == kept);
        }
    }
}

/// A power-off in the window leaves no activity running, so that the
/// time up to it is credited to none.
pub proof fn lemma_power_off_forgets(events: Seq<TimedEventModel>, start: int, end: int, at: int)
    requires
        start <= at <= end,
    ensures
        ({
            let off = TimedEventModel { timestamp: at, event: EventModel::Power(false) };
            let before = tally(events, start, end);
            let after = tally(events.push(off), start, end);
            &&& after.open is None
            &&& after.intervals == before.intervals
            &&& after.totals == before.totals
        }),
{
    let off = TimedEventModel { timestamp: at, event: EventModel::Power(false) };
    assert(events.push(off).drop_last() =~= events);
}

} // verus!
