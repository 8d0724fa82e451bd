use vstd::prelude::*;
use crate::server::TimeSpan;

verus! {

/// How a reading at a given time is obtained from a history of readings.
#[derive(Debug, Clone, Copy, PartialEq, Eq, Structural)]
pub enum Reading {
    /// The time is at or after the reading at this index, the last one: it stands.
    Last(usize),
    /// The time lies at or after the reading before this index and before the
    /// reading at this index: the two are interpolated.
    Between(usize),
}

/// One point of a resampled window: its time and how its reading is obtained.
#[derive(Debug, Clone, Copy, PartialEq, Eq, Structural)]
pub struct Sample {
    pub time: i32,
    pub reading: Reading,
}

/// Times are in order, oldest first.
pub open spec fn sorted(times: Seq<i32>) -> bool {
    forall|i: int, j: int| 0 <= i <= j < times.len() ==> times[i] <= times[j]
}

/// `idx` splits `times` at `time`: the entry before it is not later than
/// `time`, the entry at it is later.
pub open spec fn is_split(times: Seq<i32>, time: i32, idx: int) -> bool {
    &&& 0 <= idx <= times.len()
    &&& idx > 0 ==> times[idx - 1] <= time
    &&& idx < times.len() ==> times[idx] > time
}

/// The split point that bisection finds in `times[lo..hi]`. For a history
/// in time order this is the one split point there is (`lemma_split_unique`);
/// for one out of order several may exist, and the library answers with the
/// one bisection reaches, so that its results are fixed by its inputs.
pub open spec fn bisect(times: Seq<i32>, time: i32, lo: int, hi: int) -> int
    decreases hi - lo,
{
    if lo >= hi {
        lo
    } else {
        let mid = lo + (hi - lo) / 2;
        if times[mid] <= time {
            bisect(times, time, mid + 1, hi)
        } else {
            bisect(times, time, lo, mid)
        }
    }
}

/// The split point of `times` at `time`.
pub open spec fn split_point(times: Seq<i32>, time: i32) -> int {
    bisect(times, time, 0, times.len() as int)
}

/// How the reading at `time` is obtained, given the split point `idx`.
pub open spec fn reading_from_split(len: int, idx: int) -> Option<Reading> {
    if idx == 0 {
        None
    } else if idx == len {
        Some(Reading::Last((idx - 1) as usize))
    } else {
        Some(Reading::Between(idx as usize))
    }
}

/// How the reading at `time` is obtained from `times`, if it can be.
pub open spec fn reading_at(times: Seq<i32>, time: i32) -> Option<Reading> {
    reading_from_split(times.len() as int, split_point(times, time))
}

/// Bisection between two split points yields a split point.
proof fn lemma_bisect_splits(times: Seq<i32>, time: i32, lo: int, hi: int)
    requires
        0 <= lo <= hi <= times.len(),
        lo > 0 ==> times[lo - 1] <= time,
        hi < times.len() ==> times[hi] > time,
    ensures
        is_split(times, time, bisect(times, time, lo, hi)),
        lo <= bisect(times, time, lo, hi) <= hi,
    decreases hi - lo,
{
    if lo < hi {
        let mid = lo + (hi - lo) / 2;
        if times[mid] <= time {
            lemma_bisect_splits(times, time, mid + 1, hi);
        } else {
            lemma_bisect_splits(times, time, lo, mid);
        }
    }
}

/// The split point of any history splits it; in a history in time order
/// every reading before it is not later than `time`, every one from it on is.
pub proof fn lemma_split_point(times: Seq<i32>, time: i32)
    ensures
        is_split(times, time, split_point(times, time)),
        sorted(times) ==> forall|j: int|
            0 <= j < times.len() ==> (j < split_point(times, time) <==> times[j] <= time),
{
    lemma_bisect_splits(times, time, 0, times.len() as int);
}

/// In a history in time order there is exactly one split point at `time`.
pub proof fn lemma_split_unique(times: Seq<i32>, time: i32, idx: int)
    requires
        sorted(times),
        is_split(times, time, idx),
    ensures
        idx == split_point(times, time),
{
    lemma_split_point(times, time);
    let p = split_point(times, time);
    if idx < p {
        assert(times[idx] > time);
        assert(times[p - 1] <= time);
    } else if idx > p {
        assert(times[p] > time);
        assert(times[idx - 1] <= time);
    }
}

/// Where `time` falls in `times`: the first index whose entry is later than
/// `time`, found by bisection.
pub fn partition_point(times: &[i32], time: i32) -> (idx: usize)
    ensures
        idx == split_point(times@, time),
        is_split(times@, time, idx as int),
        sorted(times@) ==> forall|j: int|
            0 <= j < times@.len() ==> (j < idx <==> times@[j] <= time),
{
    proof {
        lemma_split_point(times@, time);
    }
    let mut lo: usize = 0;
    let mut hi: usize = times.len();
    while lo < hi
        invariant
            lo <= hi <= times@.len(),
            bisect(times@, time, lo as int, hi as int) == split_point(times@, time),
        decreases hi - lo,
    {
        let mid = lo + (hi - lo) / 2;
        if times[mid] <= time {
            lo = mid + 1;
        } else {
            hi = mid;
        }
    }
    lo
}

/// How the reading at `time` is obtained from a history whose reading times
/// are `times`: none before the first reading, the last reading from the
/// last time on, else an interpolation of the two readings around `time`.
pub fn get_reading_at_time(times: &[i32], time: i32) -> (reading: Option<Reading>)
    ensures
        reading == reading_at(times@, time),
        reading is None ==> times@.len() == 0 || times@[0] > time,
        sorted(times@) ==> (reading is None <==> (times@.len() == 0 || times@[0] > time)),
        reading matches Some(Reading::Last(i)) ==> {
            &&& i + 1 == times@.len()
            &&& times@[i as int] <= time
        },
        reading matches Some(Reading::Between(i)) ==> {
            &&& 0 < i < times@.len()
            &&& times@[i - 1] <= time < times@[i as int]
        },
{
    let idx = partition_point(times, time);
    proof {
        lemma_split_point(times@, time);
    }
    if idx == 0 {
        None
    } else if idx == times.len() {
        Some(Reading::Last(idx - 1))
    } else {
        Some(Reading::Between(idx))
    }
}

/// Number of points a window is resampled to.
pub const SAMPLE_COUNT: usize = 100;

/// The time of point `i` of the window of length `span` that ends at `now`:
/// the points spread the window evenly, rounded down to whole seconds.
pub open spec fn sample_time(now: int, span: int, i: int) -> int {
    now - span + (i * span) / 99
}

/// The resampled window made of its first `n` points: each point whose
/// reading can be obtained, in order; the others are left out.
pub open spec fn planned(times: Seq<i32>, now: int, span: int, n: nat) -> Seq<Sample>
    decreases n,
{
    if n == 0 {
        Seq::empty()
    } else {
        let prev = planned(times, now, span, (n - 1) as nat);
        let t = sample_time(now, span, n - 1) as i32;
        match reading_at(times, t) {
            Some(r) => prev.push(Sample { time: t, reading: r }),
            None => prev,
        }
    }
}

/// The resampled window of length `span` that ends at `now`.
pub open spec fn spec_plan(times: Seq<i32>, time_span: TimeSpan, now: int) -> Seq<Sample> {
    planned(times, now, time_span.spec_seconds(), SAMPLE_COUNT as nat)
}

/// The first `n` points of the window of length `span` that ends at `now`,
/// as reading times.
pub open spec fn grid(now: int, span: int, n: nat) -> Seq<i32> {
    Seq::new(n, |i: int| sample_time(now, span, i) as i32)
}

/// The points of the window of length `span` that ends at `now`, as
/// reading times.
pub open spec fn window_times(now: int, span: int) -> Seq<i32> {
    grid(now, span, SAMPLE_COUNT as nat)
}

/// The point at `time`, if a reading can be obtained there from `times`.
pub open spec fn point_at(times: Seq<i32>) -> spec_fn(i32) -> Option<Sample> {
    |time: i32|
        match reading_at(times, time) {
            Some(r) => Some(Sample { time, reading: r }),
            None => None,
        }
}

/// The resampled window is the window's points, in order, each with the
/// reading obtained at its time, keeping exactly those points where a reading
/// can be obtained.
pub proof fn lemma_plan_is_filtered_window(times: Seq<i32>, now: int, span: int, n: nat)
    ensures
        planned(times, now, span, n) == grid(now, span, n).filter_map(point_at(times)),
    decreases n,
{
    if n > 0 {
        lemma_plan_is_filtered_window(times, now, span, (n - 1) as nat);
        let g = grid(now, span, n);
        assert(g.drop_last() =~= grid(now, span, (n - 1) as nat));
        assert(g.last() == sample_time(now, span, n - 1) as i32);
        let prev = planned(times, now, span, (n - 1) as nat);
        let t = sample_time(now, span, n - 1) as i32;
        match reading_at(times, t) {
            Some(r) => {
                assert(prev.push(Sample { time: t, reading: r }) =~= prev + seq![
                    Sample { time: t, reading: r },
                ]);
            },
            None => {},
        }
    }
}

/// Every point of the window where a reading can be obtained is in the
/// resampled window, with that reading.
pub proof fn lemma_plan_keeps_every_point(times: Seq<i32>, now: int, span: int, n: nat, i: int)
    requires
        0 <= i < n,
        reading_at(times, sample_time(now, span, i) as i32) is Some,
    ensures
        planned(times, now, span, n).contains(
            Sample {
                time: sample_time(now, span, i) as i32,
                reading: reading_at(times, sample_time(now, span, i) as i32).unwrap(),
            },
        ),
    decreases n,
{
    let t = sample_time(now, span, i) as i32;
    let p = Sample { time: t, reading: reading_at(times, t).unwrap() };
    if i == n - 1 {
        let prev = planned(times, now, span, (n - 1) as nat);
        assert(planned(times, now, span, n) == prev.push(p));
        assert(planned(times, now, span, n)[prev.len() as int] == p);
    } else {
        lemma_plan_keeps_every_point(times, now, span, (n - 1) as nat, i);
        let prev = planned(times, now, span, (n - 1) as nat);
        let k = choose|k: int| 0 <= k < prev.len() && prev[k] == p;
        let tn = sample_time(now, span, n - 1) as i32;
        match reading_at(times, tn) {
            Some(r) => {
                assert(planned(times, now, span, n)[k] == p);
            },
            None => {},
        }
    }
}

/// Every point of the resampled window is a point of the window, with the
/// reading obtained at its time.
pub proof fn lemma_plan_points_are_window_points(times: Seq<i32>, now: int, span: int, n: nat, k: int)
    requires
        0 <= k < planned(times, now, span, n).len(),
    ensures
        exists|i: int|
            0 <= i < n && #[trigger] sample_time(now, span, i) as i32 == planned(
                times,
                now,
                span,
                n,
            )[k].time,
        reading_at(times, planned(times, now, span, n)[k].time) == Some(
            planned(times, now, span, n)[k].reading,
        ),
    decreases n,
{
    lemma_planned_entries(times, now, span, n);
    let prev = planned(times, now, span, (n - 1) as nat);
    if k < prev.len() {
        lemma_plan_points_are_window_points(times, now, span, (n - 1) as nat, k);
        let t = sample_time(now, span, n - 1) as i32;
        match reading_at(times, t) {
            Some(r) => {
                assert(planned(times, now, span, n)[k] == prev[k]);
            },
            None => {},
        }
        let i = choose|i: int| 0 <= i < n - 1 && #[trigger] sample_time(now, span, i) as i32 == prev[k].time;
        assert(sample_time(now, span, i) as i32 == planned(times, now, span, n)[k].time);
    } else {
        let t = sample_time(now, span, n - 1) as i32;
        assert(sample_time(now, span, n - 1) as i32 == planned(times, now, span, n)[k].time);
    }
}

proof fn lemma_sample_offset(i: int, span: int)
    requires
        0 <= i <= 99,
        0 < span <= 86400,
    ensures
        0 <= (i * span) / 99 <= span,
        i * span <= 99 * 86400,
{
    assert(0 <= i * span <= 99 * span) by (nonlinear_arith)
        requires
            0 <= i <= 99,
            0 < span,
    ;
    assert(i * span <= 99 * 86400) by (nonlinear_arith)
        requires
            0 <= i <= 99,
            0 < span <= 86400,
    ;
    assert((i * span) / 99 <= span) by (nonlinear_arith)
        requires
            0 <= i * span <= 99 * span,
    ;
}

/// The points of a window lie in it, in time order, from its start to its end.
pub proof fn lemma_sample_times(now: int, span: int, i: int, j: int)
    requires
        0 <= i <= j <= 99,
        0 < span <= 86400,
    ensures
        now - span <= sample_time(now, span, i) <= sample_time(now, span, j) <= now,
        sample_time(now, span, 0) == now - span,
        sample_time(now, span, 99) == now,
{
    lemma_sample_offset(i, span);
    lemma_sample_offset(j, span);
    assert((i * span) / 99 <= (j * span) / 99) by (nonlinear_arith)
        requires
            0 <= i <= j,
            0 < span,
    ;
    assert((99 * span) / 99 == span) by (nonlinear_arith)
        requires
            0 < span,
    ;
}

/// Resamples the history whose reading times are `times` over the window
/// `time_span` that ends at `now`: for each of its points, in order, how
/// its reading is obtained, leaving out the points before the first reading.
pub fn plan_samples(times: &[i32], time_span: TimeSpan, now: i64) -> (samples: Vec<Sample>)
    requires
        i64::MIN + time_span.spec_seconds() <= now,
    ensures
        samples@ == spec_plan(times@, time_span, now as int),
        samples@.len() <= SAMPLE_COUNT,
        samples@ == window_times(now as int, time_span.spec_seconds()).filter_map(point_at(times@)),
        forall|i: int|
            0 <= i < SAMPLE_COUNT && (#[trigger] reading_at(
                times@,
                window_times(now as int, time_span.spec_seconds())[i],
            )) is Some ==> samples@.contains(
                Sample {
                    time: window_times(now as int, time_span.spec_seconds())[i],
                    reading: reading_at(
                        times@,
                        window_times(now as int, time_span.spec_seconds())[i],
                    ).unwrap(),
                },
            ),
        forall|k: int|
            0 <= k < samples@.len() ==> window_times(now as int, time_span.spec_seconds()).contains(
                (#[trigger] samples@[k]).time,
            ) && reading_at(times@, samples@[k].time) == Some(samples@[k].reading),
{
    let span = time_span.seconds();
    let start = now - span;
    let mut samples: Vec<Sample> = Vec::new();
    let mut i: usize = 0;
    while i < SAMPLE_COUNT
        invariant
            0 <= i <= SAMPLE_COUNT,
            span == time_span.spec_seconds(),
            0 < span <= 86400,
            start == now - span,
            i64::MIN + span <= now,
            samples@ == planned(times@, now as int, span as int, i as nat),
            samples@.len() <= i,
        decreases SAMPLE_COUNT - i,
    {
        proof {
            lemma_sample_offset(i as int, span as int);
        }
        let offset: i64 = (i as i64) * span / 99;
        let t: i64 = start + offset;
        let time: i32 = t as i32;
        match get_reading_at_time(times, time) {
            Some(reading) => samples.push(Sample { time, reading }),
            None => {},
        }
        i = i + 1;
    }
    proof {
        let w = window_times(now as int, span as int);
        lemma_plan_is_filtered_window(times@, now as int, span as int, SAMPLE_COUNT as nat);
        assert forall|i: int|
            0 <= i < SAMPLE_COUNT && (#[trigger] reading_at(times@, w[i])) is Some implies samples@.contains(
                Sample { time: w[i], reading: reading_at(times@, w[i]).unwrap() },
            ) by {
            lemma_plan_keeps_every_point(times@, now as int, span as int, SAMPLE_COUNT as nat, i);
        }
        assert forall|k: int| 0 <= k < samples@.len() implies w.contains(
            (#[trigger] samples@[k]).time,
        ) && reading_at(times@, samples@[k].time) == Some(samples@[k].reading) by {
            lemma_plan_points_are_window_points(times@, now as int, span as int, SAMPLE_COUNT as nat, k);
            let i = choose|i: int|
                0 <= i < SAMPLE_COUNT && #[trigger] sample_time(now as int, span as int, i) as i32
                    == samples@[k].time;
            assert(w[i] == samples@[k].time);
        }
    }
    samples
}

/// The time elapsed since the Unix epoch, through std's
/// `SystemTime::elapsed` called on `UNIX_EPOCH`. Its documentation says it
/// fails when the clock reads earlier than the epoch; that error becomes
/// `None`. Which instant is read depends on the clock: nothing is claimed.
#[verifier::external_body]
fn time_since_epoch() -> (elapsed: Option<std::time::Duration>) {
    std::time::UNIX_EPOCH.elapsed().ok()
}

/// The whole seconds of `duration`, through std's `Duration::as_secs`.
/// `Duration` is opaque here, so nothing is claimed of the value.
#[verifier::external_body]
fn whole_seconds(duration: &std::time::Duration) -> (secs: u64) {
    duration.as_secs()
}

/// The nanoseconds past the whole seconds of `duration`, through std's
/// `Duration::subsec_nanos`, which is documented to be below one second.
#[verifier::external_body]
fn subsec_nanos(duration: &std::time::Duration) -> (nanos: u32)
    ensures
        nanos < 1_000_000_000,
{
    duration.subsec_nanos()
}

/// What `utc_timestamp` gives for `secs` and `nanos`.
pub uninterp spec fn spec_utc_timestamp(secs: i64, nanos: u32) -> Option<i64>;

/// The date `chrono::DateTime::from_timestamp(secs, nanos)` makes, if it
/// makes one, read back through `DateTime::timestamp`. Claims, from chrono's
/// source and documentation: the result is named `spec_utc_timestamp`; the
/// two functions round-trip, so a result is `secs` itself; `timestamp` of
/// any date is its day count, an `i32`, less 719163, times 86400, plus the
/// seconds of the day, which bounds it; and every second from the epoch
/// until far inside chrono's last year, 262142, with nanoseconds below one
/// second, makes a date. Where between those ends chrono stops is left to
/// the name.
#[verifier::external_body]
fn utc_timestamp(secs: i64, nanos: u32) -> (timestamp: Option<i64>)
    ensures
        timestamp == spec_utc_timestamp(secs, nanos),
        timestamp matches Some(t) ==> t == secs,
        timestamp matches Some(t) ==> -200_000_000_000_000 <= t <= 200_000_000_000_000,
        (0 <= secs <= 8_000_000_000_000 && nanos < 1_000_000_000) ==> timestamp is Some,
{
    chrono::DateTime::from_timestamp(secs, nanos).map(|date| date.timestamp())
}

/// The resampled window that ends at the clock reading `secs` seconds and
/// `nanos` nanoseconds past the Unix epoch, as a UTC timestamp: `None` where
/// chrono makes no date of that reading.
pub open spec fn spec_plan_from_clock(
    times: Seq<i32>,
    time_span: TimeSpan,
    secs: u64,
    nanos: u32,
) -> Option<Seq<Sample>> {
    match spec_utc_timestamp(secs as i64, nanos) {
        Some(now) => Some(spec_plan(times, time_span, now as int)),
        None => None,
    }
}

/// Resamples the history whose reading times are `times` over the window
/// `time_span` that ends at the clock reading `secs` seconds and `nanos`
/// nanoseconds past the Unix epoch (see `plan_samples`). The reading is
/// taken as a timestamp as chrono takes it: its seconds as an `i64`.
pub fn plan_from_clock(times: &[i32], time_span: TimeSpan, secs: u64, nanos: u32) -> (samples:
    Option<Vec<Sample>>)
    ensures
        samples matches Some(s) ==> Some(s@) == spec_plan_from_clock(times@, time_span, secs, nanos),
        samples is None ==> spec_plan_from_clock(times@, time_span, secs, nanos) is None,
        (secs <= 8_000_000_000_000 && nanos < 1_000_000_000) ==> samples is Some,
        samples matches Some(s) ==> s@ == spec_plan(times@, time_span, secs as i64 as int),
        samples is Some ==> -200_000_000_000_000 <= secs as i64 <= 200_000_000_000_000,
{
    match utc_timestamp(secs as i64, nanos) {
        Some(now) => Some(plan_samples(times, time_span, now)),
        None => None,
    }
}

/// Resamples the history whose reading times are `times` over the window
/// `time_span` that ends now (see `plan_from_clock`): `None` where the clock
/// reads before the Unix epoch or beyond the dates chrono can make.
pub fn filter_data(times: &[i32], time_span: TimeSpan) -> (samples: Option<Vec<Sample>>)
    ensures
        samples matches Some(s) ==> exists|now: i64|
            -200_000_000_000_000 <= now <= 200_000_000_000_000
            && s@ == #[trigger] spec_plan(times@, time_span, now as int),
{
    match time_since_epoch() {
        Some(elapsed) => {
            let secs = whole_seconds(&elapsed);
            let nanos = subsec_nanos(&elapsed);
            let samples = plan_from_clock(times, time_span, secs, nanos);
            proof {
                if samples is Some {
                    let now = secs as i64;
                    assert(samples.unwrap()@ == spec_plan(times@, time_span, now as int));
                }
            }
            samples
        },
        None => None,
    }
}

/// Every point of a resampled window carries the reading obtained at its
/// time, and the window has at most as many points as were asked for.
pub proof fn lemma_planned_entries(times: Seq<i32>, now: int, span: int, n: nat)
    ensures
        planned(times, now, span, n).len() <= n,
        forall|k: int|
            0 <= k < planned(times, now, span, n).len() ==> {
                let s = #[trigger] planned(times, now, span, n)[k];
                reading_at(times, s.time) == Some(s.reading)
            },
    decreases n,
{
    if n > 0 {
        lemma_planned_entries(times, now, span, (n - 1) as nat);
    }
}

/// A history whose first reading is no later than the start of the window
/// yields every point of the window, when the window's times fit in an `i32`.
pub proof fn lemma_full_window(times: Seq<i32>, now: int, span: int, n: nat)
    requires
        times.len() > 0,
        0 < span <= 86400,
        n <= SAMPLE_COUNT,
        i32::MIN <= now - span,
        now <= i32::MAX,
        times[0] <= now - span,
    ensures
        planned(times, now, span, n).len() == n,
    decreases n,
{
    if n > 0 {
        lemma_full_window(times, now, span, (n - 1) as nat);
        let i = n - 1;
        lemma_sample_times(now, span, i, i);
        let t = sample_time(now, span, i);
        assert(t as i32 == t);
        lemma_split_point(times, t as i32);
    }
}

} // verus!
