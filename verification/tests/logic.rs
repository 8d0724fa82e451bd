use lillypad::app::graph::{get_max_y, get_min_y};
use lillypad::app::ui::icon_path;
use lillypad::app::AppState;
use lillypad::sensor::model::{SensorState, SensorType};
use lillypad::sensor::sensor_url;
use lillypad::server::util::{
    filter_data, get_reading_at_time, partition_point, plan_from_clock, plan_samples, Reading, Sample,
    SAMPLE_COUNT,
};
use lillypad::server::TimeSpan;

const ALL: [SensorType; 3] = [SensorType::Temperature, SensorType::Humidity, SensorType::Barometric];

#[test]
fn sensor_names_are_the_board_names() {
    assert_eq!(SensorType::Temperature.name(), "temperature");
    assert_eq!(SensorType::Humidity.name(), "humidity");
    assert_eq!(SensorType::Barometric.name(), "barometric");
}

#[test]
fn sensor_units_and_divisors() {
    assert_eq!(SensorType::Temperature.unit(), "°C");
    assert_eq!(SensorType::Humidity.unit(), "%");
    assert_eq!(SensorType::Barometric.unit(), "hPa");
    assert_eq!(SensorType::Temperature.display_divisor(), 1);
    assert_eq!(SensorType::Humidity.display_divisor(), 1);
    assert_eq!(SensorType::Barometric.display_divisor(), 100);
}

#[test]
fn sensor_urls() {
    assert_eq!(
        sensor_url(SensorType::Temperature),
        "http://192.168.10.40/sensor?sensor_type=temperature&index=0"
    );
    assert_eq!(
        sensor_url(SensorType::Humidity),
        "http://192.168.10.40/sensor?sensor_type=humidity&index=0"
    );
    assert_eq!(
        sensor_url(SensorType::Barometric),
        "http://192.168.10.40/sensor?sensor_type=barometric&index=0"
    );
}

#[test]
fn sensor_urls_differ() {
    for a in ALL {
        for b in ALL {
            assert_eq!(sensor_url(a) == sensor_url(b), a == b);
        }
    }
}

#[test]
fn chart_axes() {
    assert_eq!((get_min_y(SensorType::Temperature), get_max_y(SensorType::Temperature)), (17, 23));
    assert_eq!((get_min_y(SensorType::Humidity), get_max_y(SensorType::Humidity)), (30, 70));
    assert_eq!((get_min_y(SensorType::Barometric), get_max_y(SensorType::Barometric)), (1000, 1050));
    for t in ALL {
        assert!(get_min_y(t) < get_max_y(t));
    }
}

#[test]
fn icon_paths() {
    assert_eq!(icon_path(SensorType::Temperature), "/assets/temperature.png");
    assert_eq!(icon_path(SensorType::Humidity), "/assets/humidity.png");
    assert_eq!(icon_path(SensorType::Barometric), "/assets/pressure.png");
}

#[test]
fn time_span_toggles() {
    let mut state = AppState { time_span: TimeSpan::Hour };
    state.next_time_span();
    assert_eq!(state.time_span, TimeSpan::Day);
    state.next_time_span();
    assert_eq!(state.time_span, TimeSpan::Hour);
}

#[test]
fn time_span_seconds() {
    assert_eq!(TimeSpan::Hour.seconds(), 3600);
    assert_eq!(TimeSpan::Day.seconds(), 86400);
}

#[test]
fn sensor_state_keeps_latest_last() {
    let mut state = SensorState::new((1, 20u8));
    assert_eq!(state.data, (1, 20));
    assert_eq!(state.historical_data, vec![(1, 20)]);
    state.record((2, 21));
    state.record((3, 19));
    assert_eq!(state.data, (3, 19));
    assert_eq!(state.historical_data, vec![(1, 20), (2, 21), (3, 19)]);
    assert_eq!(state.historical_data.last(), Some(&state.data));
}

#[test]
fn partition_point_agrees_with_std_on_sorted_times() {
    let times = [10, 20, 20, 30, 45];
    for t in 0..60 {
        assert_eq!(partition_point(&times, t), times.partition_point(|&x| x <= t));
    }
    assert_eq!(partition_point(&[], 7), 0);
}

#[test]
fn partition_point_splits_unsorted_times() {
    let times = [5, 1];
    let idx = partition_point(&times, 2);
    assert!(idx == 0 || times[idx - 1] <= 2);
    assert!(idx == times.len() || times[idx] > 2);
}

#[test]
fn reading_at_time_cases() {
    let times = [10, 20, 30];
    assert_eq!(get_reading_at_time(&[], 5), None);
    assert_eq!(get_reading_at_time(&times, 5), None);
    assert_eq!(get_reading_at_time(&times, 10), Some(Reading::Between(1)));
    assert_eq!(get_reading_at_time(&times, 20), Some(Reading::Between(2)));
    assert_eq!(get_reading_at_time(&times, 25), Some(Reading::Between(2)));
    assert_eq!(get_reading_at_time(&times, 30), Some(Reading::Last(2)));
    assert_eq!(get_reading_at_time(&times, 99), Some(Reading::Last(2)));
}

#[test]
fn plan_of_empty_history_is_empty() {
    assert!(plan_samples(&[], TimeSpan::Hour, 1_000_000).is_empty());
    assert!(plan_samples(&[], TimeSpan::Day, 1_000_000).is_empty());
}

/// The points of a window as the floating-point formula places them.
fn float_sample_times(span: i64, now: i64) -> Vec<i64> {
    let start = now - span;
    (0..100)
        .map(|i| f64::from(i) / 99.0)
        .map(|f| start + (f * (now - start) as f64) as i64)
        .collect()
}

#[test]
fn sample_times_match_float_formula() {
    let now: i64 = 1_700_000_000;
    for span in [TimeSpan::Hour, TimeSpan::Day] {
        let secs = span.seconds();
        let plan = plan_samples(&[0], span, now);
        assert_eq!(plan.len(), SAMPLE_COUNT);
        let times: Vec<i64> = plan.iter().map(|s| i64::from(s.time)).collect();
        assert_eq!(times, float_sample_times(secs, now));
        assert_eq!(times[0], now - secs);
        assert_eq!(times[99], now);
        assert!(plan.iter().all(|s| s.reading == Reading::Last(0)));
    }
}

#[test]
fn plan_hour_exact_values() {
    let now: i64 = 7200;
    let plan = plan_samples(&[3600, 5400], TimeSpan::Hour, now);
    assert_eq!(plan.len(), 100);
    assert_eq!(plan[0], Sample { time: 3600, reading: Reading::Between(1) });
    assert_eq!(plan[1], Sample { time: 3636, reading: Reading::Between(1) });
    assert_eq!(plan[33], Sample { time: 4800, reading: Reading::Between(1) });
    assert_eq!(plan[50], Sample { time: 5418, reading: Reading::Last(1) });
    assert_eq!(plan[99], Sample { time: 7200, reading: Reading::Last(1) });
}

#[test]
fn plan_drops_points_before_first_reading() {
    let now: i64 = 7200;
    // The first reading is at the middle of the window: points before it go.
    let plan = plan_samples(&[5400], TimeSpan::Hour, now);
    let kept = float_sample_times(3600, now).into_iter().filter(|&t| t >= 5400).count();
    assert_eq!(plan.len(), kept);
    assert!(plan.iter().all(|s| s.time >= 5400 && s.reading == Reading::Last(0)));
}

#[test]
fn filter_data_uses_the_clock() {
    let before = chrono::Utc::now().timestamp();
    let plan = filter_data(&[0], TimeSpan::Hour).expect("the clock reads after the epoch");
    let after = chrono::Utc::now().timestamp();
    assert_eq!(plan.len(), SAMPLE_COUNT);
    let last = i64::from(plan[99].time);
    let first = i64::from(plan[0].time);
    assert!(before <= last && last <= after);
    assert_eq!(last - first, 3600);
    assert_eq!(filter_data(&[], TimeSpan::Day), Some(Vec::new()));
}

#[test]
fn plan_from_clock_takes_the_seconds() {
    let times = [3600, 5400];
    assert_eq!(
        plan_from_clock(&times, TimeSpan::Hour, 7200, 0),
        Some(plan_samples(&times, TimeSpan::Hour, 7200))
    );
    assert_eq!(
        plan_from_clock(&times, TimeSpan::Day, 1_700_000_000, 999_999_999),
        Some(plan_samples(&times, TimeSpan::Day, 1_700_000_000))
    );
}

#[test]
fn plan_from_clock_refuses_readings_chrono_cannot_date() {
    // Beyond chrono's last year.
    assert_eq!(plan_from_clock(&[0], TimeSpan::Hour, 9_000_000_000_000_000, 0), None);
    // More nanoseconds than a second holds, outside a leap second.
    assert_eq!(plan_from_clock(&[0], TimeSpan::Hour, 7200, 2_000_000_000), None);
}

#[test]
fn plan_from_clock_reads_seconds_as_i64() {
    // The largest reading wraps to one second before the epoch, as in chrono.
    assert_eq!(
        plan_from_clock(&[-10_000], TimeSpan::Hour, u64::MAX, 0),
        Some(plan_samples(&[-10_000], TimeSpan::Hour, -1))
    );
}
