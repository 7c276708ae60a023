use giputils::logger::with_log_level;
use giputils::logger::IntervalLogger;
use giputils::logger::DEFAULT_INTERVAL;
use giputils::statistic::AverageDuration;
use giputils::statistic::CountedDuration;
use giputils::statistic::RunningTime;
use giputils::statistic::SuccessRate;

#[test]
fn success_rate_counts() {
    let mut r = SuccessRate::default();
    r.success();
    r.success();
    r.fail();
    r.statistic(true);
    r.statistic(false);
    assert_eq!(r.counts(), (3, 2));
    let mut other = SuccessRate::new();
    other.fail();
    let sum = r + other;
    assert_eq!(sum.counts(), (3, 3));
    r.add_assign(sum);
    assert_eq!(r.counts(), (6, 5));
}

#[test]
fn counted_duration_sums_and_counts() {
    let mut c = CountedDuration::default();
    assert_eq!(c.count(), 0);
    c.add_span(1_500);
    c.add_span(2_500);
    assert_eq!(c.count(), 2);
    assert_eq!(c.sum(), 4_000);
    let mut d = CountedDuration::new();
    d.add_span(6_000);
    c.add_assign(d);
    assert_eq!(c.count(), 3);
    assert_eq!(c.sum(), 10_000);
}

#[test]
fn average_duration_rounds_down() {
    let mut a = AverageDuration::default();
    assert_eq!(a.average(), None);
    a.add_span(10);
    a.add_span(11);
    a.add_span(12);
    a.add_span(14);
    assert_eq!(a.average(), Some(11));
    let mut b = AverageDuration::new();
    b.add_span(53);
    a.add_assign(b);
    assert_eq!(a.average(), Some(20));
}

#[test]
fn interval_logger_lets_one_message_through_per_interval() {
    let mut l = IntervalLogger::new(100, 1_000);
    assert!(!l.due(1_000));
    assert!(!l.due(1_099));
    assert!(l.due(1_100));
    assert!(!l.due(1_150));
    assert!(!l.due(1_199));
    assert!(l.due(1_250));
    assert!(!l.due(1_300));
    assert!(!l.due(900));
    assert!(l.due(1_350));
    let mut always = IntervalLogger::new(0, 50);
    assert!(always.due(50));
    assert!(always.due(10));
    let mut slow = IntervalLogger::new(DEFAULT_INTERVAL, 0);
    assert!(!slow.due(9_999_999_999));
    assert!(slow.due(10_000_000_000));
}

#[test]
fn log_level_is_set_for_the_call_and_put_back() {
    log::set_max_level(log::LevelFilter::Warn);
    let inside = with_log_level(log::LevelFilter::Trace, || log::max_level());
    assert_eq!(inside, log::LevelFilter::Trace);
    assert_eq!(log::max_level(), log::LevelFilter::Warn);
    let answer = with_log_level(log::LevelFilter::Off, || 6 * 7);
    assert_eq!(answer, 42);
    assert_eq!(log::max_level(), log::LevelFilter::Warn);
}

#[test]
fn running_time_tells_what_has_passed() {
    let t = RunningTime::new(1_000);
    assert_eq!(t.label(1_000), 0);
    assert_eq!(t.label(1_250), 250);
    assert_eq!(t.time(4_000), 3_000);
    assert_eq!(t.label(999), 0);
    let mark = t.label(1_250);
    assert_eq!(t.from_label(1_900, mark), 650);
    assert_eq!(t.from_label(1_250, mark), 0);
}
