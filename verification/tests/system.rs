use balance_overlay::render::Row;
use balance_overlay::system::{
    filetime_to_u64, load_percent, memory_load, FileTime, History, Metrics, SystemTimes,
    HISTORY_LEN,
};

#[test]
fn cpu_load_from_deltas() {
    assert_eq!(load_percent(0, 0), None); // no time passed
    assert_eq!(load_percent(1000, 1000), Some(0)); // fully idle
    assert_eq!(load_percent(0, 1000), Some(100)); // pegged
    assert_eq!(load_percent(750, 1000), Some(25));
    assert_eq!(load_percent(2000, 1000), Some(0)); // idle > total: clamped, not underflowed
}

#[test]
fn history_keeps_the_newest_samples_and_never_grows() {
    let mut h = History::default();
    assert_eq!(h.snapshot(), Vec::<u32>::new());
    assert_eq!(h.latest(), None);

    for i in 0..HISTORY_LEN as u32 * 2 {
        h.push(i % 101);
    }
    let kept = h.snapshot();
    assert_eq!(kept.len(), HISTORY_LEN);
    assert_eq!(h.latest(), kept.last().copied());
    // Oldest first: the window is the tail of what was pushed.
    let expected: Vec<u32> = (HISTORY_LEN as u32..HISTORY_LEN as u32 * 2)
        .map(|i| i % 101)
        .collect();
    assert_eq!(kept, expected);
}

#[test]
fn samples_are_clamped_to_a_percentage() {
    let mut h = History::default();
    h.push(500);
    assert_eq!(h.latest(), Some(100));
}

fn times(idle: u32, kernel: u32, user: u32) -> Option<SystemTimes> {
    Some(SystemTimes {
        idle: FileTime { high: 0, low: idle },
        kernel: FileTime { high: 0, low: kernel },
        user: FileTime { high: 0, low: user },
    })
}

fn percents(m: &Metrics) -> Vec<Option<u32>> {
    m.rows().iter().map(|r| r.percent()).collect()
}

#[test]
fn halves_of_a_time_are_put_together() {
    assert_eq!(filetime_to_u64(FileTime { high: 0, low: 7 }), 7);
    assert_eq!(filetime_to_u64(FileTime { high: 1, low: 0 }), 0x1_0000_0000);
    assert_eq!(filetime_to_u64(FileTime { high: u32::MAX, low: u32::MAX }), u64::MAX);
}

#[test]
fn memory_reading_is_clamped_or_missing() {
    assert_eq!(memory_load(None), None);
    assert_eq!(memory_load(Some(37)), Some(37));
    assert_eq!(memory_load(Some(101)), Some(100));
}

#[test]
fn cpu_needs_two_readings_and_memory_one() {
    let mut m = Metrics::default();
    assert_eq!(percents(&m), vec![None, None]);
    m.sample(times(50, 100, 100), Some(40));
    assert_eq!(percents(&m), vec![None, Some(40)]);
    // 100 more in total, 25 of them idle.
    m.sample(times(75, 150, 150), Some(41));
    assert_eq!(percents(&m), vec![Some(75), Some(41)]);
}

#[test]
fn failed_readings_leave_the_histories_alone() {
    let mut m = Metrics::default();
    m.sample(times(50, 100, 100), Some(40));
    m.sample(None, None);
    assert_eq!(percents(&m), vec![None, Some(40)]);
    // The load is still measured against the last reading that worked.
    m.sample(times(100, 200, 100), None);
    assert_eq!(percents(&m), vec![Some(50), Some(40)]);
    // No processor time passed: no load, but the reading counts.
    m.sample(times(100, 200, 100), None);
    assert_eq!(percents(&m), vec![Some(50), Some(40)]);
}

#[test]
fn clocks_that_run_backwards_do_not_underflow() {
    let mut m = Metrics::default();
    m.sample(times(500, 1000, 1000), None);
    m.sample(times(400, 900, 900), None);
    assert_eq!(percents(&m), vec![None, None]);
    m.sample(times(300, 1000, 900), None);
    assert_eq!(percents(&m), vec![Some(100), None]);
}

#[test]
fn the_charts_are_labelled_and_scaled_for_a_minute() {
    let mut m = Metrics::default();
    m.sample(None, Some(5));
    m.sample(None, Some(6));
    let rows = m.rows();
    assert_eq!(rows[0].label(), Some("CPU"));
    assert_eq!(rows[1].label(), Some("RAM"));
    match &rows[1] {
        Row::Graph { history, capacity, .. } => {
            assert_eq!(history, &vec![5, 6]);
            assert_eq!(*capacity, 60);
        }
        _ => panic!("not a chart"),
    }
}

#[test]
fn readings_that_would_overflow_are_told_apart() {
    let m = Metrics::default();
    assert!(m.can_sample(None));
    assert!(m.can_sample(times(1, 2, 3)));
    let huge = FileTime { high: u32::MAX, low: u32::MAX };
    let one = FileTime { high: 0, low: 1 };
    assert!(!m.can_sample(Some(SystemTimes { idle: one, kernel: huge, user: one })));

    let mut m = Metrics::default();
    m.sample(times(1, 1, 1), None);
    let far = FileTime { high: 0x4000_0000, low: 0 };
    assert!(!m.can_sample(Some(SystemTimes { idle: one, kernel: far, user: one })));
    assert!(m.can_sample(times(1, 1, 2)));
}
