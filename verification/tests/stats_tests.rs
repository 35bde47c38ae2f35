use taint_reuse::cond::CondStmt;
use taint_reuse::count::add_clamped;
use taint_reuse::fuzz_type::{FuzzType, StatusType};
use taint_reuse::stats::{
    check_can_settle, settle_counters, Counter, LocalStats, LocalStatsSnapshot, ReusingStats,
};

fn counts(stats: &LocalStats) -> (usize, usize, usize, usize) {
    (stats.num_exec.0, stats.num_inputs.0, stats.num_hangs.0, stats.num_crashes.0)
}

fn aggregate(stats: &ReusingStats) -> (usize, usize, usize, usize) {
    (stats.num_exec.0, stats.num_inputs.0, stats.num_hangs.0, stats.num_crashes.0)
}

fn local(exec: usize, inputs: usize, hangs: usize, crashes: usize) -> LocalStats {
    let mut stats = LocalStats::default();
    stats.num_exec = Counter(exec);
    stats.num_inputs = Counter(inputs);
    stats.num_hangs = Counter(hangs);
    stats.num_crashes = Counter(crashes);
    stats
}

#[test]
fn counters_start_at_zero_and_count_by_one() {
    let mut counter = Counter::default();
    assert_eq!(counter.0, 0);
    counter.count();
    counter.count();
    assert_eq!(counter.0, 2);
    assert_eq!(counts(&LocalStats::default()), (0, 0, 0, 0));
    assert_eq!(aggregate(&ReusingStats::new()), (0, 0, 0, 0));
    assert_eq!(aggregate(&ReusingStats::default()), (0, 0, 0, 0));
    assert_eq!(LocalStats::default().fuzz_type, FuzzType::OtherFuzz);
    assert_eq!(FuzzType::default(), FuzzType::OtherFuzz);
}

#[test]
fn findings_are_counted_by_outcome() {
    let mut stats = local(5, 0, 0, 0);
    stats.find_new(&StatusType::Normal);
    assert_eq!(counts(&stats), (5, 1, 0, 0));
    stats.find_new(&StatusType::Timeout);
    assert_eq!(counts(&stats), (5, 1, 1, 0));
    stats.find_new(&StatusType::Crash);
    stats.find_new(&StatusType::Crash);
    assert_eq!(counts(&stats), (5, 1, 1, 2));
    stats.find_new(&StatusType::Skip);
    stats.find_new(&StatusType::Error);
    assert_eq!(counts(&stats), (5, 1, 1, 2));
}

#[test]
fn register_takes_the_family_and_resets_the_counts() {
    let mut stats = local(5, 4, 3, 2);
    let mut cond = CondStmt::new();
    cond.fuzz_type = FuzzType::ExploitFuzz;
    stats.register(&cond);
    assert_eq!(stats.fuzz_type, FuzzType::ExploitFuzz);
    assert_eq!(counts(&stats), (0, 0, 0, 0));
}

#[test]
fn clear_keeps_the_family() {
    let mut stats = local(5, 4, 3, 2);
    stats.fuzz_type = FuzzType::LenFuzz;
    stats.clear();
    assert_eq!(stats.fuzz_type, FuzzType::LenFuzz);
    assert_eq!(counts(&stats), (0, 0, 0, 0));
}

#[test]
fn restore_puts_the_snapshot_back() {
    let mut stats = local(5, 4, 3, 2);
    stats.fuzz_type = FuzzType::ExploreFuzz;
    let snapshot = stats.snapshot();
    assert_eq!(
        (snapshot.num_exec.0, snapshot.num_inputs.0, snapshot.num_hangs.0, snapshot.num_crashes.0),
        (5, 4, 3, 2)
    );
    stats.num_exec.count();
    stats.find_new(&StatusType::Normal);
    stats.find_new(&StatusType::Crash);
    assert_eq!(counts(&stats), (6, 5, 3, 3));
    stats.restore(&snapshot);
    assert_eq!(counts(&stats), (5, 4, 3, 2));
    assert_eq!(stats.fuzz_type, FuzzType::ExploreFuzz);
}

#[test]
fn settling_moves_what_was_counted_to_the_aggregate() {
    let mut stats = local(100, 10, 2, 1);
    let snapshot = stats.snapshot();
    let mut reusing = ReusingStats::new();
    reusing.num_exec = Counter(7);
    for _ in 0..5 {
        stats.num_exec.count();
    }
    stats.find_new(&StatusType::Normal);
    stats.find_new(&StatusType::Timeout);
    stats.find_new(&StatusType::Timeout);
    assert!(check_can_settle(&stats, &snapshot, &reusing));
    settle_counters(&mut stats, &snapshot, &mut reusing);
    assert_eq!(counts(&stats), (100, 10, 2, 1));
    assert_eq!(aggregate(&reusing), (12, 1, 2, 0));
}

#[test]
fn a_sequence_of_attempts_leaves_the_service_counters_where_they_were() {
    let mut stats = local(40, 3, 0, 0);
    let mut reusing = ReusingStats::new();
    let work = [(3usize, 1usize), (0, 0), (10, 2), (1, 0)];
    for (execs, inputs) in work {
        let snapshot = stats.snapshot();
        for _ in 0..execs {
            stats.num_exec.count();
        }
        for _ in 0..inputs {
            stats.find_new(&StatusType::Normal);
        }
        assert!(check_can_settle(&stats, &snapshot, &reusing));
        settle_counters(&mut stats, &snapshot, &mut reusing);
    }
    assert_eq!(counts(&stats), (40, 3, 0, 0));
    assert_eq!(aggregate(&reusing), (14, 3, 0, 0));
}

#[test]
fn counts_below_the_snapshot_cannot_be_settled() {
    let stats = local(4, 0, 0, 0);
    let snapshot = LocalStatsSnapshot {
        num_exec: Counter(5),
        num_inputs: Counter(0),
        num_hangs: Counter(0),
        num_crashes: Counter(0),
    };
    assert!(!check_can_settle(&stats, &snapshot, &ReusingStats::new()));
    let crashed = local(5, 0, 0, 0);
    let later = LocalStatsSnapshot {
        num_exec: Counter(5),
        num_inputs: Counter(0),
        num_hangs: Counter(0),
        num_crashes: Counter(1),
    };
    assert!(!check_can_settle(&crashed, &later, &ReusingStats::new()));
}

#[test]
fn an_aggregate_without_room_cannot_be_settled() {
    let stats = local(6, 0, 0, 0);
    let snapshot = local(4, 0, 0, 0).snapshot();
    let mut reusing = ReusingStats::new();
    reusing.num_exec = Counter(usize::MAX - 1);
    assert!(!check_can_settle(&stats, &snapshot, &reusing));
    reusing.num_exec = Counter(usize::MAX - 2);
    assert!(check_can_settle(&stats, &snapshot, &reusing));
}

#[test]
fn clamped_addition_stops_at_the_ceiling() {
    assert_eq!(add_clamped(2, 3), 5);
    assert_eq!(add_clamped(usize::MAX - 1, 1), usize::MAX);
    assert_eq!(add_clamped(usize::MAX - 1, 2), usize::MAX);
    assert_eq!(add_clamped(usize::MAX, usize::MAX), usize::MAX);
    assert_eq!(add_clamped(0, 0), 0);
}
