use taint_reuse::cond::{CondState, CondStmt, COND_DONE_ST};
use taint_reuse::fuzz_type::FuzzType;
use taint_reuse::schedule::{
    classify_entry, select_strategy, tries_reuse_first, EntryAction, Plan, SearchMethod, Strategy,
    REUSE_ITERATIONS,
};
use taint_reuse::segment::TagSeg;

fn cond_of(fuzz_type: FuzzType, state: CondState, fuzz_times: usize) -> CondStmt {
    let mut cond = CondStmt::new();
    cond.fuzz_type = fuzz_type;
    cond.state = state;
    cond.fuzz_times = fuzz_times;
    cond
}

fn plain(strategy: Strategy) -> Plan {
    Plan { strategy, retire: false }
}

#[test]
fn queue_entries_are_stopped_on_put_back_or_fuzzed() {
    let mut cond = CondStmt::new();
    assert_eq!(classify_entry(false, &cond), EntryAction::Fuzz);
    assert_eq!(classify_entry(true, &cond), EntryAction::Stop);
    cond.base.condition = COND_DONE_ST;
    assert_eq!(classify_entry(false, &cond), EntryAction::PutBack);
    assert_eq!(classify_entry(true, &cond), EntryAction::Stop);
}

#[test]
fn reuse_comes_first_for_explored_and_exploited_conditions() {
    assert_eq!(REUSE_ITERATIONS, 100);
    assert!(tries_reuse_first(FuzzType::ExploreFuzz));
    assert!(tries_reuse_first(FuzzType::ExploitFuzz));
    assert!(!tries_reuse_first(FuzzType::AFLFuzz));
    assert!(!tries_reuse_first(FuzzType::LenFuzz));
    assert!(!tries_reuse_first(FuzzType::CmpFnFuzz));
    assert!(!tries_reuse_first(FuzzType::OtherFuzz));
}

#[test]
fn nothing_follows_a_reuse_that_solved_the_condition() {
    for fuzz_type in [FuzzType::ExploreFuzz, FuzzType::ExploitFuzz] {
        let mut cond = cond_of(fuzz_type, CondState::Deterministic, 9);
        assert_eq!(select_strategy(&mut cond, SearchMethod::Gd, true), plain(Strategy::Nothing));
        assert_eq!(cond.state, CondState::Deterministic);
    }
}

#[test]
fn an_explored_condition_gets_the_strategy_of_its_state() {
    let mut one_byte = cond_of(FuzzType::ExploreFuzz, CondState::OneByte, 1);
    assert_eq!(select_strategy(&mut one_byte, SearchMethod::Gd, false), plain(Strategy::OneByte));
    assert_eq!(one_byte.state, CondState::OneByte);
    let mut det = cond_of(FuzzType::ExploreFuzz, CondState::Deterministic, 1);
    assert_eq!(select_strategy(&mut det, SearchMethod::Gd, false), plain(Strategy::Deterministic));
    let methods = [
        (SearchMethod::Gd, Strategy::Gradient),
        (SearchMethod::Random, Strategy::Random),
        (SearchMethod::Cbh, Strategy::Cbh),
        (SearchMethod::Mb, Strategy::MagicBytes),
    ];
    for (method, strategy) in methods {
        let mut cond = cond_of(FuzzType::ExploreFuzz, CondState::Offset, 1);
        assert_eq!(select_strategy(&mut cond, method, false), plain(strategy));
        assert_eq!(cond.state, CondState::Offset);
    }
}

#[test]
fn an_explored_condition_whose_time_expired_moves_on_first() {
    let mut cond = cond_of(FuzzType::ExploreFuzz, CondState::Offset, 8);
    assert_eq!(select_strategy(&mut cond, SearchMethod::Random, false), plain(Strategy::Deterministic));
    assert_eq!(cond.state, CondState::Deterministic);
    let mut det = cond_of(FuzzType::ExploreFuzz, CondState::Deterministic, 2);
    det.offsets = vec![TagSeg { sign: false, begin: 0, end: 4 }];
    assert_eq!(select_strategy(&mut det, SearchMethod::Random, false), plain(Strategy::Random));
    assert_eq!(det.state, CondState::Reusing);
    assert_eq!(det.reusing_segment_index, vec![0usize]);
    let mut one_byte = cond_of(FuzzType::ExploreFuzz, CondState::OneByte, 2);
    assert_eq!(select_strategy(&mut one_byte, SearchMethod::Mb, false), plain(Strategy::MagicBytes));
    assert_eq!(one_byte.state, CondState::Reusing);
}

#[test]
fn an_exploited_condition_is_retired_after_its_one_byte_strategy() {
    let mut one_byte = cond_of(FuzzType::ExploitFuzz, CondState::OneByte, 9);
    assert_eq!(
        select_strategy(&mut one_byte, SearchMethod::Gd, false),
        Plan { strategy: Strategy::OneByte, retire: true }
    );
    assert_eq!(one_byte.state, CondState::OneByte);
    let mut other = cond_of(FuzzType::ExploitFuzz, CondState::Deterministic, 9);
    assert_eq!(select_strategy(&mut other, SearchMethod::Gd, false), plain(Strategy::Exploit));
    assert_eq!(other.state, CondState::Deterministic);
}

#[test]
fn the_other_families_have_one_strategy_each() {
    let table = [
        (FuzzType::AFLFuzz, Strategy::Afl),
        (FuzzType::LenFuzz, Strategy::Len),
        (FuzzType::CmpFnFuzz, Strategy::CmpFn),
        (FuzzType::OtherFuzz, Strategy::Nothing),
    ];
    for (fuzz_type, strategy) in table {
        for solved in [false, true] {
            let mut cond = cond_of(fuzz_type, CondState::OneByte, 9);
            assert_eq!(select_strategy(&mut cond, SearchMethod::Cbh, solved), plain(strategy));
            assert_eq!(cond.state, CondState::OneByte);
        }
    }
}
