use taint_reuse::cond::{
    CondState, CondStmt, NextState, COND_DONE_ST, LONG_FUZZ_TIME, SLOW_SPEED,
};
use taint_reuse::segment::TagSeg;

fn csg(begin: u32, end: u32) -> TagSeg {
    TagSeg { sign: false, begin, end }
}

fn cond_in(state: CondState, offsets: Vec<TagSeg>, offsets_opt: Vec<TagSeg>) -> CondStmt {
    let mut cond = CondStmt::new();
    cond.state = state;
    cond.offsets = offsets;
    cond.offsets_opt = offsets_opt;
    cond
}

#[test]
fn a_fresh_condition_is_initial() {
    let cond = CondStmt::new();
    assert_eq!(cond.state, CondState::Offset);
    assert_eq!(CondState::default(), CondState::Offset);
    assert!(cond.state.is_initial());
    assert!(!cond.is_done());
    assert_eq!(cond.reusing_record_index, 0);
    assert!(cond.reusing_segment_index.is_empty());
}

#[test]
fn state_predicates() {
    assert!(CondState::Offset.is_initial());
    assert!(CondState::OneByte.is_initial());
    assert!(!CondState::Deterministic.is_initial());
    assert!(!CondState::Reusing.is_initial());
    assert!(CondState::Deterministic.is_det());
    assert!(!CondState::Offset.is_det());
    assert!(CondState::OneByte.is_one_byte());
    assert!(!CondState::OffsetOpt.is_one_byte());
    assert!(CondState::Unsolvable.is_unsolvable());
    assert!(!CondState::Timeout.is_unsolvable());
    assert!(CondState::Timeout.is_timeout());
    assert!(!CondState::Unsolvable.is_timeout());
}

#[test]
fn offset_without_secondary_goes_to_deterministic_then_reusing() {
    let mut cond =
        cond_in(CondState::Offset, vec![csg(0, 2), csg(2, 5), csg(8, 10)], vec![]);
    cond.next_state();
    assert_eq!(cond.state, CondState::Deterministic);
    assert_eq!(cond.offsets, vec![csg(0, 2), csg(2, 5), csg(8, 10)]);
    cond.next_state();
    assert_eq!(cond.state, CondState::Reusing);
    assert_eq!(cond.reusing_segment_index, vec![0usize, 0]);
    assert_eq!(cond.offsets, vec![csg(0, 2), csg(2, 5), csg(8, 10)]);
}

#[test]
fn offset_with_secondary_walks_through_both_operands() {
    let mut cond = cond_in(CondState::Offset, vec![csg(0, 2)], vec![csg(2, 4), csg(9, 10)]);
    cond.next_state();
    assert_eq!(cond.state, CondState::OffsetOpt);
    assert_eq!(cond.offsets, vec![csg(2, 4), csg(9, 10)]);
    assert_eq!(cond.offsets_opt, vec![csg(0, 2)]);
    cond.next_state();
    assert_eq!(cond.state, CondState::OffsetAll);
    assert_eq!(cond.offsets, vec![csg(2, 4), csg(9, 10), csg(0, 2)]);
    assert!(cond.offsets_opt.is_empty());
    cond.next_state();
    assert_eq!(cond.state, CondState::Deterministic);
    cond.next_state();
    assert_eq!(cond.state, CondState::Reusing);
    assert_eq!(cond.reusing_segment_index, vec![0usize, 0, 0]);
}

#[test]
fn one_byte_goes_to_reusing_or_to_the_secondary_operand() {
    let mut alone = cond_in(CondState::OneByte, vec![csg(3, 4)], vec![]);
    alone.next_state();
    assert_eq!(alone.state, CondState::Reusing);
    assert_eq!(alone.reusing_segment_index, vec![0usize]);
    let mut both = cond_in(CondState::OneByte, vec![csg(3, 4)], vec![csg(7, 8)]);
    both.next_state();
    assert_eq!(both.state, CondState::OffsetOpt);
    assert_eq!(both.offsets, vec![csg(7, 8)]);
    assert_eq!(both.offsets_opt, vec![csg(3, 4)]);
}

#[test]
fn entering_reusing_takes_in_the_remaining_secondary_offsets() {
    let mut cond = cond_in(CondState::Deterministic, vec![csg(0, 2)], vec![csg(2, 6)]);
    cond.reusing_segment_index = vec![5, 6, 7];
    cond.to_reusing();
    assert_eq!(cond.state, CondState::Reusing);
    assert_eq!(cond.offsets, vec![csg(0, 2), csg(2, 6)]);
    assert_eq!(cond.offsets_opt, vec![csg(2, 6)]);
    assert_eq!(cond.reusing_segment_index, vec![0usize]);
}

#[test]
fn entering_reusing_without_offsets_leaves_no_cursor() {
    let mut cond = cond_in(CondState::Deterministic, vec![], vec![]);
    cond.next_state();
    assert_eq!(cond.state, CondState::Reusing);
    assert!(cond.reusing_segment_index.is_empty());
}

#[test]
fn states_without_successor_stay() {
    for state in [
        CondState::OffsetAllEnd,
        CondState::Unsolvable,
        CondState::Reusing,
        CondState::Timeout,
    ] {
        let mut cond = cond_in(state, vec![csg(0, 2)], vec![csg(4, 5)]);
        cond.speed = 3;
        cond.next_state();
        assert_eq!(cond.state, state);
        assert_eq!(cond.offsets, vec![csg(0, 2)]);
        assert_eq!(cond.offsets_opt, vec![csg(4, 5)]);
        assert_eq!(cond.speed, 3);
    }
}

#[test]
fn direct_transitions() {
    let mut cond = cond_in(CondState::Offset, vec![csg(0, 2)], vec![]);
    cond.speed = 1;
    cond.to_offsets_all_end();
    assert_eq!(cond.state, CondState::OffsetAllEnd);
    cond.to_unsolvable();
    assert_eq!(cond.state, CondState::Unsolvable);
    cond.to_det();
    assert_eq!(cond.state, CondState::Deterministic);
    assert_eq!(cond.speed, 1);
    cond.to_timeout();
    assert_eq!(cond.state, CondState::Timeout);
    assert_eq!(cond.speed, SLOW_SPEED);
    assert_eq!(SLOW_SPEED, 888888);
}

#[test]
fn time_expires_after_the_first_attempt_in_deterministic_and_one_byte() {
    for state in [CondState::Deterministic, CondState::OneByte] {
        let mut cond = cond_in(state, vec![], vec![]);
        cond.fuzz_times = 1;
        assert!(cond.is_first_time());
        assert!(!cond.is_time_expired());
        cond.fuzz_times = 2;
        assert!(!cond.is_first_time());
        assert!(cond.is_time_expired());
    }
}

#[test]
fn time_expires_in_any_state_at_the_long_fuzz_threshold() {
    assert_eq!(LONG_FUZZ_TIME, 8);
    for state in [CondState::Offset, CondState::OffsetOpt, CondState::OffsetAll, CondState::Reusing] {
        let mut cond = cond_in(state, vec![], vec![]);
        cond.fuzz_times = LONG_FUZZ_TIME - 1;
        assert!(!cond.is_time_expired());
        cond.fuzz_times = LONG_FUZZ_TIME;
        assert!(cond.is_time_expired());
        cond.fuzz_times = LONG_FUZZ_TIME + 5;
        assert!(cond.is_time_expired());
    }
}

#[test]
fn a_condition_is_done_when_its_outcome_says_so() {
    let mut cond = CondStmt::new();
    cond.base.condition = 1;
    assert!(!cond.is_done());
    cond.base.condition = COND_DONE_ST;
    assert!(cond.is_done());
}

#[test]
fn identity_and_origin() {
    let mut cond = CondStmt::new();
    cond.base.cmpid = 7;
    cond.base.context = 8;
    cond.base.order = 9;
    cond.base.belong = 10;
    let key = cond.key();
    assert_eq!((key.cmpid, key.context, key.order), (7, 8, 9));
    let origin = cond.origin();
    assert_eq!((origin.cmpid, origin.belong), (7, 10));
}
