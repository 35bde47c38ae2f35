use taint_reuse::cond::CondStmt;
use taint_reuse::segment::TagSeg;
use taint_reuse::store::{
    add_cond_to_pattern_map, add_cond_to_pattern_map_filtered, add_dual_label_records,
    add_single_label_record, create_record_for_offsets, create_single_record, get_next_records,
    get_stats, records_from, touches, CondRecord, PatternStore,
};

fn span(begin: u32, end: u32) -> TagSeg {
    TagSeg { sign: false, begin, end }
}

fn origin(cmpid: u32, belong: u32) -> CondStmt {
    let mut cond = CondStmt::new();
    cond.base.cmpid = cmpid;
    cond.base.belong = belong;
    cond
}

fn store_with_three_records() -> PatternStore {
    let mut store = PatternStore::new();
    let offsets = vec![span(0, 5), span(8, 10)];
    for k in 0u8..3 {
        let values = vec![vec![k; 5], vec![k + 10; 2]];
        create_single_record(&mut store, &vec![5, 2], &offsets, &values, &origin(k as u32 + 1, 0));
    }
    store
}

fn firsts(records: &Vec<CondRecord>) -> Vec<u8> {
    records.iter().map(|r| r.critical_values[0][0]).collect()
}

#[test]
fn a_new_store_is_empty() {
    let store = PatternStore::new();
    assert_eq!(get_stats(&store), (0, 0));
    assert!(store.sorted_patterns().is_empty());
    assert!(store.records(&vec![1]).is_empty());
    assert_eq!(store.record_count(&vec![1]), 0);
}

#[test]
fn the_same_values_are_stored_once() {
    let mut store = PatternStore::new();
    let offsets = vec![span(0, 2)];
    let values = vec![vec![7u8, 8]];
    create_single_record(&mut store, &vec![2], &offsets, &values, &origin(1, 1));
    create_single_record(&mut store, &vec![2], &offsets, &values, &origin(1, 1));
    assert_eq!(get_stats(&store), (1, 1));
    assert_eq!(store.records(&vec![2]).len(), 1);
}

#[test]
fn the_first_writer_of_a_value_wins() {
    let mut store = PatternStore::new();
    let values = vec![vec![7u8, 8]];
    create_single_record(&mut store, &vec![2], &vec![span(0, 2)], &values, &origin(1, 4));
    create_single_record(&mut store, &vec![2], &vec![span(30, 32)], &values, &origin(2, 5));
    let records = store.records(&vec![2]);
    assert_eq!(records.len(), 1);
    assert_eq!(records[0].cmpid, 1);
    assert_eq!(records[0].belong, 4);
    assert_eq!(records[0].offsets, vec![span(0, 2)]);
    assert_eq!(records[0].critical_values, values);
}

#[test]
fn equal_values_under_different_fingerprints_are_kept_apart() {
    let mut store = PatternStore::new();
    let values = vec![vec![7u8, 8]];
    create_single_record(&mut store, &vec![2], &vec![span(0, 2)], &values, &origin(1, 1));
    create_single_record(&mut store, &vec![3], &vec![span(0, 3)], &values, &origin(1, 1));
    assert_eq!(get_stats(&store), (2, 2));
}

#[test]
fn records_keep_their_insertion_order() {
    let mut store = PatternStore::new();
    for v in [9u8, 3, 5, 3, 1, 9] {
        create_single_record(&mut store, &vec![1], &vec![span(0, 1)], &vec![vec![v]], &origin(1, 1));
    }
    assert_eq!(firsts(&store.records(&vec![1])), vec![9, 3, 5, 1]);
    assert_eq!(store.record_count(&vec![1]), 4);
    assert_eq!(get_stats(&store), (1, 4));
}

#[test]
fn fingerprints_are_listed_in_ascending_order() {
    let mut store = PatternStore::new();
    for pattern in [vec![5u32, 2], vec![1], vec![5], vec![1, 1, 1], vec![4, 9], vec![5, 2]] {
        let values: Vec<Vec<u8>> = pattern.iter().map(|n| vec![0u8; *n as usize]).collect();
        create_single_record(&mut store, &pattern, &vec![], &values, &origin(1, 1));
    }
    assert_eq!(
        store.sorted_patterns(),
        vec![vec![1u32], vec![1, 1, 1], vec![4, 9], vec![5], vec![5, 2]]
    );
    assert_eq!(get_stats(&store), (5, 5));
}

#[test]
fn next_records_resume_where_the_condition_left_off() {
    let store = store_with_three_records();
    let mut cond = CondStmt::new();
    let first = get_next_records(&store, &mut cond, &vec![5, 2], 2).unwrap();
    assert_eq!(firsts(&first), vec![0, 1]);
    assert_eq!(cond.reusing_record_index, 2);
    let second = get_next_records(&store, &mut cond, &vec![5, 2], 2).unwrap();
    assert_eq!(firsts(&second), vec![2]);
    assert_eq!(cond.reusing_record_index, 3);
    assert!(get_next_records(&store, &mut cond, &vec![5, 2], 2).is_none());
    assert_eq!(cond.reusing_record_index, 3);
}

#[test]
fn asking_one_by_one_visits_every_record_once_and_in_order() {
    let store = store_with_three_records();
    let mut cond = CondStmt::new();
    let mut seen = vec![];
    let mut rounds = 0;
    while let Some(batch) = get_next_records(&store, &mut cond, &vec![5, 2], 1) {
        seen.extend(firsts(&batch));
        rounds += 1;
        assert!(rounds <= 3);
    }
    assert_eq!(seen, vec![0, 1, 2]);
    assert_eq!(rounds, 3);
}

#[test]
fn a_large_request_gets_what_there_is() {
    let store = store_with_three_records();
    let mut cond = CondStmt::new();
    cond.reusing_record_index = 1;
    let batch = get_next_records(&store, &mut cond, &vec![5, 2], usize::MAX).unwrap();
    assert_eq!(firsts(&batch), vec![1, 2]);
    assert_eq!(cond.reusing_record_index, 3);
}

#[test]
fn a_request_for_nothing_gets_an_empty_batch() {
    let store = store_with_three_records();
    let mut cond = CondStmt::new();
    cond.reusing_record_index = 1;
    let batch = get_next_records(&store, &mut cond, &vec![5, 2], 0).unwrap();
    assert!(batch.is_empty());
    assert_eq!(cond.reusing_record_index, 1);
}

#[test]
fn an_unknown_fingerprint_has_no_records() {
    let store = store_with_three_records();
    let mut cond = CondStmt::new();
    assert!(get_next_records(&store, &mut cond, &vec![2, 5], 4).is_none());
    assert_eq!(cond.reusing_record_index, 0);
    cond.reusing_record_index = 9;
    assert!(get_next_records(&store, &mut cond, &vec![5, 2], 4).is_none());
    assert_eq!(cond.reusing_record_index, 9);
}

#[test]
fn records_appended_later_are_reached_by_a_resumed_cursor() {
    let mut store = store_with_three_records();
    let mut cond = CondStmt::new();
    assert_eq!(get_next_records(&store, &mut cond, &vec![5, 2], 10).unwrap().len(), 3);
    assert!(get_next_records(&store, &mut cond, &vec![5, 2], 10).is_none());
    let values = vec![vec![77u8; 5], vec![78u8; 2]];
    create_single_record(&mut store, &vec![5, 2], &vec![], &values, &origin(9, 9));
    let batch = get_next_records(&store, &mut cond, &vec![5, 2], 10).unwrap();
    assert_eq!(firsts(&batch), vec![77]);
    assert_eq!(cond.reusing_record_index, 4);
}

#[test]
fn records_can_be_read_from_any_position_without_a_cursor() {
    let store = store_with_three_records();
    assert_eq!(firsts(&records_from(&store, &vec![5, 2], 0, 2).unwrap()), vec![0, 1]);
    assert_eq!(firsts(&records_from(&store, &vec![5, 2], 2, 2).unwrap()), vec![2]);
    assert!(records_from(&store, &vec![5, 2], 1, 0).unwrap().is_empty());
    assert!(records_from(&store, &vec![5, 2], 3, 2).is_none());
    assert!(records_from(&store, &vec![5], 0, 2).is_none());
}

#[test]
fn harvest_of_one_merged_segment_stores_one_record() {
    let mut store = PatternStore::new();
    let buffer: Vec<u8> = (0u8..12).collect();
    let mut cond = origin(3, 6);
    cond.offsets = vec![span(2, 4), span(4, 7)];
    add_cond_to_pattern_map(&mut store, &cond, &buffer);
    assert_eq!(get_stats(&store), (1, 1));
    let records = store.records(&vec![5]);
    assert_eq!(records.len(), 1);
    assert_eq!(records[0].cmpid, 3);
    assert_eq!(records[0].belong, 6);
    assert_eq!(records[0].offsets, vec![span(2, 4), span(4, 7)]);
    assert_eq!(records[0].critical_values, vec![vec![2u8, 3, 4, 5, 6]]);
}

#[test]
fn harvest_of_several_segments_stores_each_segment_alone_as_well() {
    let mut store = PatternStore::new();
    let buffer: Vec<u8> = (0u8..12).collect();
    let mut cond = origin(3, 6);
    cond.offsets = vec![span(0, 2), span(2, 5), span(8, 10)];
    add_cond_to_pattern_map(&mut store, &cond, &buffer);
    assert_eq!(store.sorted_patterns(), vec![vec![2u32], vec![5], vec![5, 2]]);
    assert_eq!(get_stats(&store), (3, 3));
    let whole = store.records(&vec![5, 2]);
    assert_eq!(whole[0].offsets, vec![span(0, 2), span(2, 5), span(8, 10)]);
    assert_eq!(whole[0].critical_values, vec![vec![0u8, 1, 2, 3, 4], vec![8u8, 9]]);
    let five = store.records(&vec![5]);
    assert_eq!(five[0].offsets, vec![span(0, 5)]);
    assert_eq!(five[0].critical_values, vec![vec![0u8, 1, 2, 3, 4]]);
    let two = store.records(&vec![2]);
    assert_eq!(two[0].offsets, vec![span(8, 10)]);
    assert_eq!(two[0].critical_values, vec![vec![8u8, 9]]);
    assert_eq!(two[0].cmpid, 3);
}

#[test]
fn harvest_of_both_operands_stores_each_under_its_own_fingerprint() {
    let mut store = PatternStore::new();
    let buffer: Vec<u8> = (0u8..12).collect();
    let mut cond = origin(3, 6);
    cond.offsets = vec![span(0, 3)];
    cond.offsets_opt = vec![span(4, 6)];
    add_cond_to_pattern_map(&mut store, &cond, &buffer);
    assert_eq!(store.sorted_patterns(), vec![vec![2u32], vec![3]]);
    assert_eq!(store.records(&vec![3])[0].critical_values, vec![vec![0u8, 1, 2]]);
    assert_eq!(store.records(&vec![2])[0].critical_values, vec![vec![4u8, 5]]);
    assert_eq!(store.records(&vec![2])[0].offsets, vec![span(4, 6)]);
}

#[test]
fn harvest_without_taint_offsets_changes_nothing() {
    let mut store = PatternStore::new();
    let cond = origin(3, 6);
    add_cond_to_pattern_map(&mut store, &cond, &vec![1, 2, 3]);
    add_single_label_record(&mut store, &cond, &vec![1, 2, 3]);
    add_dual_label_records(&mut store, &cond, &vec![1, 2, 3]);
    create_record_for_offsets(&mut store, &vec![], &cond, &vec![1, 2, 3]);
    assert_eq!(get_stats(&store), (0, 0));
}

#[test]
fn dual_harvest_without_secondary_offsets_changes_nothing() {
    let mut store = PatternStore::new();
    let mut cond = origin(3, 6);
    cond.offsets = vec![span(0, 3)];
    add_dual_label_records(&mut store, &cond, &vec![1, 2, 3]);
    assert_eq!(get_stats(&store), (0, 0));
    add_single_label_record(&mut store, &cond, &vec![1, 2, 3]);
    assert_eq!(get_stats(&store), (1, 1));
}

#[test]
fn harvesting_the_same_input_twice_adds_nothing() {
    let mut store = PatternStore::new();
    let buffer: Vec<u8> = (0u8..12).collect();
    let mut cond = origin(3, 6);
    cond.offsets = vec![span(0, 2), span(2, 5), span(8, 10)];
    add_cond_to_pattern_map(&mut store, &cond, &buffer);
    add_cond_to_pattern_map(&mut store, &cond, &buffer);
    assert_eq!(get_stats(&store), (3, 3));
}

#[test]
fn harvest_from_a_short_buffer_pads_with_zeros() {
    let mut store = PatternStore::new();
    let mut cond = origin(3, 6);
    cond.offsets = vec![span(1, 4), span(6, 8)];
    add_cond_to_pattern_map(&mut store, &cond, &vec![10, 11, 12]);
    let whole = store.records(&vec![3, 2]);
    assert_eq!(whole[0].critical_values, vec![vec![11u8, 12, 0], vec![0u8, 0]]);
}

#[test]
fn segments_of_equal_length_share_one_pool() {
    let mut store = PatternStore::new();
    let buffer: Vec<u8> = (0u8..12).collect();
    let mut cond = origin(3, 6);
    cond.offsets = vec![span(0, 2), span(4, 6)];
    add_cond_to_pattern_map(&mut store, &cond, &buffer);
    assert_eq!(store.sorted_patterns(), vec![vec![2u32], vec![2, 2]]);
    let pool = store.records(&vec![2]);
    assert_eq!(pool.len(), 2);
    assert_eq!(pool[0].critical_values, vec![vec![0u8, 1]]);
    assert_eq!(pool[1].critical_values, vec![vec![4u8, 5]]);
    assert_eq!(get_stats(&store), (2, 3));
}

#[test]
fn filtered_harvest_needs_a_mutated_byte_in_the_taint_offsets() {
    let buffer: Vec<u8> = (0u8..12).collect();
    let mut cond = origin(3, 6);
    cond.offsets = vec![span(2, 4)];
    cond.offsets_opt = vec![span(8, 9)];
    let mut store = PatternStore::new();
    add_cond_to_pattern_map_filtered(&mut store, &cond, &buffer, &vec![0, 1, 4, 7, 9]);
    assert_eq!(get_stats(&store), (0, 0));
    add_cond_to_pattern_map_filtered(&mut store, &cond, &buffer, &vec![0, 3]);
    assert_eq!(get_stats(&store), (2, 2));
    let mut second = PatternStore::new();
    add_cond_to_pattern_map_filtered(&mut second, &cond, &buffer, &vec![8]);
    assert_eq!(get_stats(&second), (2, 2));
    let mut unfiltered = PatternStore::new();
    add_cond_to_pattern_map_filtered(&mut unfiltered, &cond, &buffer, &vec![]);
    assert_eq!(get_stats(&unfiltered), (2, 2));
}

#[test]
fn a_byte_touches_a_segment_from_its_begin_to_before_its_end() {
    let segs = vec![span(2, 4), span(10, 11)];
    assert!(touches(&segs, &vec![2]));
    assert!(touches(&segs, &vec![3]));
    assert!(!touches(&segs, &vec![4]));
    assert!(!touches(&segs, &vec![1, 9, 11]));
    assert!(touches(&segs, &vec![1, 9, 10]));
    assert!(!touches(&segs, &vec![]));
    assert!(!touches(&vec![], &vec![1]));
    assert!(!touches(&vec![span(5, 5)], &vec![5]));
}
