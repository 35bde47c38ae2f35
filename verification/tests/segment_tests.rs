use taint_reuse::order::{rank_patterns, Rank};
use taint_reuse::segment::{
    check_continuous, extract_pattern, extract_pattern_merged, extract_segment_value,
    extract_value_from_label, merge_continuous_segments, merge_offsets, segments_well_formed,
    TagSeg,
};

fn sgm(begin: u32, end: u32) -> TagSeg {
    TagSeg { sign: false, begin, end }
}

fn signed(begin: u32, end: u32) -> TagSeg {
    TagSeg { sign: true, begin, end }
}

#[test]
fn merge_joins_adjacent_segments_and_keeps_gaps() {
    let offsets = vec![sgm(0, 2), sgm(2, 5), sgm(8, 10)];
    let merged = merge_continuous_segments(&offsets);
    assert_eq!(merged, vec![sgm(0, 5), sgm(8, 10)]);
    assert_eq!(extract_pattern_merged(&offsets), vec![5, 2]);
    let buffer: Vec<u8> = (0u8..12).collect();
    assert_eq!(
        extract_value_from_label(&offsets, &buffer),
        vec![vec![0u8, 1, 2, 3, 4], vec![8u8, 9]]
    );
}

#[test]
fn merge_of_nothing_is_nothing() {
    let offsets: Vec<TagSeg> = vec![];
    assert_eq!(merge_continuous_segments(&offsets), vec![]);
    assert_eq!(extract_pattern_merged(&offsets), Vec::<u32>::new());
    assert_eq!(extract_value_from_label(&offsets, &vec![1, 2, 3]), Vec::<Vec<u8>>::new());
}

#[test]
fn merge_of_one_segment_is_that_segment() {
    let offsets = vec![sgm(3, 9)];
    assert_eq!(merge_continuous_segments(&offsets), vec![sgm(3, 9)]);
    assert_eq!(extract_pattern_merged(&offsets), vec![6]);
}

#[test]
fn merge_does_not_sort() {
    let offsets = vec![sgm(2, 5), sgm(0, 2)];
    assert_eq!(merge_continuous_segments(&offsets), vec![sgm(2, 5), sgm(0, 2)]);
    assert_eq!(extract_pattern_merged(&offsets), vec![3, 2]);
    let backwards = vec![sgm(5, 8), sgm(8, 9), sgm(0, 5)];
    assert_eq!(merge_continuous_segments(&backwards), vec![sgm(5, 9), sgm(0, 5)]);
}

#[test]
fn merge_needs_strict_adjacency() {
    let overlapping = vec![sgm(0, 4), sgm(3, 6)];
    assert_eq!(merge_continuous_segments(&overlapping), vec![sgm(0, 4), sgm(3, 6)]);
    let gap = vec![sgm(0, 4), sgm(5, 6)];
    assert_eq!(merge_continuous_segments(&gap), vec![sgm(0, 4), sgm(5, 6)]);
}

#[test]
fn merge_joins_whole_runs() {
    let offsets = vec![sgm(1, 2), sgm(2, 3), sgm(3, 4), sgm(4, 9), sgm(20, 21), sgm(21, 30)];
    assert_eq!(merge_continuous_segments(&offsets), vec![sgm(1, 9), sgm(20, 30)]);
    assert_eq!(extract_pattern_merged(&offsets), vec![8, 10]);
}

#[test]
fn merge_keeps_the_marker_of_the_first_segment_of_a_run() {
    let offsets = vec![signed(0, 2), sgm(2, 5), sgm(7, 8), signed(8, 9)];
    assert_eq!(merge_continuous_segments(&offsets), vec![signed(0, 5), sgm(7, 9)]);
}

#[test]
fn merge_lets_empty_segments_join_their_neighbours() {
    let offsets = vec![sgm(4, 4), sgm(4, 6), sgm(6, 6)];
    assert_eq!(merge_continuous_segments(&offsets), vec![sgm(4, 6)]);
    assert_eq!(extract_pattern_merged(&offsets), vec![2]);
}

#[test]
fn merged_output_has_no_adjacent_neighbours() {
    let offsets = vec![sgm(0, 1), sgm(1, 2), sgm(5, 6), sgm(6, 7), sgm(2, 3), sgm(3, 4)];
    let merged = merge_continuous_segments(&offsets);
    assert_eq!(merged, vec![sgm(0, 2), sgm(5, 7), sgm(2, 4)]);
    for pair in merged.windows(2) {
        assert_ne!(pair[0].end, pair[1].begin);
    }
}

#[test]
fn pattern_without_merging_lists_every_length() {
    let offsets = vec![sgm(0, 2), sgm(2, 5), sgm(8, 10)];
    assert_eq!(extract_pattern(&offsets), vec![2, 3, 2]);
}

#[test]
fn fingerprint_ignores_where_the_segments_lie() {
    let offsets = vec![sgm(0, 2), sgm(2, 5), sgm(8, 10)];
    let shifted: Vec<TagSeg> = offsets.iter().map(|s| sgm(s.begin + 1000, s.end + 1000)).collect();
    assert_eq!(extract_pattern_merged(&offsets), extract_pattern_merged(&shifted));
    let elsewhere = vec![sgm(40, 42), sgm(42, 45), sgm(3, 5)];
    assert_eq!(extract_pattern_merged(&elsewhere), vec![5, 2]);
}

#[test]
fn values_are_zero_padded_where_the_buffer_ends_early() {
    let buffer = vec![10u8, 11, 12, 13, 14, 15];
    let partly = vec![sgm(4, 9)];
    assert_eq!(extract_value_from_label(&partly, &buffer), vec![vec![14u8, 15, 0, 0, 0]]);
    let beyond = vec![sgm(6, 8)];
    assert_eq!(extract_value_from_label(&beyond, &buffer), vec![vec![0u8, 0]]);
    let far = vec![sgm(100, 103)];
    assert_eq!(extract_value_from_label(&far, &buffer), vec![vec![0u8, 0, 0]]);
    let exact = vec![sgm(2, 6)];
    assert_eq!(extract_value_from_label(&exact, &buffer), vec![vec![12u8, 13, 14, 15]]);
}

#[test]
fn values_of_an_empty_segment_are_empty() {
    let buffer = vec![1u8, 2, 3];
    assert_eq!(extract_segment_value(sgm(1, 1), &buffer), Vec::<u8>::new());
    assert_eq!(extract_value_from_label(&vec![sgm(1, 1)], &buffer), vec![Vec::<u8>::new()]);
}

#[test]
fn values_come_one_per_merged_segment() {
    let buffer: Vec<u8> = (100u8..120).collect();
    let offsets = vec![sgm(0, 1), sgm(1, 3), sgm(10, 12), sgm(18, 22)];
    let values = extract_value_from_label(&offsets, &buffer);
    assert_eq!(values.len(), merge_continuous_segments(&offsets).len());
    assert_eq!(values, vec![vec![100u8, 101, 102], vec![110u8, 111], vec![118u8, 119, 0, 0]]);
}

#[test]
fn segments_are_well_formed_when_none_ends_before_it_begins() {
    assert!(segments_well_formed(&vec![]));
    assert!(segments_well_formed(&vec![sgm(0, 0), sgm(3, 9)]));
    assert!(!segments_well_formed(&vec![sgm(0, 1), sgm(9, 3)]));
}

#[test]
fn continuity_check() {
    assert!(check_continuous(&vec![]));
    assert!(check_continuous(&vec![sgm(3, 4)]));
    assert!(check_continuous(&vec![sgm(0, 2), sgm(2, 5), sgm(5, 6)]));
    assert!(!check_continuous(&vec![sgm(0, 2), sgm(3, 5)]));
    assert!(!check_continuous(&vec![sgm(0, 2), sgm(2, 5), sgm(6, 7)]));
}

#[test]
fn combined_offsets_keep_both_lists_in_order() {
    let primary = vec![sgm(4, 6), sgm(0, 1)];
    let secondary = vec![sgm(6, 8)];
    assert_eq!(merge_offsets(&primary, &secondary), vec![sgm(4, 6), sgm(0, 1), sgm(6, 8)]);
    assert_eq!(merge_offsets(&primary, &vec![]), primary);
    assert_eq!(merge_offsets(&vec![], &secondary), secondary);
}

#[test]
fn fingerprints_are_ranked_lexicographically() {
    assert_eq!(rank_patterns(&vec![1, 2], &vec![1, 3]), Rank::Before);
    assert_eq!(rank_patterns(&vec![1, 3], &vec![1, 2]), Rank::After);
    assert_eq!(rank_patterns(&vec![1, 2], &vec![1, 2]), Rank::Same);
    assert_eq!(rank_patterns(&vec![1], &vec![1, 0]), Rank::Before);
    assert_eq!(rank_patterns(&vec![2], &vec![1, 9, 9]), Rank::After);
    assert_eq!(rank_patterns(&vec![], &vec![0]), Rank::Before);
    assert_eq!(rank_patterns(&vec![], &vec![]), Rank::Same);
}
