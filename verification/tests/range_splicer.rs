use code_notes::model::range_splicer::{
    define_index_ranges, get_index_result, splice_range, IndexResult,
};
use std::ops::Range;

#[test]
fn test_new_strictly_greater() {
    let mut indices_ranges = Vec::<Range<usize>>::new();
    indices_ranges.push(0..4);
    indices_ranges.push(7..10);
    let primitive_indices_range = Range { start: 12, end: 15 };
    define_index_ranges(&mut indices_ranges, &primitive_indices_range);

    assert_eq!(indices_ranges.len(), 3);
    assert_eq!(*indices_ranges.last().unwrap(), Range { start: 12, end: 15 });
}

#[test]
fn test_new_right_overlap_1() {
    let mut indices_ranges = Vec::<Range<usize>>::new();
    indices_ranges.push(0..4);
    indices_ranges.push(7..10);
    let primitive_indices_range = Range { start: 8, end: 15 };
    define_index_ranges(&mut indices_ranges, &primitive_indices_range);
    println!("{:?}", indices_ranges);
    assert_eq!(indices_ranges.len(), 2);
    assert_eq!(indices_ranges[0], Range { start: 0, end: 4 });
    assert_eq!(indices_ranges[1], Range { start: 7, end: 15 });
}

#[test]
fn test_new_right_overlap_2() {
    let mut indices_ranges = Vec::<Range<usize>>::new();
    indices_ranges.push(0..4);
    indices_ranges.push(7..10);
    let primitive_indices_range = Range { start: 10, end: 15 };
    define_index_ranges(&mut indices_ranges, &primitive_indices_range);
    assert_eq!(indices_ranges.len(), 2);
    assert_eq!(indices_ranges[0], Range { start: 0, end: 4 });
    assert_eq!(indices_ranges[1], Range { start: 7, end: 15 });
}

#[test]
fn test_right_overlap_3() {
    let mut indices_ranges = Vec::<Range<usize>>::new();
    indices_ranges.push(2..4);
    indices_ranges.push(8..10);
    indices_ranges.push(12..15);
    let primitive_indices_range = Range { start: 3, end: 13 };
    define_index_ranges(&mut indices_ranges, &primitive_indices_range);
    assert_eq!(indices_ranges.len(), 1);
    assert_eq!(indices_ranges[0], Range { start: 2, end: 15 });
}

#[test]
fn test_full_emcompass() {
    let mut indices_ranges = Vec::<Range<usize>>::new();
    indices_ranges.push(2..4);
    indices_ranges.push(7..10);
    let primitive_indices_range = Range { start: 0, end: 15 };
    define_index_ranges(&mut indices_ranges, &primitive_indices_range);
    assert_eq!(indices_ranges.len(), 1);
    assert_eq!(indices_ranges[0], Range { start: 0, end: 15 });
}

#[test]
fn test_part_emcompass() {
    let mut indices_ranges = Vec::<Range<usize>>::new();
    indices_ranges.push(2..4);
    indices_ranges.push(10..18);
    indices_ranges.push(22..25);
    let primitive_indices_range = Range { start: 6, end: 20 };
    define_index_ranges(&mut indices_ranges, &primitive_indices_range);
    assert_eq!(indices_ranges.len(), 3);
    assert_eq!(indices_ranges[0], Range { start: 2, end: 4 });
    assert_eq!(indices_ranges[1], Range { start: 6, end: 20 });
    assert_eq!(indices_ranges[2], Range { start: 22, end: 25 });
}

#[test]
fn test_new_left_overlap_1() {
    let mut indices_ranges = Vec::<Range<usize>>::new();
    indices_ranges.push(2..4);
    indices_ranges.push(8..10);
    indices_ranges.push(12..15);
    let primitive_indices_range = Range { start: 6, end: 9 };
    define_index_ranges(&mut indices_ranges, &primitive_indices_range);
    assert_eq!(indices_ranges.len(), 3);
    assert_eq!(indices_ranges[0], Range { start: 2, end: 4 });
    assert_eq!(indices_ranges[1], Range { start: 6, end: 10 });
    assert_eq!(indices_ranges[2], Range { start: 12, end: 15 });
}

#[test]
fn test_new_in_betweener() {
    let mut indices_ranges = Vec::<Range<usize>>::new();
    indices_ranges.push(2..4);
    indices_ranges.push(12..20);
    let primitive_indices_range = Range { start: 6, end: 10 };
    define_index_ranges(&mut indices_ranges, &primitive_indices_range);
    assert_eq!(indices_ranges.len(), 3);
    assert_eq!(indices_ranges[0], Range { start: 2, end: 4 });
    assert_eq!(indices_ranges[1], Range { start: 6, end: 10 });
    assert_eq!(indices_ranges[2], Range { start: 12, end: 20 });
}

#[test]
fn first_range_goes_into_empty_list() {
    let mut indices_ranges = Vec::<Range<usize>>::new();
    define_index_ranges(&mut indices_ranges, &(4..9));
    assert_eq!(indices_ranges, vec![4..9]);
}

#[test]
fn equal_start_keeps_list_unchanged() {
    // a range that starts where a range of the list starts is taken as that
    // range, whatever its end
    let mut indices_ranges = vec![2..4, 8..10];
    define_index_ranges(&mut indices_ranges, &(8..30));
    assert_eq!(indices_ranges, vec![2..4, 8..10]);
}

#[test]
fn covered_range_leaves_list_unchanged() {
    let mut indices_ranges = vec![2..10, 20..30];
    define_index_ranges(&mut indices_ranges, &(4..6));
    assert_eq!(indices_ranges, vec![2..10, 20..30]);
}

#[test]
fn strictly_less_goes_in_front() {
    let mut indices_ranges = vec![10..12];
    define_index_ranges(&mut indices_ranges, &(2..5));
    assert_eq!(indices_ranges, vec![2..5, 10..12]);
}

#[test]
fn merged_list_covers_old_and_new_indices() {
    let old = vec![2..4, 10..18, 22..25];
    let new_range = 6..20;
    let mut indices_ranges = old.clone();
    define_index_ranges(&mut indices_ranges, &new_range);
    let covered = |rs: &Vec<Range<usize>>, x: usize| rs.iter().any(|r| r.start <= x && x < r.end);
    for x in 0..30 {
        if covered(&old, x) || new_range.contains(&x) {
            assert!(covered(&indices_ranges, x));
        }
    }
}

#[test]
fn index_result_cases() {
    assert!(matches!(get_index_result(&(5..8), &(5..20)), IndexResult::ExactlyEqual));
    assert!(matches!(get_index_result(&(5..8), &(10..12)), IndexResult::StrictlyGreater));
    assert!(matches!(get_index_result(&(10..12), &(2..5)), IndexResult::StrictlyLess));
    assert!(matches!(get_index_result(&(5..8), &(9..12)), IndexResult::RightOverlap));
    assert!(matches!(get_index_result(&(5..8), &(6..12)), IndexResult::RightOverlap));
    assert!(matches!(get_index_result(&(5..8), &(1..4)), IndexResult::LeftOverlap));
    assert!(matches!(get_index_result(&(5..8), &(3..6)), IndexResult::LeftOverlap));
    assert!(matches!(get_index_result(&(5..20), &(6..12)), IndexResult::FullyContained));
    assert!(matches!(get_index_result(&(5..8), &(2..12)), IndexResult::FullyCover));
}

#[test]
fn splice_replaces_a_run_of_ranges() {
    let mut indices_ranges = vec![0..2, 4..6, 8..10, 12..14];
    splice_range(&mut indices_ranges, &(5..9), 1, 3);
    assert_eq!(indices_ranges, vec![0..2, 4..10, 12..14]);
    splice_range(&mut indices_ranges, &(1..3), 0, 1);
    assert_eq!(indices_ranges, vec![0..3, 4..10, 12..14]);
}

#[test]
fn overlapping_primitive_extends_range() {
    // primitive data at 100..136, then a primitive at 118..154: the range only
    // grows by the new bytes
    let mut indices_ranges = Vec::<Range<usize>>::new();
    define_index_ranges(&mut indices_ranges, &(100..136));
    define_index_ranges(&mut indices_ranges, &(118..154));
    assert_eq!(indices_ranges, vec![100..154]);
}

#[test]
fn merged_list_stays_well_formed() {
    let mut indices_ranges = vec![2..4, 10..18, 22..25];
    for p in [6..20, 30..31, 0..1, 23..24, 26..29] {
        let before = indices_ranges.clone();
        define_index_ranges(&mut indices_ranges, &p);
        for pair in indices_ranges.windows(2) {
            assert!(pair[0].end + 1 < pair[1].start);
        }
        assert!(indices_ranges.iter().all(|r| r.start < r.end));
        assert!(indices_ranges.len() <= before.len() + 1);
        for r in before.iter().chain(std::iter::once(&p)) {
            assert!(indices_ranges.iter().any(|q| q.start <= r.start && r.end <= q.end));
        }
    }
}

#[test]
fn each_primitive_stays_within_one_range() {
    let primitives = [100..136, 118..154, 10..20, 30..40, 15..35, 200..210];
    let mut indices_ranges = Vec::<Range<usize>>::new();
    for p in primitives.iter() {
        define_index_ranges(&mut indices_ranges, p);
    }
    for p in primitives.iter() {
        assert!(indices_ranges.iter().any(|r| r.start <= p.start && p.end <= r.end));
    }
}
