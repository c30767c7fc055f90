use dock_layout::ratio::{
    normalized_delta, ratio_sum, resize_pair, validate_ratios, DockError, MIN_RATIO, RATIO_ONE,
};

#[test]
fn scale_is_millionths_with_a_tenth_as_floor() {
    assert_eq!(RATIO_ONE, 1_000_000);
    assert_eq!(MIN_RATIO, 100_000);
}

#[test]
fn validate_accepts_ordinary_lists() {
    assert_eq!(validate_ratios(&vec![200_000, 500_000, 300_000]), Ok(()));
    assert_eq!(validate_ratios(&vec![1_000_000]), Ok(()));
    assert_eq!(validate_ratios(&vec![MIN_RATIO, MIN_RATIO]), Ok(()));
}

#[test]
fn validate_rejects_empty_list() {
    assert_eq!(validate_ratios(&vec![]), Err(DockError::EmptyRatios));
}

#[test]
fn validate_rejects_zero_and_values_below_floor() {
    assert_eq!(validate_ratios(&vec![500_000, 0]), Err(DockError::RatioBelowFloor));
    assert_eq!(validate_ratios(&vec![99_999, 500_000]), Err(DockError::RatioBelowFloor));
}

#[test]
fn validate_rejects_total_above_bound() {
    assert_eq!(
        validate_ratios(&vec![u32::MAX - 50_000, MIN_RATIO]),
        Err(DockError::RatiosTooLarge)
    );
    assert_eq!(validate_ratios(&vec![u32::MAX - MIN_RATIO, MIN_RATIO]), Ok(()));
}

#[test]
fn floor_error_comes_before_size_error() {
    assert_eq!(
        validate_ratios(&vec![u32::MAX, 5]),
        Err(DockError::RatioBelowFloor)
    );
}

#[test]
fn sum_of_ratios() {
    assert_eq!(ratio_sum(&vec![200_000, 500_000, 300_000]), 1_000_000);
    assert_eq!(ratio_sum(&vec![150_000]), 150_000);
}

#[test]
fn delta_is_scaled_by_extent_and_sum() {
    assert_eq!(normalized_delta(100, 1000, 1_000_000), 100_000);
    assert_eq!(normalized_delta(50, 200, 1_000_000), 250_000);
    assert_eq!(normalized_delta(-100, 1000, 1_000_000), -100_000);
    assert_eq!(normalized_delta(0, 1000, 1_000_000), 0);
}

#[test]
fn delta_rounds_toward_zero() {
    assert_eq!(normalized_delta(1, 3, 1000), 333);
    assert_eq!(normalized_delta(-1, 3, 1000), -333);
}

#[test]
fn one_unit_move_over_wide_container_still_moves() {
    assert_eq!(normalized_delta(1, 1920, 1_000_000), 520);
    assert_eq!(normalized_delta(-1, 3840, 1_000_000), -260);
}

#[test]
fn drag_right_moves_mass_between_neighbours() {
    let mut r = vec![200_000, 500_000, 300_000];
    resize_pair(&mut r, 0, 100_000);
    assert_eq!(r, vec![300_000, 400_000, 300_000]);
    assert_eq!(r[0] + r[1], 700_000);
}

#[test]
fn drag_left_moves_mass_the_other_way() {
    let mut r = vec![200_000, 500_000, 300_000];
    resize_pair(&mut r, 1, -200_000);
    assert_eq!(r, vec![200_000, 300_000, 500_000]);
}

#[test]
fn drag_taking_mass_from_second_side_stops_at_floor() {
    let mut r = vec![150_000, 150_000];
    resize_pair(&mut r, 0, 200_000);
    assert_eq!(r, vec![200_000, 100_000]);
    assert_eq!(r[0] + r[1], 300_000);
}

#[test]
fn drag_taking_mass_from_first_side_stops_at_floor() {
    let mut r = vec![150_000, 150_000];
    resize_pair(&mut r, 0, -200_000);
    assert_eq!(r, vec![100_000, 200_000]);
    assert_eq!(r[0] + r[1], 300_000);
}

#[test]
fn drag_conserves_pair_and_keeps_floor_for_many_deltas() {
    let start = vec![120_000, 700_000, 180_000, 400_000];
    let mut delta: i128 = -1_500_000;
    while delta <= 1_500_000 {
        for i in 0..3 {
            let mut r = start.clone();
            resize_pair(&mut r, i, delta);
            assert_eq!(r[i] + r[i + 1], start[i] + start[i + 1]);
            assert!(r[i] >= MIN_RATIO && r[i + 1] >= MIN_RATIO);
            for k in 0..4 {
                if k != i && k != i + 1 {
                    assert_eq!(r[k], start[k]);
                }
            }
        }
        delta += 37_001;
    }
}

#[test]
fn drag_with_huge_delta_clamps() {
    let mut r = vec![400_000, 600_000];
    resize_pair(&mut r, 0, 1i128 << 90);
    assert_eq!(r, vec![900_000, 100_000]);
    let mut q = vec![400_000, 600_000];
    resize_pair(&mut q, 0, -(1i128 << 90));
    assert_eq!(q, vec![100_000, 900_000]);
}
