use mnist_mlp::eval::{count_correct, predicted_class, prediction_matches};

#[test]
fn picks_highest_score() {
    assert_eq!(predicted_class(&[5, 9, 2, 9, 1], 0), 1);
    assert_eq!(predicted_class(&[5, 3, 2, 4, 8], 0), 4);
}

#[test]
fn nothing_above_floor_gives_zero() {
    assert_eq!(predicted_class(&[1, 2, 3], 3), 0);
    assert_eq!(predicted_class(&[], 0), 0);
    assert_eq!(predicted_class(&[1, 4, 3], 3), 1);
}

#[test]
fn prediction_compared_with_label() {
    assert!(prediction_matches(&[0, 0, 7, 1], 0, 2));
    assert!(!prediction_matches(&[0, 0, 7, 1], 0, 3));
    assert!(prediction_matches(&[0, 0, 0], 0, 0));
    assert!(!prediction_matches(&[0, 0, 7, 1], 0, 40));
}

#[test]
fn counts_rows_with_all_flags() {
    let flags = vec![true, true, false, true, true, true, false, false];
    assert_eq!(count_correct(&flags, 2, 4), 2);
    assert_eq!(count_correct(&flags, 2, 2), 1);
    assert_eq!(count_correct(&flags, 4, 2), 0);
    assert_eq!(count_correct(&flags, 0, 3), 3);
}
