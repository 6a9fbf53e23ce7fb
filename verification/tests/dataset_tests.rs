use mnist_mlp::dataset::{batch_schedule, convert_labels, is_report_step, progress_interval, read_plan, ReadPlan};

#[test]
fn plan_of_first_batch() {
    assert_eq!(read_plan(0, 1024), ReadPlan { image_pos: 16, label_pos: 8, image_len: 784 * 1024, label_len: 1024 });
}

#[test]
fn plan_skips_headers_and_earlier_samples() {
    let p = read_plan(59391, 608);
    assert_eq!(p.image_pos, 16 + 784 * 59391);
    assert_eq!(p.label_pos, 8 + 59391);
    assert_eq!(p.image_len, 784 * 608);
    assert_eq!(p.label_len, 608);
}

#[test]
fn labels_become_one_hot_rows() {
    let r = convert_labels(&vec![3, 0, 9], 1.0f32, 0.0f32);
    assert_eq!(r.len(), 30);
    let mut expected = vec![0.0f32; 30];
    expected[3] = 1.0;
    expected[10] = 1.0;
    expected[29] = 1.0;
    assert_eq!(r, expected);
}

#[test]
fn label_out_of_range_gives_zero_row() {
    let r = convert_labels(&vec![10, 255], 1u8, 0u8);
    assert_eq!(r, vec![0u8; 20]);
}

#[test]
fn schedule_of_training_set() {
    let s = batch_schedule(60000, 1024);
    assert_eq!(s.len(), 59);
    assert_eq!(s[0], (0, 1024));
    assert_eq!(s[57], (1024 * 57, 1024));
    assert_eq!(s[58], (60000 - 608 - 1, 608));
    assert_eq!(s.iter().map(|b| b.1).sum::<usize>(), 60000);
}

#[test]
fn schedule_of_test_set() {
    let s = batch_schedule(10000, 1024);
    assert_eq!(s.len(), 10);
    assert_eq!(s[9], (10000 - 784 - 1, 784));
    assert!(s.iter().all(|b| b.0 + b.1 <= 10000));
}

#[test]
fn schedule_when_batches_divide_evenly() {
    let s = batch_schedule(12, 4);
    assert_eq!(s, vec![(0, 4), (4, 4), (8, 4), (11, 0)]);
}

#[test]
fn schedule_misses_last_sample_with_leftover() {
    // the leftover batch starts one sample early, so sample 9 is never read
    let s = batch_schedule(10, 3);
    assert_eq!(s, vec![(0, 3), (3, 3), (6, 3), (8, 1)]);
}

#[test]
fn progress_intervals() {
    assert_eq!(progress_interval(600, 1024), 1);
    assert_eq!(progress_interval(100, 1024), 1);
    assert_eq!(progress_interval(600, 100), 6);
    assert_eq!(progress_interval(600, 600), 2);
    assert_eq!(progress_interval(1, 7), 1);
}

#[test]
fn report_steps() {
    assert!(is_report_step(0, 6));
    assert!(!is_report_step(5, 6));
    assert!(is_report_step(12, 6));
    assert!(is_report_step(5, 1));
}
