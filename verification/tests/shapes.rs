use adbench::shapes::{
    gmm_buffer_lens, gmm_shapes_ok, icf_len, lstm_buffer_lens, lstm_loss_count, lstm_shapes_ok,
    wishart_dof,
};

#[test]
fn lstm_loss_count_transitions() {
    assert_eq!(lstm_loss_count(3, 4), 8);
    assert_eq!(lstm_loss_count(2, 1), 1);
    assert_eq!(lstm_loss_count(1, 4), 0);
    assert_eq!(lstm_loss_count(5, 0), 0);
}

#[test]
fn icf_len_triangular_numbers() {
    assert_eq!(icf_len(0), Some(0));
    assert_eq!(icf_len(1), Some(1));
    assert_eq!(icf_len(2), Some(3));
    assert_eq!(icf_len(3), Some(6));
    assert_eq!(icf_len(10), Some(55));
    assert_eq!(icf_len(64), Some(2080));
}

#[test]
fn icf_len_overflow() {
    assert_eq!(icf_len(usize::MAX), None);
    assert_eq!(icf_len(1 << 33), None);
}

#[test]
fn gmm_buffer_lens_formulas() {
    // d = 2, k = 3, n = 5: 3 log-weights, 6 mean coordinates, 3 factors of
    // length 3, and 10 data coordinates.
    assert_eq!(gmm_buffer_lens(2, 3, 5), Some((3, 6, 9, 10)));
    assert_eq!(gmm_buffer_lens(1, 1, 1), Some((1, 1, 1, 1)));
    assert_eq!(gmm_buffer_lens(3, 4, 2), Some((4, 12, 24, 6)));
}

#[test]
fn gmm_buffer_lens_overflow() {
    assert_eq!(gmm_buffer_lens(usize::MAX, 1, 1), None);
    assert_eq!(gmm_buffer_lens(2, usize::MAX, 1), None);
    assert_eq!(gmm_buffer_lens(2, 1, usize::MAX), None);
}

#[test]
fn gmm_shapes_ok_accepts_exact_lengths() {
    assert!(gmm_shapes_ok(2, 3, 5, 3, 6, 9, 10));
}

#[test]
fn gmm_shapes_ok_rejects_any_mismatch() {
    assert!(!gmm_shapes_ok(2, 3, 5, 4, 6, 9, 10));
    assert!(!gmm_shapes_ok(2, 3, 5, 3, 7, 9, 10));
    assert!(!gmm_shapes_ok(2, 3, 5, 3, 6, 8, 10));
    assert!(!gmm_shapes_ok(2, 3, 5, 3, 6, 9, 11));
}

#[test]
fn lstm_buffer_lens_formulas() {
    // l = 2, c = 3, b = 4: 64 main parameters, 12 extra parameters, a state
    // of 16 and a sequence of 12.
    assert_eq!(lstm_buffer_lens(2, 3, 4), Some((64, 12, 16, 12)));
    assert_eq!(lstm_buffer_lens(1, 2, 1), Some((8, 3, 2, 2)));
}

#[test]
fn lstm_buffer_lens_overflow() {
    assert_eq!(lstm_buffer_lens(usize::MAX, 1, 2), None);
    assert_eq!(lstm_buffer_lens(1, usize::MAX, 2), None);
}

#[test]
fn lstm_shapes_ok_accepts_exact_lengths() {
    assert!(lstm_shapes_ok(2, 3, 4, 64, 12, 16, 12));
}

#[test]
fn lstm_shapes_ok_rejects_any_mismatch() {
    assert!(!lstm_shapes_ok(2, 3, 4, 63, 12, 16, 12));
    assert!(!lstm_shapes_ok(2, 3, 4, 64, 13, 16, 12));
    assert!(!lstm_shapes_ok(2, 3, 4, 64, 12, 17, 12));
    assert!(!lstm_shapes_ok(2, 3, 4, 64, 12, 16, 13));
}

#[test]
fn wishart_dof_counts() {
    assert_eq!(wishart_dof(3, 2), Some(6));
    assert_eq!(wishart_dof(1, 0), Some(2));
}

#[test]
fn wishart_dof_rejects_negative_offset() {
    assert_eq!(wishart_dof(3, -1), None);
    assert_eq!(wishart_dof(0, i32::MIN), None);
}

#[test]
fn wishart_dof_overflow() {
    assert_eq!(wishart_dof(usize::MAX, 0), None);
}
