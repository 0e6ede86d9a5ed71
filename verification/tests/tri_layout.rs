use adbench::tri::{tri_index, tri_pairs, tri_rowcol};
use adbench::layout::{
    block_range, extra_param_ranges, gate_range, icf_cluster_ranges, lstm_layer_params,
    lstm_layer_state, lstm_step_plan,
};

#[test]
fn tri_index_smallest_factor() {
    assert_eq!(tri_index(2, 0, 1), 0);
}

#[test]
fn tri_index_three_by_three() {
    assert_eq!(tri_index(3, 0, 1), 0);
    assert_eq!(tri_index(3, 0, 2), 1);
    assert_eq!(tri_index(3, 1, 2), 2);
}

#[test]
fn tri_index_four_by_four_row_major() {
    let expected = [((0, 1), 0), ((0, 2), 1), ((0, 3), 2), ((1, 2), 3), ((1, 3), 4), ((2, 3), 5)];
    for ((i, j), t) in expected {
        assert_eq!(tri_index(4, i, j), t);
    }
}

#[test]
fn tri_index_matches_packed_formula() {
    let d = 7;
    for i in 0..d {
        for j in (i + 1)..d {
            assert_eq!(tri_index(d, i, j), i * (2 * d - i - 1) / 2 + (j - i - 1));
        }
    }
}

#[test]
fn tri_pairs_empty_when_no_off_diagonal() {
    assert_eq!(tri_pairs(0), vec![]);
    assert_eq!(tri_pairs(1), vec![]);
}

#[test]
fn tri_pairs_four_by_four() {
    assert_eq!(tri_pairs(4), vec![(0, 1), (0, 2), (0, 3), (1, 2), (1, 3), (2, 3)]);
}

#[test]
fn tri_pairs_inverts_tri_index() {
    let d = 6;
    let pairs = tri_pairs(d);
    assert_eq!(pairs.len(), d * (d - 1) / 2);
    for (t, &(i, j)) in pairs.iter().enumerate() {
        assert!(i < j && j < d);
        assert_eq!(tri_index(d, i, j), t);
    }
}

#[test]
fn tri_rowcol_four_by_four() {
    let expected = [(0, 1), (0, 2), (0, 3), (1, 2), (1, 3), (2, 3)];
    for (t, &pair) in expected.iter().enumerate() {
        assert_eq!(tri_rowcol(4, t), pair);
    }
}

#[test]
fn tri_rowcol_round_trip() {
    let d = 9;
    for t in 0..(d * (d - 1) / 2) {
        let (i, j) = tri_rowcol(d, t);
        assert_eq!(tri_index(d, i, j), t);
    }
    for i in 0..d {
        for j in (i + 1)..d {
            assert_eq!(tri_rowcol(d, tri_index(d, i, j)), (i, j));
        }
    }
}

#[test]
fn block_range_strides() {
    assert_eq!(block_range(3, 5, 0), (0, 3));
    assert_eq!(block_range(3, 5, 2), (6, 9));
    assert_eq!(block_range(3, 5, 4), (12, 15));
}

#[test]
fn icf_cluster_ranges_split_diag_and_ltri() {
    // d = 3: per-cluster factor of length 6, 3 diagonal + 3 triangular.
    let (start, diag_end, end) = icf_cluster_ranges(3, 6, 4, 2);
    assert_eq!((start, diag_end, end), (12, 15, 18));
    assert_eq!(end - diag_end, 3);
}

#[test]
fn lstm_layer_params_blocks() {
    // b = 4: 32 parameters per layer, weights then biases of 16 each.
    assert_eq!(lstm_layer_params(4, 3, 0), (0, 16, 32));
    assert_eq!(lstm_layer_params(4, 3, 1), (32, 48, 64));
    assert_eq!(lstm_layer_params(4, 3, 2), (64, 80, 96));
}

#[test]
fn lstm_layer_state_blocks() {
    // b = 4: hidden block of 4 then cell block of 4 per layer.
    assert_eq!(lstm_layer_state(4, 3, 0), (0, 4, 8));
    assert_eq!(lstm_layer_state(4, 3, 1), (8, 12, 16));
    assert_eq!(lstm_layer_state(4, 3, 2), (16, 20, 24));
}

#[test]
fn gate_range_four_gates() {
    assert_eq!(gate_range(5, 0), (0, 5));
    assert_eq!(gate_range(5, 1), (5, 10));
    assert_eq!(gate_range(5, 2), (10, 15));
    assert_eq!(gate_range(5, 3), (15, 20));
}

#[test]
fn extra_param_ranges_three_parts() {
    assert_eq!(extra_param_ranges(4), (4, 8, 12));
}

#[test]
fn lstm_step_plan_input_and_gold_blocks() {
    // c = 4 steps of width 3: three transitions, gold one block ahead.
    assert_eq!(lstm_step_plan(4, 3), vec![(0, 3), (3, 6), (6, 9)]);
}

#[test]
fn lstm_step_plan_single_step_has_no_transition() {
    assert_eq!(lstm_step_plan(1, 5), vec![]);
}
