use rogue_core::utils::{make_weighted_vec, ss_idx};

#[test]
fn test_ss_idx() {
    assert_eq!(ss_idx(0, 0), 0);
    assert_eq!(ss_idx(8, 0), 1);
    assert_eq!(ss_idx(0, 8), 16);
    assert_eq!(ss_idx(8, 8), 17);
    assert_eq!(ss_idx(120, 8), 31);
}

#[test]
fn test_make_weighted_vec() {
    assert_eq!(
        make_weighted_vec(&[('a', 3), ('b', 4), ('c', 3)]),
        ['a', 'a', 'a', 'b', 'b', 'b', 'b', 'c', 'c', 'c']
    );
}

#[test]
fn weighted_vec_skips_zero_weights() {
    assert_eq!(make_weighted_vec(&[(1u16, 0), (2u16, 2), (3u16, 0)]), vec![2u16, 2]);
}

#[test]
fn ss_idx_rounds_down_within_a_cell() {
    assert_eq!(ss_idx(7, 7), 0);
    assert_eq!(ss_idx(72, 216), 441);
}
