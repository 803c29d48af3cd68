use odometries::cov::{sub_vector, Covariance};
use odometries::layout::SubState;

#[test]
fn block_write_then_read_round_trips() {
    let mut m: Covariance<i64> = Covariance::new_filled(0);
    // a cross-covariance block keyed by (destination, source) has shape
    // (dst.dim, src.dim) and sits at (dst.offset, src.offset)
    let vals: Vec<i64> = (0..9).collect();
    m.write_block(SubState::Position, SubState::Velocity, &vals);
    let b = m.read_block(SubState::Position, SubState::Velocity);
    assert_eq!(b, vals);
    // anchored at row 3 (Position offset), column 6 (Velocity offset)
    assert_eq!(m.get(3, 6), 0);
    assert_eq!(m.get(3, 7), 1);
    assert_eq!(m.get(5, 8), 8);
    // everything outside the block is untouched
    assert_eq!(m.get(0, 0), 0);
    assert_eq!(m.get(6, 3), 0);
}

#[test]
fn sub_covariance_block_is_diagonal_block() {
    let mut m: Covariance<i64> = Covariance::new_filled(7);
    let vals: Vec<i64> = vec![1, 2, 3, 4, 5, 6, 7, 8, 9];
    m.write_block(SubState::Gravity, SubState::Gravity, &vals);
    assert_eq!(m.get(9, 9), 1);
    assert_eq!(m.get(11, 11), 9);
    assert_eq!(m.get(8, 9), 7);
}

#[test]
fn fill_block_diagonal_touches_only_the_diagonal() {
    let mut m: Covariance<i64> = Covariance::new_filled(0);
    m.fill_block_diagonal(SubState::AngularAcc, 5);
    assert_eq!(m.get(15, 15), 5);
    assert_eq!(m.get(16, 16), 5);
    assert_eq!(m.get(17, 17), 5);
    assert_eq!(m.get(15, 16), 0);
    assert_eq!(m.get(14, 14), 0);
    assert_eq!(m.get(18, 18), 0);
}

#[test]
fn whole_state_block() {
    let mut m: Covariance<u32> = Covariance::new_filled(1);
    let b = m.read_block(SubState::AccWithBias, SubState::AccWithBias);
    assert_eq!(b.len(), 144);
    m.set(12, 12, 9);
    let b2 = m.read_block(SubState::AccWithBias, SubState::AccWithBias);
    assert_eq!(b2[0], 9);
}

#[test]
fn sub_vector_slices_by_layout() {
    let delta: Vec<i64> = (0..24).collect();
    assert_eq!(sub_vector(&delta, SubState::Rotation), vec![0, 1, 2]);
    assert_eq!(sub_vector(&delta, SubState::Position), vec![3, 4, 5]);
    assert_eq!(sub_vector(&delta, SubState::Gravity), vec![9, 10, 11]);
    assert_eq!(sub_vector(&delta, SubState::AngularAccBias), vec![21, 22, 23]);
    assert_eq!(sub_vector(&delta, SubState::Pose), vec![0, 1, 2, 3, 4, 5]);
}
