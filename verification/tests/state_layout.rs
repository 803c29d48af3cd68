use odometries::layout::SubState;
use odometries::state_dim;

#[test]
fn test_error_state_impl() {
    assert_eq!(state_dim(), 24);

    assert_eq!(SubState::Pose.offset(), 0);
    assert_eq!(SubState::Pose.end_offset(), 6);

    assert_eq!(SubState::Rotation.offset(), 0);
    assert_eq!(SubState::Rotation.end_offset(), 3);

    assert_eq!(SubState::Position.offset(), 3);
    assert_eq!(SubState::Position.end_offset(), 6);

    assert_eq!(SubState::Velocity.offset(), 6);
    assert_eq!(SubState::Velocity.end_offset(), 9);

    assert_eq!(SubState::Gravity.offset(), 9);
    assert_eq!(SubState::Gravity.end_offset(), 12);

    assert_eq!(SubState::AccWithBias.offset(), 12);

    assert_eq!(SubState::Acc.offset(), 12);

    assert_eq!(SubState::LinearAcc.offset(), 12);
    assert_eq!(SubState::LinearAcc.end_offset(), 15);
    assert_eq!(SubState::AngularAcc.offset(), 15);
    assert_eq!(SubState::AngularAcc.end_offset(), 18);

    assert_eq!(SubState::Acc.end_offset(), 18);

    assert_eq!(SubState::Bias.offset(), 18);

    assert_eq!(SubState::LinearAccBias.offset(), 18);
    assert_eq!(SubState::LinearAccBias.end_offset(), 21);
    assert_eq!(SubState::AngularAccBias.offset(), 21);
    assert_eq!(SubState::AngularAccBias.end_offset(), 24);

    assert_eq!(SubState::Bias.end_offset(), 24);

    assert_eq!(SubState::AccWithBias.end_offset(), 24);
}

#[test]
fn sub_state_dims() {
    assert_eq!(SubState::Pose.dim(), 6);
    assert_eq!(SubState::Rotation.dim(), 3);
    assert_eq!(SubState::Position.dim(), 3);
    assert_eq!(SubState::Velocity.dim(), 3);
    assert_eq!(SubState::Gravity.dim(), 3);
    assert_eq!(SubState::AccWithBias.dim(), 12);
    assert_eq!(SubState::Acc.dim(), 6);
    assert_eq!(SubState::LinearAcc.dim(), 3);
    assert_eq!(SubState::AngularAcc.dim(), 3);
    assert_eq!(SubState::Bias.dim(), 6);
    assert_eq!(SubState::LinearAccBias.dim(), 3);
    assert_eq!(SubState::AngularAccBias.dim(), 3);
}
