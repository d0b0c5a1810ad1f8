use frame_contrib::dispatch::DispatchError;
use frame_contrib::listings::{DisputeState, TerminationDispute};

#[test]
fn a_dispute_goes_from_submitted_to_a_decision() {
    let mut d = TerminationDispute::<u64, u32>::new(1);
    assert!(matches!(d.state, DisputeState::Submitted));
    assert_eq!(d.start_review(), Err(DispatchError::Other("Invalid state")));
    assert_eq!(d.assign(7), Ok(()));
    assert!(matches!(d.state, DisputeState::Assigned(7)));
    assert_eq!(d.assign(8), Err(DispatchError::Other("Invalid state")));
    assert_eq!(d.start_review(), Ok(()));
    assert!(matches!(d.state, DisputeState::InReview(7)));
    assert_eq!(d.approve(2), Ok(()));
    assert!(matches!(d.state, DisputeState::Accepted(7, 2)));
    assert_eq!(d.reject(3), Err(DispatchError::Other("Invalid state")));
    assert_eq!(d.reason, 1);
}

#[test]
fn an_assigned_dispute_can_be_rejected_directly() {
    let mut d = TerminationDispute::<u64, u32>::new(1);
    d.assign(7).unwrap();
    assert_eq!(d.reject(4), Ok(()));
    assert!(matches!(d.state, DisputeState::Rejected(7, 4)));
    let mut fresh = TerminationDispute::<u64, u32>::new(1);
    assert_eq!(fresh.approve(2), Err(DispatchError::Other("Invalid state")));
}
