use funzzy::executor::{
    deny_decision, ApprovalDecision, CancellationToken, DenyRecoveryApproval, RecoveryApproval,
    RecoveryRequest,
};

#[test]
fn cancellation_is_shared_by_clones() {
    let token = CancellationToken::new();
    let other = token.clone();
    assert!(!token.is_cancelled());
    other.cancel();
    assert!(token.is_cancelled());
    assert!(!CancellationToken::default().is_cancelled());
}

#[test]
fn default_approver_declines_or_reports_cancellation() {
    assert_eq!(deny_decision(false), ApprovalDecision::Declined);
    assert_eq!(deny_decision(true), ApprovalDecision::Cancelled);
    let token = CancellationToken::new();
    let request = RecoveryRequest {
        generation: 1,
        revision: None,
        job_position: 0,
        job: "fix".to_owned(),
        commands: vec!["make fix".to_owned()],
    };
    let approver = DenyRecoveryApproval;
    assert_eq!(
        approver.approve(&[request.clone()], &token, 1000),
        ApprovalDecision::Declined
    );
    token.cancel();
    assert_eq!(
        approver.approve(&[request], &token, 1000),
        ApprovalDecision::Cancelled
    );
}
