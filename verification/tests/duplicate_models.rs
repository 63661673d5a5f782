//! Duplicate policies, reasons, results and actions on concrete values.

use burncloud_download::{
    DuplicateAction, DuplicatePolicy, DuplicateReason, DuplicateResult, TaskId, TaskStatus,
};

#[test]
fn duplicate_policy_test_duplicate_policy_default() {
    let policy: DuplicatePolicy = Default::default();
    assert_eq!(policy, DuplicatePolicy::ReuseExisting);
}

#[test]
fn duplicate_policy_test_duplicate_policy_variants() {
    let policies = vec![
        DuplicatePolicy::ReuseExisting,
        DuplicatePolicy::AllowDuplicate,
        DuplicatePolicy::PromptUser,
        DuplicatePolicy::ReuseIfComplete,
        DuplicatePolicy::ReuseIfIncomplete,
        DuplicatePolicy::FailIfDuplicate,
    ];

    assert_eq!(policies.len(), 6);

    for (i, policy1) in policies.iter().enumerate() {
        for (j, policy2) in policies.iter().enumerate() {
            if i != j {
                assert_ne!(policy1, policy2);
            }
        }
    }
}

#[test]
fn duplicate_policy_test_duplicate_policy_clone() {
    let policy = DuplicatePolicy::AllowDuplicate;
    let cloned = policy.clone();

    assert_eq!(policy, cloned);
}

#[test]
fn duplicate_policy_test_duplicate_policy_debug() {
    let policy = DuplicatePolicy::PromptUser;
    let debug_str = format!("{:?}", policy);

    assert!(debug_str.contains("PromptUser"));
}

#[test]
fn duplicate_policy_tests_test_duplicate_policy_default() {
    let policy: DuplicatePolicy = Default::default();
    assert_eq!(policy, DuplicatePolicy::ReuseExisting);
}

#[test]
fn duplicate_policy_tests_test_duplicate_policy_variants() {
    let policies = vec![
        DuplicatePolicy::ReuseExisting,
        DuplicatePolicy::AllowDuplicate,
        DuplicatePolicy::PromptUser,
        DuplicatePolicy::ReuseIfComplete,
        DuplicatePolicy::ReuseIfIncomplete,
        DuplicatePolicy::FailIfDuplicate,
    ];

    assert_eq!(policies.len(), 6);

    for (i, policy1) in policies.iter().enumerate() {
        for (j, policy2) in policies.iter().enumerate() {
            if i != j {
                assert_ne!(policy1, policy2);
            }
        }
    }
}

#[test]
fn duplicate_policy_tests_test_duplicate_policy_clone() {
    let policy = DuplicatePolicy::AllowDuplicate;
    let cloned = policy.clone();

    assert_eq!(policy, cloned);
}

#[test]
fn duplicate_policy_tests_test_duplicate_policy_debug() {
    let policy = DuplicatePolicy::PromptUser;
    let debug_str = format!("{:?}", policy);

    assert!(debug_str.contains("PromptUser"));
}

#[test]
fn test_allows_reuse_logic() {
    let completed_status = TaskStatus::Completed;
    let waiting_status = TaskStatus::Waiting;
    let failed_status = TaskStatus::Failed("error".to_string());

    assert!(DuplicatePolicy::ReuseExisting.allows_reuse(&completed_status));
    assert!(DuplicatePolicy::ReuseExisting.allows_reuse(&waiting_status));

    assert!(DuplicatePolicy::ReuseIfComplete.allows_reuse(&completed_status));
    assert!(!DuplicatePolicy::ReuseIfComplete.allows_reuse(&waiting_status));

    assert!(!DuplicatePolicy::ReuseIfIncomplete.allows_reuse(&completed_status));
    assert!(DuplicatePolicy::ReuseIfIncomplete.allows_reuse(&waiting_status));
    assert!(DuplicatePolicy::ReuseIfIncomplete.allows_reuse(&failed_status));

    assert!(!DuplicatePolicy::AllowDuplicate.allows_reuse(&completed_status));
    assert!(!DuplicatePolicy::AllowDuplicate.allows_reuse(&waiting_status));
}

#[test]
fn test_duplicate_reason_variants() {
    let reasons = vec![
        DuplicateReason::UrlAndPath,
        DuplicateReason::FileContent,
        DuplicateReason::SimilarUrl,
        DuplicateReason::Filename,
    ];

    assert_eq!(reasons.len(), 4);

    for (i, reason1) in reasons.iter().enumerate() {
        for (j, reason2) in reasons.iter().enumerate() {
            if i != j {
                assert_ne!(reason1, reason2);
            }
        }
    }
}

#[test]
fn test_duplicate_reason_descriptions() {
    assert_eq!(DuplicateReason::UrlAndPath.description(), "Same URL and target path");
    assert_eq!(DuplicateReason::FileContent.description(), "Same file content (hash match)");
    assert_eq!(DuplicateReason::SimilarUrl.description(), "Similar URL after normalization");
    assert_eq!(DuplicateReason::Filename.description(), "Same filename in target directory");
}

#[test]
fn test_duplicate_reason_priority() {
    assert_eq!(DuplicateReason::UrlAndPath.priority(), 1);
    assert_eq!(DuplicateReason::FileContent.priority(), 2);
    assert_eq!(DuplicateReason::SimilarUrl.priority(), 3);
    assert_eq!(DuplicateReason::Filename.priority(), 4);

    assert!(DuplicateReason::UrlAndPath.priority() < DuplicateReason::FileContent.priority());
    assert!(DuplicateReason::FileContent.priority() < DuplicateReason::SimilarUrl.priority());
    assert!(DuplicateReason::SimilarUrl.priority() < DuplicateReason::Filename.priority());
}

#[test]
fn test_is_strong_match() {
    assert!(DuplicateReason::UrlAndPath.is_strong_match());
    assert!(DuplicateReason::FileContent.is_strong_match());
    assert!(!DuplicateReason::SimilarUrl.is_strong_match());
    assert!(!DuplicateReason::Filename.is_strong_match());
}

#[test]
fn test_display_format() {
    let reason = DuplicateReason::UrlAndPath;
    let formatted = reason.description();
    assert_eq!(formatted, "Same URL and target path");
}

#[test]
fn test_clone_and_debug() {
    let reason = DuplicateReason::SimilarUrl;
    let cloned = reason.clone();

    assert_eq!(reason, cloned);

    let debug_str = format!("{:?}", reason);
    assert!(debug_str.contains("SimilarUrl"));
}

#[test]
fn test_duplicate_result_new_task() {
    let task_id = TaskId::new();
    let result = DuplicateResult::NewTask(task_id);

    assert_eq!(result.task_id(), Some(task_id));
    assert!(result.is_new_task());
    assert!(!result.is_existing_task());
    assert!(!result.requires_decision());
}

#[test]
fn test_duplicate_result_existing_task() {
    let task_id = TaskId::new();
    let result = DuplicateResult::ExistingTask {
        task_id,
        status: TaskStatus::Completed,
        reason: DuplicateReason::UrlAndPath,
    };

    assert_eq!(result.task_id(), Some(task_id));
    assert!(!result.is_new_task());
    assert!(result.is_existing_task());
    assert!(!result.requires_decision());
}

#[test]
fn test_duplicate_result_requires_decision() {
    let task_id1 = TaskId::new();
    let task_id2 = TaskId::new();
    let result = DuplicateResult::RequiresDecision {
        candidates: vec![task_id1, task_id2],
        suggested_action: DuplicateAction::Resume(task_id1),
    };

    assert_eq!(result.task_id(), None);
    assert!(!result.is_new_task());
    assert!(!result.is_existing_task());
    assert!(result.requires_decision());
}

#[test]
fn test_duplicate_action_task_ids() {
    let task_id = TaskId::new();

    assert_eq!(DuplicateAction::Resume(task_id).task_id(), Some(task_id));
    assert_eq!(DuplicateAction::Reuse(task_id).task_id(), Some(task_id));
    assert_eq!(DuplicateAction::Retry(task_id).task_id(), Some(task_id));
    assert_eq!(DuplicateAction::CreateNew.task_id(), None);
}

#[test]
fn test_duplicate_status_creation() {
    let original_task_id = TaskId::new();
    let status = TaskStatus::Duplicate(original_task_id);

    match status {
        TaskStatus::Duplicate(id) => {
            assert_eq!(id, original_task_id);
        }
        _ => panic!("Expected Duplicate variant"),
    }
}

#[test]
fn test_task_status_transitions() {
    let original_task_id = TaskId::new();

    assert!(TaskStatus::Waiting.can_transition_to_duplicate());
    assert!(TaskStatus::Paused.can_transition_to_duplicate());
    assert!(TaskStatus::Failed("error".to_string()).can_transition_to_duplicate());

    assert!(!TaskStatus::Downloading.can_transition_to_duplicate());
    assert!(!TaskStatus::Completed.can_transition_to_duplicate());
    assert!(!TaskStatus::Duplicate(original_task_id).can_transition_to_duplicate());
}
