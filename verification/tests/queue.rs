use serval_core::jobs::{JobQueue, JobStatus, QueueError};

#[test]
fn enqueue_claim_complete_round_trip() {
    let mut q = JobQueue::new();
    let id = q.enqueue(String::from("echo"), vec![0x68, 0x69], 1).unwrap();
    let (cid, name, input) = q.claim(Some(7), 2).unwrap();
    assert_eq!(cid, id);
    assert_eq!(name, "echo");
    assert_eq!(input, vec![0x68, 0x69]);
    assert!(q.complete(id, JobStatus::Completed, vec![0x48, 0x49], 3).is_ok());
    let (status, output) = q.get(id).unwrap();
    assert_eq!(status, JobStatus::Completed);
    assert_eq!(output, vec![0x48, 0x49]);
}

#[test]
fn double_complete_is_invalid_transition() {
    let mut q = JobQueue::new();
    let id = q.enqueue(String::from("echo"), vec![0x68, 0x69], 1).unwrap();
    let _ = q.claim(Some(7), 2).unwrap();
    assert!(q.complete(id, JobStatus::Completed, vec![0x48, 0x49], 3).is_ok());
    assert_eq!(
        q.complete(id, JobStatus::Completed, Vec::new(), 4),
        Err(QueueError::InvalidTransition)
    );
}

#[test]
fn claim_on_empty_queue_returns_none() {
    let mut q = JobQueue::new();
    assert!(q.claim(None, 1).is_none());
}

#[test]
fn claims_come_in_enqueue_order() {
    let mut q = JobQueue::new();
    let mut ids = Vec::new();
    for k in 0..5u8 {
        ids.push(q.enqueue(format!("job{k}"), vec![k], 1).unwrap());
    }
    for k in 0..5usize {
        let (cid, name, input) = q.claim(Some(1), 2).unwrap();
        assert_eq!(cid, ids[k]);
        assert_eq!(name, format!("job{k}"));
        assert_eq!(input, vec![k as u8]);
    }
    assert!(q.claim(Some(1), 3).is_none());
}

#[test]
fn excess_claims_return_none_and_ids_are_distinct() {
    let mut q = JobQueue::new();
    for k in 0..3u8 {
        q.enqueue(String::from("t"), vec![k], 1).unwrap();
    }
    let mut got = Vec::new();
    for _ in 0..6 {
        if let Some((id, _, _)) = q.claim(None, 2) {
            got.push(id);
        }
    }
    assert_eq!(got.len(), 3);
    assert!(got[0] != got[1] && got[1] != got[2] && got[0] != got[2]);
}

#[test]
fn complete_unknown_job_is_not_found() {
    let mut q = JobQueue::new();
    assert_eq!(
        q.complete(42, JobStatus::Failed, vec![1], 1),
        Err(QueueError::NotFound)
    );
}

#[test]
fn complete_pending_job_is_invalid_transition() {
    let mut q = JobQueue::new();
    let id = q.enqueue(String::from("t"), vec![], 1).unwrap();
    assert_eq!(
        q.complete(id, JobStatus::Completed, vec![1], 2),
        Err(QueueError::InvalidTransition)
    );
}

#[test]
fn complete_can_mark_failure() {
    let mut q = JobQueue::new();
    let id = q.enqueue(String::from("t"), vec![], 1).unwrap();
    let _ = q.claim(Some(9), 2).unwrap();
    assert!(q.complete(id, JobStatus::Failed, vec![0xde, 0xad], 3).is_ok());
    let (status, output) = q.get(id).unwrap();
    assert_eq!(status, JobStatus::Failed);
    assert_eq!(output, vec![0xde, 0xad]);
}

#[test]
fn tickle_advances_claimed_to_running() {
    let mut q = JobQueue::new();
    let id = q.enqueue(String::from("t"), vec![], 1).unwrap();
    let _ = q.claim(Some(9), 2).unwrap();
    let (status, _) = q.get(id).unwrap();
    assert_eq!(status, JobStatus::Claimed);
    assert!(q.tickle(id, 3).is_ok());
    let (status, _) = q.get(id).unwrap();
    assert_eq!(status, JobStatus::Running);
    assert!(q.tickle(id, 4).is_ok());
    let (status, _) = q.get(id).unwrap();
    assert_eq!(status, JobStatus::Running);
}

#[test]
fn tickle_unknown_job_is_not_found() {
    let mut q = JobQueue::new();
    assert_eq!(q.tickle(5, 1), Err(QueueError::NotFound));
}

#[test]
fn tickle_is_a_noop_on_terminal_jobs() {
    let mut q = JobQueue::new();
    let id = q.enqueue(String::from("t"), vec![], 1).unwrap();
    let _ = q.claim(None, 2).unwrap();
    q.complete(id, JobStatus::Completed, vec![1], 3).unwrap();
    assert!(q.tickle(id, 4).is_ok());
    let (status, output) = q.get(id).unwrap();
    assert_eq!(status, JobStatus::Completed);
    assert_eq!(output, vec![1]);
}

#[test]
fn get_unknown_job_is_none() {
    let q = JobQueue::new();
    assert!(q.get(1).is_none());
}

#[test]
fn enqueue_with_id_rejects_a_live_id() {
    let mut q = JobQueue::new();
    assert!(q.enqueue_with_id(11, String::from("a"), vec![], 1).is_ok());
    assert_eq!(
        q.enqueue_with_id(11, String::from("b"), vec![], 2),
        Err(QueueError::Internal)
    );
    assert_eq!(q.len(), 1);
    assert_eq!(q.pending_len(), 1);
}

#[test]
fn claimed_job_keeps_its_input_until_completion() {
    let mut q = JobQueue::new();
    let id = q.enqueue(String::from("t"), vec![9, 8, 7], 1).unwrap();
    let (_, _, input) = q.claim(Some(1), 2).unwrap();
    assert_eq!(input, vec![9, 8, 7]);
    let (status, output) = q.get(id).unwrap();
    assert_eq!(status, JobStatus::Claimed);
    assert!(output.is_empty());
}

#[test]
fn claimant_is_recorded_while_held_and_cleared_on_completion() {
    let mut q = JobQueue::new();
    let id = q.enqueue(String::from("t"), vec![], 1).unwrap();
    assert_eq!(q.claimant(id), Some(None));
    let _ = q.claim(Some(7), 2).unwrap();
    assert_eq!(q.claimant(id), Some(Some(7)));
    q.tickle(id, 3).unwrap();
    assert_eq!(q.claimant(id), Some(Some(7)));
    q.complete(id, JobStatus::Completed, vec![1], 4).unwrap();
    assert_eq!(q.claimant(id), Some(None));
    assert_eq!(q.claimant(999), None);
}

#[test]
fn enqueue_on_an_empty_queue_always_succeeds() {
    for _ in 0..100 {
        let mut q = JobQueue::new();
        assert!(q.enqueue(String::from("t"), vec![1], 1).is_ok());
    }
}
