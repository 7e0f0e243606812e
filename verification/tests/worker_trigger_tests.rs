use bullmq_rust::plan_after_processing;
use bullmq_rust::retry_method_for;
use bullmq_rust::JobData;
use bullmq_rust::JobPlan;
use bullmq_rust::QueueError;
use bullmq_rust::QueueService;
use bullmq_rust::QueueTriggerService;
use bullmq_rust::RetryMethod;
use bullmq_rust::WorkerService;
use chrono::Utc;

fn job_with(id: &str, retries: Option<u32>, expires_in: Option<i64>) -> JobData {
    JobData {
        id: id.to_string(),
        message: "Hello".to_string(),
        timestamp: Utc::now().to_rfc3339(),
        priority: Some(1),
        delay: Some(0),
        retries,
        expires_in,
        progress: Some(0),
    }
}

#[test]
fn test_scenario_enqueue_count_dequeue() {
    let mut qs = QueueService::new();
    let now = Utc::now().timestamp();
    let job = JobData {
        id: "job_1".to_string(),
        message: "Hello".to_string(),
        timestamp: Utc::now().to_rfc3339(),
        priority: None,
        delay: Some(0),
        retries: Some(3),
        expires_in: Some(now + 60),
        progress: None,
    };
    qs.add_job("my_queue", job.clone()).unwrap();
    assert_eq!(qs.count_jobs("my_queue").unwrap(), 1);
    let fetched = qs.get_next_job("my_queue").unwrap().unwrap();
    assert_eq!(fetched, job);
    assert_eq!(qs.count_jobs("my_queue").unwrap(), 0);
}

#[test]
fn test_expired_job_is_abandoned() {
    let mut qs = QueueService::new();
    let now = Utc::now().timestamp();
    let job = job_with("exp", Some(3), Some(now - 10));
    qs.add_job_at("my_queue", job, now).unwrap();

    let worker = WorkerService::new("my_queue".to_string());
    let processed = worker.process_next_job(&mut qs, now).unwrap();
    assert!(processed.is_some());
    assert_eq!(processed.unwrap().id, "exp");
    // neither re-enqueued nor marked failed
    assert_eq!(qs.count_jobs("my_queue").unwrap(), 0);
    assert_eq!(qs.count_jobs("my_queue:failed").unwrap(), 0);
    // the simulation still drove the progress to completion
    assert_eq!(qs.get_job_progress("my_queue", "exp").unwrap(), 100);
}

#[test]
fn test_unexpired_job_with_budget_is_retried() {
    let mut qs = QueueService::new();
    let now = Utc::now().timestamp();
    qs.add_job_at("q", job_with("r", Some(3), Some(now + 60)), now)
        .unwrap();

    let worker = WorkerService::new("q".to_string());
    let processed = worker.process_next_job(&mut qs, now).unwrap().unwrap();
    assert_eq!(processed.retries, Some(3));
    assert_eq!(qs.count_jobs("q").unwrap(), 1);
    let copy = qs.get_next_job("q").unwrap().unwrap();
    assert_eq!(copy.id, "r");
    assert_eq!(copy.retries, Some(2));
    assert_eq!(qs.get_job_progress("q", "r").unwrap(), 100);
}

#[test]
fn test_job_without_budget_is_not_retried() {
    let mut qs = QueueService::new();
    let now = Utc::now().timestamp();
    qs.add_job_at("q", job_with("z", Some(0), None), now).unwrap();
    let worker = WorkerService::new("q".to_string());
    worker.process_next_job(&mut qs, now).unwrap().unwrap();
    assert_eq!(qs.count_jobs("q").unwrap(), 0);

    qs.add_job_at("q", job_with("n", None, None), now).unwrap();
    worker.process_next_job(&mut qs, now).unwrap().unwrap();
    assert_eq!(qs.count_jobs("q").unwrap(), 0);
}

#[test]
fn test_worker_on_empty_queue_finds_nothing() {
    let mut qs = QueueService::new();
    let worker = WorkerService::new("q".to_string());
    let now = Utc::now().timestamp();
    assert!(worker.process_next_job(&mut qs, now).unwrap().is_none());
    assert!(worker.retry_failed_step(&mut qs).unwrap().is_none());
}

#[test]
fn test_plan_after_processing_cases() {
    let now = 1_000_000i64;
    let expired = job_with("a", Some(2), Some(now - 1));
    assert!(matches!(plan_after_processing(&expired, now), JobPlan::Abandon));

    let with_budget = job_with("b", Some(2), Some(now + 1));
    match plan_after_processing(&with_budget, now) {
        JobPlan::Retry(copy) => assert_eq!(copy.retries, Some(1)),
        _ => panic!("expected a retry"),
    }

    let spent = job_with("c", Some(0), None);
    assert!(matches!(plan_after_processing(&spent, now), JobPlan::Done));

    let no_budget = job_with("d", None, None);
    assert!(matches!(plan_after_processing(&no_budget, now), JobPlan::Done));

    // a job expiring exactly now is not yet expired
    let edge = job_with("e", None, Some(now));
    assert!(matches!(plan_after_processing(&edge, now), JobPlan::Done));
}

#[test]
fn test_move_to_failed_then_dequeue_and_retry() {
    let mut qs = QueueService::new();
    let job = job_with("f", Some(1), None);

    qs.move_to_failed("q", job.clone()).unwrap();
    let back = qs.get_next_job("q:failed").unwrap().unwrap();
    assert_eq!(back, job);

    qs.move_to_failed("q", job.clone()).unwrap();
    let worker = WorkerService::new("q".to_string());
    let moved = worker.retry_failed_step(&mut qs).unwrap().unwrap();
    assert_eq!(moved, job);
    assert_eq!(qs.count_jobs("q:failed").unwrap(), 0);
    assert_eq!(qs.count_jobs("q").unwrap(), 1);
    assert_eq!(qs.get_next_job("q").unwrap().unwrap(), job);
}

#[test]
fn test_one_pending_job_goes_to_exactly_one_poller() {
    let mut qs = QueueService::new();
    qs.add_job("my_queue", job_with("only", Some(1), None)).unwrap();

    // two competing consumers over the same queue; the pop is atomic, so
    // whatever the interleaving, their polls happen in some order
    let trigger = QueueTriggerService::new("my_queue".to_string());
    let first = trigger.observe_next(&mut qs).unwrap();
    let second = qs.get_next_job("my_queue").unwrap();
    assert!(first.is_some());
    assert!(second.is_none());
}

#[test]
fn test_trigger_observation_text() {
    let trigger = QueueTriggerService::new("my_queue".to_string());
    let job = JobData {
        id: "test".to_string(),
        message: "msg".to_string(),
        timestamp: "ts".to_string(),
        priority: None,
        delay: None,
        retries: None,
        expires_in: None,
        progress: None,
    };
    assert_eq!(
        trigger.format_observation(&job),
        "queue:\t\tmy_queue\ntimestamp:\tts\nid:\t\ttest\nmessage:\tmsg\n"
    );
}

#[test]
fn test_retry_method_classification() {
    assert_eq!(retry_method_for(&QueueError::TimeoutError), RetryMethod::Reconnect);
    assert_eq!(retry_method_for(&QueueError::ConnectionError), RetryMethod::Reconnect);
    assert_eq!(
        retry_method_for(&QueueError::DecodeError),
        RetryMethod::RetryImmediately
    );
    assert_eq!(
        retry_method_for(&QueueError::EncodeError),
        RetryMethod::RetryImmediately
    );
    assert_eq!(
        retry_method_for(&QueueError::NotFoundError),
        RetryMethod::RetryImmediately
    );
}

#[test]
fn test_error_messages() {
    assert_eq!(QueueError::DecodeError.message(), "decode error");
    assert_eq!(QueueError::NotFoundError.message(), "not found");
    assert!(QueueError::TimeoutError.is_transport());
    assert!(!QueueError::DecodeError.is_transport());
}
