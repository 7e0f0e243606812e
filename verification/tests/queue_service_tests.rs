use bullmq_rust::JobData;
use bullmq_rust::QueueError;
use bullmq_rust::QueueService;
use chrono::Utc;

fn sample_job(id: &str, message: &str, delay: i64) -> JobData {
    JobData {
        id: id.to_string(),
        message: message.to_string(),
        timestamp: Utc::now().to_rfc3339(),
        priority: Some(1),
        delay: Some(delay),
        retries: Some(3),
        expires_in: None,
        progress: Some(0),
    }
}

#[test]
fn test_add_and_get_job() {
    let mut qs = QueueService::new();
    let job = sample_job("test_job", "Test Job", 0);

    qs.add_job("testQueue", job.clone()).unwrap();
    let fetched_job = qs.get_next_job("testQueue").unwrap();
    assert!(fetched_job.is_some());
    let fetched_job = fetched_job.unwrap();
    assert_eq!(fetched_job.message, job.message);
    assert_eq!(fetched_job, job);
}

#[test]
fn test_count_jobs() {
    let mut qs = QueueService::new();
    assert_eq!(qs.count_jobs("testQueue").unwrap(), 0);
    qs.add_job("testQueue", sample_job("test_job", "Test Job", 0))
        .unwrap();
    let count = qs.count_jobs("testQueue").unwrap();
    assert_eq!(count, 1);
}

#[test]
fn test_update_and_get_job_progress() {
    let mut qs = QueueService::new();
    let job_id = "test_job";
    let queue_name = "testQueue";

    qs.update_job_progress(queue_name, job_id, 50).unwrap();
    let progress = qs.get_job_progress(queue_name, job_id).unwrap();
    assert_eq!(progress, 50);
}

#[test]
fn test_move_to_failed() {
    let mut qs = QueueService::new();
    let job = sample_job("Failed Job", "Failed Job", 0);

    qs.move_to_failed("testQueue", job.clone()).unwrap();
    assert_eq!(qs.count_jobs("testQueue").unwrap(), 0);
    assert_eq!(qs.count_jobs("testQueue:failed").unwrap(), 1);
    let back = qs.get_next_job("testQueue:failed").unwrap().unwrap();
    assert_eq!(back, job);
}

#[test]
fn test_log_job_status() {
    let mut qs = QueueService::new();
    let job = sample_job("Log Job", "Log Job", 0);

    qs.log_job_status("testQueue", &job, "completed").unwrap();
    let lines = qs.log_lines("testQueue");
    assert_eq!(lines.len(), 1);
    assert!(lines[0].ends_with(" - completed: Log Job"));
}

#[test]
fn test_add_job() {
    let mut qs = QueueService::new();
    let job = sample_job("test", "test", 5);

    let result = qs.add_job("testQueue", job);
    assert!(result.is_ok());
}

#[test]
fn test_get_next_job() {
    let mut qs = QueueService::new();
    let timestamp = Utc::now().to_rfc3339();
    let job = JobData {
        id: "test".to_string(),
        message: "test".to_string(),
        timestamp: timestamp.clone(),
        priority: Some(1),
        delay: Some(5),
        retries: Some(3),
        expires_in: None,
        progress: Some(0),
    };

    let attempt_string = format!(
        "\"id\":\"test\",\"message\":\"test\",\"timestamp\":\"{}\",\"priority\":1,\"delay\":5,\"retries\":3,\"expires_in\":null,\"progress\":0",
        timestamp.clone()
    );
    assert_eq!(
        bullmq_rust::encode_job(&job),
        "{".to_owned() + &attempt_string + "}"
    );

    qs.add_job("testQueue", job.clone()).unwrap();
    let result = qs.get_next_job("testQueue");
    assert!(result.is_ok());
    assert_eq!(result.unwrap(), Some(job));
}

#[test]
fn test_get_progress_before_any_set_is_not_found() {
    let qs = QueueService::new();
    let r = qs.get_job_progress("testQueue", "nobody");
    assert_eq!(r, Err(QueueError::NotFoundError));
}

#[test]
fn test_empty_queue_polls_return_no_job() {
    let mut qs = QueueService::new();
    for _ in 0..3 {
        let r = qs.get_next_job("emptyQueue").unwrap();
        assert!(r.is_none());
    }
    assert_eq!(qs.count_jobs("emptyQueue").unwrap(), 0);
}

#[test]
fn test_pop_min_respects_score_order() {
    let mut qs = QueueService::new();
    let now = 1_000_000i64;
    qs.add_job_at("q", sample_job("late", "late", 5), now).unwrap();
    qs.add_job_at("q", sample_job("early", "early", 0), now).unwrap();
    let first = qs.get_next_job("q").unwrap().unwrap();
    assert_eq!(first.id, "early");
    let second = qs.get_next_job("q").unwrap().unwrap();
    assert_eq!(second.id, "late");
    assert!(qs.get_next_job("q").unwrap().is_none());
}

#[test]
fn test_count_tracks_enqueues_and_dequeues() {
    let mut qs = QueueService::new();
    for i in 0..5 {
        let id = format!("job_{}", i);
        qs.add_job("q", sample_job(&id, "m", 0)).unwrap();
    }
    assert_eq!(qs.count_jobs("q").unwrap(), 5);
    for _ in 0..2 {
        qs.get_next_job("q").unwrap().unwrap();
    }
    assert_eq!(qs.count_jobs("q").unwrap(), 3);
}

#[test]
fn test_log_is_newest_first() {
    let mut qs = QueueService::new();
    let log_service = bullmq_rust::LogService::new();
    log_service.log(&mut qs, "q", "first").unwrap();
    log_service.log(&mut qs, "q", "second").unwrap();
    let lines = qs.log_lines("q");
    assert_eq!(lines.len(), 2);
    assert!(lines[0].ends_with(" - second"));
    assert!(lines[1].ends_with(" - first"));
}
