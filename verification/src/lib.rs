mod clock;
mod codec;
mod config_service;
mod errors;
mod escape;
mod job_model;
mod laws;
mod log_service;
mod numerals;
mod queue_service;
mod queue_trigger_service;
mod store;
mod text;
mod worker_service;

pub use codec::decode_job;
pub use codec::encode_job;
pub use codec::lemma_decode_encode;
pub use codec::spec_decode_job;
pub use codec::spec_encode_job;
pub use config_service::ConfigService;
pub use errors::QueueError;
pub use job_model::JobData;
pub use job_model::JobView;
pub use laws::lemma_count_after_enqueues_and_dequeues;
pub use laws::lemma_empty_queue_stays_empty;
pub use laws::lemma_one_job_one_winner;
pub use laws::lemma_pop_returns_lowest_score;
pub use laws::lemma_run_ops_len;
pub use laws::lemma_two_jobs_in_score_order;
pub use laws::n_dequeues;
pub use laws::n_enqueues;
pub use laws::run_ops;
pub use laws::safe_ops;
pub use laws::QueueOp;
pub use log_service::LogService;
pub use queue_service::enqueued_at;
pub use queue_service::spec_failed_key;
pub use queue_service::spec_log_entry;
pub use queue_service::spec_log_key;
pub use queue_service::spec_log_line;
pub use queue_service::spec_progress_key;
pub use queue_service::spec_score;
pub use queue_service::QueueService;
pub use queue_trigger_service::retry_method_for;
pub use queue_trigger_service::spec_observation;
pub use queue_trigger_service::spec_retry_method;
pub use queue_trigger_service::QueueTriggerService;
pub use queue_trigger_service::RetryMethod;
pub use store::min_idx;
pub use store::spec_pop_min;
pub use worker_service::plan_after_processing;
pub use worker_service::retried_view;
pub use worker_service::run_progress_updates;
pub use worker_service::spec_expired;
pub use worker_service::spec_retry;
pub use worker_service::JobPlan;
pub use worker_service::WorkerService;
