use vstd::prelude::*;

verus! {

/// One unit of work, immutable once created.
///
/// A producer fills the record and enqueues it; consumers never mutate the
/// stored payload (a retry re-enqueues a modified copy). The optional fields
/// serialize as `null` when absent.
#[derive(Clone, Debug)]
pub struct JobData {
    /// Caller-supplied identifier; uniqueness is the producer's responsibility.
    pub id: String,
    /// Opaque payload; producers serialize their own content into it.
    pub message: String,
    /// Creation time as a fixed textual timestamp.
    pub timestamp: String,
    /// Carried on the record but not consulted by dequeue ordering.
    pub priority: Option<i32>,
    /// Seconds added to the enqueue time to compute the ordering score.
    pub delay: Option<i64>,
    /// Remaining retry budget.
    pub retries: Option<u32>,
    /// Epoch-seconds deadline; the job is abandoned once "now" exceeds it.
    pub expires_in: Option<i64>,
    /// Execution progress, 0 to 100 by convention.
    pub progress: Option<u32>,
}

/// The mathematical value of a [`JobData`]: the same fields with strings
/// abstracted to character sequences.
pub struct JobView {
    pub id: Seq<char>,
    pub message: Seq<char>,
    pub timestamp: Seq<char>,
    pub priority: Option<i32>,
    pub delay: Option<i64>,
    pub retries: Option<u32>,
    pub expires_in: Option<i64>,
    pub progress: Option<u32>,
}

impl View for JobData {
    type V = JobView;

    open spec fn view(&self) -> JobView {
        JobView {
            id: self.id@,
            message: self.message@,
            timestamp: self.timestamp@,
            priority: self.priority,
            delay: self.delay,
            retries: self.retries,
            expires_in: self.expires_in,
            progress: self.progress,
        }
    }
}

fn opt_i32_eq(a: &Option<i32>, b: &Option<i32>) -> (r: bool)
    ensures
        r == (*a == *b),
{
    match (a, b) {
        (Option::None, Option::None) => true,
        (Option::Some(x), Option::Some(y)) => *x == *y,
        _ => false,
    }
}

fn opt_i64_eq(a: &Option<i64>, b: &Option<i64>) -> (r: bool)
    ensures
        r == (*a == *b),
{
    match (a, b) {
        (Option::None, Option::None) => true,
        (Option::Some(x), Option::Some(y)) => *x == *y,
        _ => false,
    }
}

fn opt_u32_eq(a: &Option<u32>, b: &Option<u32>) -> (r: bool)
    ensures
        r == (*a == *b),
{
    match (a, b) {
        (Option::None, Option::None) => true,
        (Option::Some(x), Option::Some(y)) => *x == *y,
        _ => false,
    }
}

impl PartialEq for JobData {
    fn eq(&self, other: &JobData) -> (r: bool) {
        self.id == other.id && self.message == other.message && self.timestamp
            == other.timestamp && opt_i32_eq(&self.priority, &other.priority) && opt_i64_eq(
            &self.delay,
            &other.delay,
        ) && opt_u32_eq(&self.retries, &other.retries) && opt_i64_eq(
            &self.expires_in,
            &other.expires_in,
        ) && opt_u32_eq(&self.progress, &other.progress)
    }
}

impl vstd::std_specs::cmp::PartialEqSpecImpl for JobData {
    open spec fn obeys_eq_spec() -> bool {
        true
    }

    open spec fn eq_spec(&self, other: &JobData) -> bool {
        self@ == other@
    }
}

impl Eq for JobData {}

impl JobData {
    /// A field-for-field copy; unlike a derived clone, its contract says the
    /// copy has the same value.
    pub fn duplicate(&self) -> (r: JobData)
        ensures
            r@ == self@,
    {
        JobData {
            id: self.id.clone(),
            message: self.message.clone(),
            timestamp: self.timestamp.clone(),
            priority: self.priority,
            delay: self.delay,
            retries: self.retries,
            expires_in: self.expires_in,
            progress: self.progress,
        }
    }

    /// The copy that a retry enqueues: the same job with one fewer attempt
    /// left.
    pub fn with_retries(&self, retries: u32) -> (r: JobData)
        ensures
            r@ == (JobView { retries: Some(retries), ..self@ }),
    {
        JobData {
            id: self.id.clone(),
            message: self.message.clone(),
            timestamp: self.timestamp.clone(),
            priority: self.priority,
            delay: self.delay,
            retries: Some(retries),
            expires_in: self.expires_in,
            progress: self.progress,
        }
    }
}

} // verus!
