//! The telemetry fetcher, as a state machine: it says which request to make
//! next and takes the response in; whoever drives it does the network work.
//!
//! The participants are taken in consecutive batches, one participant at a
//! time. A participant is queried until it has given as many valid samples as
//! the limit asks for, until a page comes back without a valid sample, which
//! is how the source tells that it has no more, or until the source answers
//! with an error for it. A failure of the transport ends the whole job.

use crate::telemetry::{append_valid, valid_samples, RawRecord, Sample};
use vstd::prelude::*;

verus! {

/// The session and the span of time to which every request is held.
#[derive(Clone, Copy, Debug, PartialEq, Eq, Structural)]
pub struct SessionWindow {
    pub session_key: u32,
    pub from_ms: i64,
    pub until_ms: i64,
}

/// One query to the telemetry source.
#[derive(Clone, Copy, Debug, PartialEq, Eq, Structural)]
pub struct Request {
    pub window: SessionWindow,
    pub participant_id: u32,
    /// The batch that the participant belongs to, counted from 0.
    pub batch: usize,
}

/// What came back for one request.
#[derive(Clone, Debug, PartialEq, Eq)]
pub enum Response {
    /// The source answered with a page of records.
    Records(Vec<RawRecord>),
    /// The source answered, but not with success; the status it gave.
    SourceError(u16),
    /// No usable answer: the connection failed or the payload was malformed.
    TransportError(String),
}

/// Why a fetch gave no samples.
#[derive(Clone, Debug, PartialEq, Eq)]
pub enum FetchError {
    /// The transport failed; what it reported.
    Transport(String),
}

/// The state of a fetch job.
pub struct FetchJobView {
    pub window: SessionWindow,
    pub participant_ids: Seq<u32>,
    pub batch_size: nat,
    pub per_participant_limit: nat,
    /// The place of the participant that is being queried.
    pub next: nat,
    /// How many more valid samples that participant is asked for.
    pub remaining: nat,
    /// The samples collected so far.
    pub samples: Seq<Sample>,
    pub failed: Option<FetchError>,
}

/// The participants of batch `k`, the batches counted from 0: consecutive
/// runs of `batch_size` participants, the last one as long as what is left.
pub open spec fn batch(participant_ids: Seq<u32>, batch_size: nat, k: nat) -> Seq<u32> {
    let from: int = (k * batch_size) as int;
    let until: int = if from + batch_size <= participant_ids.len() {
        from + batch_size
    } else {
        participant_ids.len() as int
    };
    if from <= participant_ids.len() {
        participant_ids.subrange(from, until)
    } else {
        Seq::empty()
    }
}

/// The request that the job waits to have answered, `None` where the job is
/// over: after a transport failure, past the last participant, or where no
/// sample is asked for.
pub open spec fn pending(job: FetchJobView) -> Option<Request> {
    if job.failed is Some || job.per_participant_limit == 0 || job.next
        >= job.participant_ids.len() {
        None
    } else {
        Some(
            Request {
                window: job.window,
                participant_id: job.participant_ids[job.next as int],
                batch: (job.next / job.batch_size) as usize,
            },
        )
    }
}

/// The job turned to the next participant.
pub open spec fn advanced(job: FetchJobView) -> FetchJobView {
    FetchJobView { next: job.next + 1, remaining: job.per_participant_limit, ..job }
}

/// The job after the response to its pending request. A job that is over
/// takes nothing in. A page adds its valid samples, all of them; the
/// participant is done with a page that brings no valid sample or that
/// brings its count up to the limit. An error of the source ends the
/// participant's turn and leaves what was collected. A transport failure
/// ends the job.
pub open spec fn after_response(job: FetchJobView, response: Response) -> FetchJobView {
    if pending(job) is None {
        job
    } else {
        match response {
            Response::Records(page) => {
                let found = valid_samples(page@);
                let grown = FetchJobView { samples: job.samples + found, ..job };
                if found.len() == 0 || found.len() >= job.remaining {
                    advanced(grown)
                } else {
                    FetchJobView { remaining: (job.remaining - found.len()) as nat, ..grown }
                }
            },
            Response::SourceError(_) => advanced(job),
            Response::TransportError(message) => FetchJobView {
                failed: Some(FetchError::Transport(message)),
                ..job
            },
        }
    }
}

/// What the job hands back once it is over: the samples collected, in the
/// order of their arrival, or the failure that ended it.
pub open spec fn outcome(job: FetchJobView) -> Result<Seq<Sample>, FetchError> {
    match job.failed {
        Some(error) => Err(error),
        None => Ok(job.samples),
    }
}

/// The participant at place `i` is the one at place `i % batch_size` of
/// batch `i / batch_size`.
pub proof fn lemma_batch_member(participant_ids: Seq<u32>, batch_size: nat, i: nat)
    requires
        batch_size > 0,
        i < participant_ids.len(),
    ensures
        i % batch_size < batch(participant_ids, batch_size, i / batch_size).len(),
        batch(participant_ids, batch_size, i / batch_size)[(i % batch_size) as int]
            == participant_ids[i as int],
{
    let k = i / batch_size;
    let r = i % batch_size;
    assert(i == k * batch_size + r && 0 <= r < batch_size) by (nonlinear_arith)
        requires
            batch_size > 0,
            k == i / batch_size,
            r == i % batch_size,
    ;
}

/// A response never takes away a sample that was collected: the samples
/// before it are the first of those after it.
pub proof fn lemma_samples_kept(job: FetchJobView, response: Response)
    ensures
        job.samples.is_prefix_of(after_response(job, response).samples),
        response is SourceError ==> after_response(job, response).samples == job.samples
            && after_response(job, response).failed == job.failed,
{
}

/// What holds of every job: its batches hold at least one participant; it
/// is never past the end of its participants; and the participant in turn is
/// asked for at least one more sample, and for no more than the limit.
pub open spec fn job_well_formed(job: FetchJobView) -> bool {
    &&& job.batch_size > 0
    &&& job.next <= job.participant_ids.len()
    &&& job.remaining <= job.per_participant_limit
    &&& job.per_participant_limit > 0 ==> job.remaining > 0
}

/// A bound on the responses that a job still takes in: for each participant
/// still to come as many as the limit, and for the one in turn as many as it
/// is still asked for.
pub open spec fn steps_left(job: FetchJobView) -> nat {
    if pending(job) is None {
        0
    } else {
        ((job.participant_ids.len() - job.next - 1) * job.per_participant_limit + job.remaining) as nat
    }
}

/// The job after a run of responses, taken in their order.
pub open spec fn after_responses(job: FetchJobView, responses: Seq<Response>) -> FetchJobView
    decreases responses.len(),
{
    if responses.len() == 0 {
        job
    } else {
        after_response(after_responses(job, responses.drop_last()), responses.last())
    }
}

/// Every response leaves a well-formed job well formed.
pub proof fn lemma_job_well_formed_kept(job: FetchJobView, response: Response)
    requires
        job_well_formed(job),
    ensures
        job_well_formed(after_response(job, response)),
{
}

/// Every response to a pending request gets the job nearer to its end.
pub proof fn lemma_job_progress(job: FetchJobView, response: Response)
    requires
        job_well_formed(job),
        pending(job) is Some,
    ensures
        steps_left(after_response(job, response)) < steps_left(job),
{
    let after = after_response(job, response);
    let rest = job.participant_ids.len() - job.next - 1;
    let limit = job.per_participant_limit as int;
    assert(rest * limit >= 0) by (nonlinear_arith)
        requires
            rest >= 0,
            limit >= 0,
    ;
    if pending(after) is Some && after.next == job.next + 1 {
        assert((rest - 1) * limit + limit == rest * limit) by (nonlinear_arith);
    }
}

/// Whatever the source answers, a job is over after as many responses as
/// `steps_left` counts: at most the limit for each participant.
pub proof fn lemma_job_ends(job: FetchJobView, responses: Seq<Response>)
    requires
        job_well_formed(job),
    ensures
        job_well_formed(after_responses(job, responses)),
        steps_left(after_responses(job, responses)) + responses.len() <= steps_left(job)
            || pending(after_responses(job, responses)) is None,
        responses.len() >= steps_left(job) ==> pending(after_responses(job, responses)) is None,
        steps_left(job) <= job.participant_ids.len() * job.per_participant_limit,
    decreases responses.len(),
{
    let left = job.participant_ids.len() - job.next;
    let limit = job.per_participant_limit as int;
    if pending(job) is Some {
        assert((left - 1) * limit + limit == left * limit) by (nonlinear_arith);
        assert(left * limit <= job.participant_ids.len() * limit) by (nonlinear_arith)
            requires
                0 <= left <= job.participant_ids.len(),
                limit >= 0,
        ;
    } else {
        assert(job.participant_ids.len() * limit >= 0) by (nonlinear_arith)
            requires
                limit >= 0,
        ;
    }
    if responses.len() > 0 {
        let front = responses.drop_last();
        lemma_job_ends(job, front);
        let before = after_responses(job, front);
        lemma_job_well_formed_kept(before, responses.last());
        if pending(before) is Some {
            lemma_job_progress(before, responses.last());
        }
    }
}

/// A fetch under way.
pub struct FetchJob {
    window: SessionWindow,
    participant_ids: Vec<u32>,
    batch_size: usize,
    per_participant_limit: usize,
    next: usize,
    remaining: usize,
    samples: Vec<Sample>,
    failed: Option<FetchError>,
}

impl View for FetchJob {
    type V = FetchJobView;

    closed spec fn view(&self) -> FetchJobView {
        FetchJobView {
            window: self.window,
            participant_ids: self.participant_ids@,
            batch_size: self.batch_size as nat,
            per_participant_limit: self.per_participant_limit as nat,
            next: self.next as nat,
            remaining: self.remaining as nat,
            samples: self.samples@,
            failed: self.failed,
        }
    }
}

impl FetchJob {
    /// Every job is well formed.
    #[verifier::type_invariant]
    spec fn well_formed(self) -> bool {
        job_well_formed(self@)
    }

    /// A job over `participant_ids`, taken in batches of `batch_size`, that
    /// asks each participant for `per_participant_limit` valid samples. `None`
    /// exactly where `batch_size` is 0: there are no batches of no
    /// participant.
    pub fn new(
        window: SessionWindow,
        participant_ids: Vec<u32>,
        batch_size: usize,
        per_participant_limit: usize,
    ) -> (job: Option<FetchJob>)
        ensures
            job is None <==> batch_size == 0,
            job matches Some(j) ==> j@ == (FetchJobView {
                window,
                participant_ids: participant_ids@,
                batch_size: batch_size as nat,
                per_participant_limit: per_participant_limit as nat,
                next: 0,
                remaining: per_participant_limit as nat,
                samples: Seq::empty(),
                failed: None,
            }),
    {
        if batch_size == 0 {
            None
        } else {
            Some(
                FetchJob {
                    window,
                    participant_ids,
                    batch_size,
                    per_participant_limit,
                    next: 0,
                    remaining: per_participant_limit,
                    samples: Vec::new(),
                    failed: None,
                },
            )
        }
    }

    /// The request to make next, `None` once the job is over.
    pub fn next_request(&self) -> (request: Option<Request>)
        ensures
            request == pending(self@),
            job_well_formed(self@),
    {
        proof {
            use_type_invariant(self);
        }
        if self.failed.is_some() || self.per_participant_limit == 0 || self.next
            >= self.participant_ids.len() {
            None
        } else {
            Some(
                Request {
                    window: self.window,
                    participant_id: self.participant_ids[self.next],
                    batch: self.next / self.batch_size,
                },
            )
        }
    }

    /// Whether the job is over.
    pub fn is_over(&self) -> (over: bool)
        ensures
            over == (pending(self@) is None),
    {
        self.next_request().is_none()
    }

    /// How many samples have been collected so far.
    pub fn collected(&self) -> (n: usize)
        ensures
            n == self@.samples.len(),
    {
        self.samples.len()
    }

    /// Takes in the response to the pending request.
    pub fn on_response(self, response: Response) -> (after: FetchJob)
        ensures
            after@ == after_response(self@, response),
            self@.samples.is_prefix_of(after@.samples),
            job_well_formed(after@),
    {
        proof {
            use_type_invariant(&self);
        }
        if self.next_request().is_none() {
            return self;
        }
        let FetchJob {
            window,
            participant_ids,
            batch_size,
            per_participant_limit,
            next,
            remaining,
            samples,
            failed,
        } = self;
        let total = participant_ids.len();
        assert(next < total);
        match response {
            Response::Records(page) => {
                let mut samples = samples;
                let found = append_valid(&mut samples, &page);
                if found == 0 || found >= remaining {
                    FetchJob {
                        window,
                        participant_ids,
                        batch_size,
                        per_participant_limit,
                        next: next + 1,
                        remaining: per_participant_limit,
                        samples,
                        failed,
                    }
                } else {
                    FetchJob {
                        window,
                        participant_ids,
                        batch_size,
                        per_participant_limit,
                        next,
                        remaining: remaining - found,
                        samples,
                        failed,
                    }
                }
            },
            Response::SourceError(_) => FetchJob {
                window,
                participant_ids,
                batch_size,
                per_participant_limit,
                next: next + 1,
                remaining: per_participant_limit,
                samples,
                failed,
            },
            Response::TransportError(message) => FetchJob {
                window,
                participant_ids,
                batch_size,
                per_participant_limit,
                next,
                remaining,
                samples,
                failed: Some(FetchError::Transport(message)),
            },
        }
    }

    /// Ends the job and hands back what it has: the samples collected, in
    /// the order of their arrival and not sorted, or the failure that ended
    /// it.
    pub fn finish(self) -> (result: Result<Vec<Sample>, FetchError>)
        ensures
            match result {
                Ok(samples) => outcome(self@) == Ok::<Seq<Sample>, FetchError>(samples@),
                Err(error) => outcome(self@) == Err::<Seq<Sample>, FetchError>(error),
            },
    {
        match self.failed {
            Some(error) => Err(error),
            None => Ok(self.samples),
        }
    }
}

} // verus!
