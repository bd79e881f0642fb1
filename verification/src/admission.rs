//! Admission: which submissions get a permit, and with what record.

use vstd::prelude::*;
use crate::ids::RunId;
use crate::job::{decoding_fault, Decoding, DecodingView, Job, JobView};
use crate::model::{
    Error, ErrorView, JobKey, RunRecord, RunRecordView, RunState, RunStateView, Trigger,
};
use crate::state::{text_view, Active, ActiveView, State, StateView};
use crate::text::{byte_len, same_text, text_bytes};
use crate::time::Timestamp;

verus! {

/// A request for a run.
#[derive(Debug)]
pub struct Submission {
    pub key: JobKey,
    pub id: RunId,
    /// The encoded input, or none for the job's default.
    pub input: Option<String>,
    pub trigger: Trigger,
    pub scheduled: Option<Timestamp>,
    /// Whether the run only records a collision.
    pub skip: bool,
}

pub struct SubmissionView {
    pub key: Seq<char>,
    pub id: u128,
    pub input: Option<Seq<char>>,
    pub trigger: Trigger,
    pub scheduled: Option<Timestamp>,
    pub skip: bool,
}

impl View for Submission {
    type V = SubmissionView;

    open spec fn view(&self) -> SubmissionView {
        SubmissionView {
            key: self.key@,
            id: self.id@,
            input: text_view(self.input),
            trigger: self.trigger,
            scheduled: self.scheduled,
            skip: self.skip,
        }
    }
}

/// A run to be started: its record, its job, its input, and whether it only records a collision.
#[derive(Debug)]
pub struct Launch {
    pub record: RunRecord,
    pub job: Job,
    pub input: String,
    pub skip: bool,
}

pub struct LaunchView {
    pub record: RunRecordView,
    pub job: JobView,
    pub input: Seq<char>,
    pub skip: bool,
}

impl View for Launch {
    type V = LaunchView;

    open spec fn view(&self) -> LaunchView {
        LaunchView {
            record: self.record@,
            job: self.job@,
            input: self.input@,
            skip: self.skip,
        }
    }
}

/// What refuses a submission before its input is looked at.
pub open spec fn request_fault(state: StateView, request: SubmissionView) -> Option<ErrorView> {
    if state.active.contains_key(request.id) {
        Some(ErrorView::AlreadySubmitted(request.id))
    } else if state.shutting_down {
        Some(ErrorView::ShuttingDown)
    } else if state.faults != Set::<u128>::empty() {
        Some(ErrorView::Journal("admission closed"@))
    } else if !state.jobs.contains_key(request.key) {
        Some(ErrorView::NotFound)
    } else if state.active.dom().len() >= state.limits.concurrency || (!request.skip
        && state.occupied(request.key)) {
        Some(ErrorView::Busy)
    } else {
        None
    }
}

/// The input of a submission that is not refused before its input is looked at.
pub open spec fn request_input(state: StateView, request: SubmissionView) -> Seq<char> {
    match request.input {
        Some(text) => text,
        None => state.jobs[request.key].job.input,
    }
}

/// What refuses a submission, given what the job's decoder makes of the input.
pub open spec fn admission_fault(
    state: StateView,
    request: SubmissionView,
    decoding: DecodingView,
) -> Option<ErrorView> {
    match request_fault(state, request) {
        Some(e) => Some(e),
        None => if byte_len(request_input(state, request)) > state.limits.input_bytes {
            Some(ErrorView::Invalid("input limit"@))
        } else {
            decoding_fault(decoding)
        },
    }
}

/// The record with which a run is admitted.
pub open spec fn admission_record(
    state: StateView,
    request: SubmissionView,
    now: Timestamp,
) -> RunRecordView {
    RunRecordView {
        id: request.id,
        job: request.key,
        definition_version: state.jobs[request.key].job.definition.version,
        trigger: request.trigger,
        scheduled_at: request.scheduled,
        admitted_at: now,
        admission_sequence: 0,
        finished_at: None,
        state: RunStateView::Admitted,
        last_log_sequence: 0,
        dropped_log_count: 0,
    }
}

/// The state once a run was admitted.
pub open spec fn with_admitted(
    state: StateView,
    request: SubmissionView,
    now: Timestamp,
) -> StateView {
    StateView {
        active: state.active.insert(
            request.id,
            ActiveView {
                record: admission_record(state, request, now),
                capability: state.jobs[request.key].job.definition.cancellation,
                cancelled: false,
                published: None,
                admitting: true,
                uncertain: false,
                skip: request.skip,
            },
        ),
        ..state
    }
}

/// The run that an admitted submission starts.
pub open spec fn launch_of(
    state: StateView,
    request: SubmissionView,
    now: Timestamp,
) -> LaunchView {
    LaunchView {
        record: admission_record(state, request, now),
        job: state.jobs[request.key].job,
        input: request_input(state, request),
        skip: request.skip,
    }
}

/// Whether an answer and a new state are those of a submission, given what the decoder said.
pub open spec fn admission_answers(
    before: StateView,
    request: SubmissionView,
    decoding: DecodingView,
    now: Timestamp,
    after: StateView,
    answer: Result<Launch, Error>,
) -> bool {
    match admission_fault(before, request, decoding) {
        Some(fault) => answer matches Err(e) && e@ == fault && after == before,
        None => answer matches Ok(launch) && launch@ == launch_of(before, request, now) && after
            == with_admitted(before, request, now),
    }
}

impl State {
    /// Whether some active run is of a job.
    pub fn busy(&self, key: &str) -> (busy: bool)
        requires
            self.wf(),
        ensures
            busy == self@.occupied(key@),
    {
        let mut i: usize = 0;
        while i < self.active.items.len()
            invariant
                self.wf(),
                i <= self.active.items@.len(),
                forall|j: int| 0 <= j < i ==> (#[trigger] self.active.items@[j]).1.record.job@ != key@,
            decreases self.active.items@.len() - i,
        {
            if same_text(self.active.items[i].1.record.job.as_str(), key) {
                proof {
                    self.active.lemma_entry(i as int);
                    assert(self@.active.contains_key(self.active.key_at(i as int)));
                }
                return true;
            }
            i = i + 1;
        }
        proof {
            if self@.occupied(key@) {
                let id = choose|id: u128| #[trigger]
                    self@.active.contains_key(id) && self@.active[id].record.job == key@;
                self.active.lemma_key(id);
                assert(self.active.items@[self.active.position(id)].1.record.job@ == key@);
            }
        }
        false
    }

    /// Decides a submission. `decode` tells what the job's decoder makes of the input; it is asked
    /// only once nothing else refuses the run.
    pub fn admit_run<F: FnOnce(&Job, &str) -> Decoding>(
        &mut self,
        request: Submission,
        now: Timestamp,
        decode: F,
    ) -> (answer: Result<Launch, Error>)
        requires
            old(self).wf(),
            forall|job: &Job, text: &str| call_requires(decode, (job, text)),
        ensures
            final(self).wf(),
            request_fault(old(self)@, request@) is Some || byte_len(
                request_input(old(self)@, request@),
            ) > old(self)@.limits.input_bytes ==> admission_answers(
                old(self)@,
                request@,
                DecodingView::Accepted,
                now,
                final(self)@,
                answer,
            ),
            request_fault(old(self)@, request@) is None && byte_len(
                request_input(old(self)@, request@),
            ) <= old(self)@.limits.input_bytes ==> exists|job: &Job, text: &str, said: Decoding|
                {
                    &&& job@ == old(self)@.jobs[request@.key].job
                    &&& text@ == request_input(old(self)@, request@)
                    &&& #[trigger] call_ensures(decode, (job, text), said)
                    &&& admission_answers(
                        old(self)@,
                        request@,
                        said@,
                        now,
                        final(self)@,
                        answer,
                    )
                },
    {
        if self.active.contains(&request.id) {
            return Err(Error::AlreadySubmitted(request.id));
        }
        if self.shutting_down {
            return Err(Error::ShuttingDown);
        }
        proof {
            self.faults.lemma_len();
        }
        if self.faults.len() > 0 {
            assert(self@.faults != Set::<u128>::empty());
            return Err(Error::Journal("admission closed".to_string()));
        }
        assert(self@.faults =~= Set::<u128>::empty());
        let job = match self.jobs.get(&request.key) {
            Some(registration) => registration.job.clone(),
            None => {
                return Err(Error::NotFound);
            },
        };
        if self.active.len() >= self.limits.concurrency || (!request.skip && self.busy(
            request.key.as_str(),
        )) {
            return Err(Error::Busy);
        }
        let input = match request.input {
            Some(text) => text,
            None => job.input.clone(),
        };
        if text_bytes(input.as_str()) > self.limits.input_bytes {
            return Err(Error::Invalid("input limit".to_string()));
        }
        let text = input.as_str();
        let said = decode(&job, text);
        let ghost asked = (&job, text);
        assert(call_ensures(decode, asked, said));
        match said.verdict() {
            Err(e) => Err(e),
            Ok(()) => {
                let record = RunRecord {
                    id: request.id,
                    job: request.key,
                    definition_version: job.definition.version,
                    trigger: request.trigger,
                    scheduled_at: request.scheduled,
                    admitted_at: now,
                    admission_sequence: 0,
                    finished_at: None,
                    state: RunState::Admitted,
                    last_log_sequence: 0,
                    dropped_log_count: 0,
                };
                self.active.insert(
                    request.id,
                    Active {
                        record: record.clone(),
                        capability: job.definition.cancellation,
                        cancelled: false,
                        published: None,
                        admitting: true,
                        uncertain: false,
                        skip: request.skip,
                    },
                );
                Ok(Launch { record, job, input, skip: request.skip })
            },
        }
    }
}

} // verus!
