//! Answers of a client: what a caller is told once the service and the journal have spoken.

use vstd::prelude::*;
use crate::ids::RunId;
use crate::inspect::{id_views, Inspection};
use crate::journal::known_view;
use crate::model::{
    record_views, CancelResult, Completion, CompletionView, Error, ErrorView, RunRecord,
    RunRecordView, ShutdownReport,
};

verus! {

/// What a waiter is told: the result that the service shows of an active run, else the result that
/// the journal keeps. A run that neither knows is not found, and one without a result is still
/// waited for when the time is over.
pub open spec fn wait_answer(
    id: u128,
    shown: Option<RunRecordView>,
    kept: Option<RunRecordView>,
) -> Result<CompletionView, ErrorView> {
    let known = match shown {
        Some(record) => Some(record),
        None => kept,
    };
    match known {
        None => Err(ErrorView::NotFound),
        Some(record) => match record.completion() {
            Some(completion) => Ok(completion),
            None => Err(ErrorView::WaitTimedOut(id)),
        },
    }
}

/// Tells a waiter the result of a run, or that there is none yet.
pub fn waited(id: RunId, shown: Option<&RunRecord>, kept: Option<&RunRecord>) -> (answer: Result<
    Completion,
    Error,
>)
    ensures
        match answer {
            Ok(completion) => wait_answer(id@, known_view(shown), known_view(kept)) == Ok::<
                CompletionView,
                ErrorView,
            >(completion@),
            Err(e) => wait_answer(id@, known_view(shown), known_view(kept)) == Err::<
                CompletionView,
                ErrorView,
            >(e@),
        },
{
    let known = match shown {
        Some(record) => Some(record),
        None => kept,
    };
    match known {
        None => Err(Error::NotFound),
        Some(record) => match record.completion() {
            Some(completion) => Ok(completion.clone()),
            None => Err(Error::WaitTimedOut(id)),
        },
    }
}

/// Tells a caller what became of a cancellation: what the service answered of an active run, else
/// that a run that the journal knows is finished.
pub fn cancelled(active: Option<CancelResult>, kept: Option<&RunRecord>) -> (answer: Result<
    CancelResult,
    Error,
>)
    ensures
        match active {
            Some(said) => answer == Ok::<CancelResult, Error>(said),
            None => if kept is Some {
                answer == Ok::<CancelResult, Error>(CancelResult::AlreadyFinished)
            } else {
                answer matches Err(e) && e@ == ErrorView::NotFound
            },
        },
{
    match active {
        Some(said) => Ok(said),
        None => match kept {
            Some(_) => Ok(CancelResult::AlreadyFinished),
            None => Err(Error::NotFound),
        },
    }
}

/// The identifiers of records.
pub open spec fn record_ids(records: Seq<RunRecordView>) -> Seq<u128> {
    records.map_values(|record: RunRecordView| record.id)
}

/// Reports a shutdown: the runs that are left, as the service shows itself, or that it has
/// stopped, and then whether the journal's worker has ended too.
pub fn shutdown_report(left: Option<&Inspection>, joined: bool) -> (report: ShutdownReport)
    ensures
        match left {
            Some(inspection) => {
                &&& id_views(report.remaining@) == record_ids(record_views(inspection.active@))
                &&& report.journal_degraded == inspection.journal_degraded
                &&& !report.closed
            },
            None => {
                &&& report.remaining@.len() == 0
                &&& !report.journal_degraded
                &&& report.closed == joined
            },
        },
{
    match left {
        None => ShutdownReport { remaining: Vec::new(), journal_degraded: false, closed: joined },
        Some(inspection) => {
            let mut remaining: Vec<RunId> = Vec::new();
            let mut i: usize = 0;
            while i < inspection.active.len()
                invariant
                    i <= inspection.active@.len(),
                    remaining@.len() == i,
                    forall|j: int|
                        0 <= j < i ==> (#[trigger] remaining@[j])@ == inspection.active@[j].id@,
                decreases inspection.active@.len() - i,
            {
                remaining.push(inspection.active[i].id);
                i = i + 1;
            }
            assert(id_views(remaining@) =~= record_ids(record_views(inspection.active@)));
            ShutdownReport {
                remaining,
                journal_degraded: inspection.journal_degraded,
                closed: false,
            }
        },
    }
}

} // verus!
