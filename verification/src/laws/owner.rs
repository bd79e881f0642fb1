//! What the owner of a run does at each point, whatever the run.

use vstd::prelude::*;
use crate::model::{
    CompletionView, ErrorView, JobErrorView, JournalView, OutcomeView, OutputView, RunLogView,
    RunRecordView, RunStateView,
};
use crate::runner::{new_run, stepped, ActionView, Append, EventView, PhaseView, Purpose, RunView};
use crate::time::Timestamp;

verus! {

/// The first thing an owner does is to write the admission of the run it was made for; it keeps
/// the answer port exactly if it was handed one.
pub proof fn admission_is_written_first(record: RunRecordView, skip: bool, reply: bool)
    ensures
        ({
            let begun = stepped(new_run(record, skip), EventView::Begun { reply });
            &&& begun.1 == seq![ActionView::Save(record)]
            &&& begun.0.phase == (PhaseView::Admitting { late: false })
            &&& begun.0.record == record
            &&& begun.0.skip == skip
            &&& begun.0.reply == reply
            &&& begun.0.batch.len() == 0
            &&& begun.0.pending.len() == 0
            &&& begun.0.append is Idle
        }),
{
}

/// A confirmed admission is told to the service as the journal holds it, and nothing else is done
/// until the service decides.
pub proof fn confirmed_admission_is_told(run: RunView, saved: RunRecordView)
    requires
        run.phase is Admitting,
    ensures
        ({
            let next = stepped(run, EventView::Admitted(Ok(saved)));
            &&& next.1 == seq![ActionView::Started(saved)]
            &&& next.0 == (RunView { record: saved, phase: PhaseView::Deciding, ..run })
        }),
{
}

/// An admission that takes too long is told of as a fault once, and stays awaited.
pub proof fn overdue_admission_is_a_fault_once(run: RunView)
    requires
        run.phase == (PhaseView::Admitting { late: false }),
    ensures
        ({
            let late = stepped(run, EventView::ControlTimeout);
            let later = stepped(late.0, EventView::ControlTimeout);
            &&& late.1[0] == ActionView::Fault
            &&& late.1.len() == if run.reply {
                2nat
            } else {
                1nat
            }
            &&& late.0 == (RunView {
                reply: false,
                phase: PhaseView::Admitting { late: true },
                ..run
            })
            &&& later.1.len() == 0
            &&& later.0 == late.0
        }),
{
}

/// A repeated identifier ends the run at once and is no fault of the journal.
pub proof fn repeated_admission_ends_the_run(run: RunView, error: ErrorView)
    requires
        run.phase is Admitting,
        error is AlreadySubmitted,
    ensures
        ({
            let next = stepped(run, EventView::Admitted(Err(error)));
            &&& next.0 == (RunView { reply: false, phase: PhaseView::Ended, ..run })
            &&& next.1.last() == ActionView::Done
            &&& !next.1.contains(ActionView::Fault)
            &&& next.1.len() == if run.reply {
                2nat
            } else {
                1nat
            }
        }),
{
}

/// Every other failed admission is a fault; the owner pauses for a second and asks for the
/// journal's health. If the failure rules the run out it then ends; else the record is read back.
pub proof fn failed_admission_is_cleared_up(run: RunView, error: ErrorView)
    requires
        run.phase is Admitting,
        !(error is AlreadySubmitted),
    ensures
        ({
            let failed = stepped(run, EventView::Admitted(Err(error)));
            let woken = stepped(failed.0, EventView::Woken);
            let healthy = stepped(woken.0, EventView::Healthy(true));
            &&& failed.1[0] == ActionView::Fault
            &&& failed.1.last() == ActionView::Pause(1)
            &&& failed.1.len() == if run.reply {
                3nat
            } else {
                2nat
            }
            &&& woken.1 == seq![ActionView::Check]
            &&& error is AdmissionFailed ==> healthy.1 == seq![ActionView::Done]
                && healthy.0.phase is Ended
            &&& !(error is AdmissionFailed) ==> healthy.1 == seq![ActionView::Read]
                && healthy.0.phase is ReadingBack
            &&& healthy.0 == (RunView { reply: false, phase: healthy.0.phase, ..run })
        }),
{
}

/// A record that is read back decides: a run with a result shows it and ends, one without goes on
/// as admitted, and one that the journal does not hold ends without a trace. If it cannot be
/// read, the owner pauses, asks for the journal's health, and reads again.
pub proof fn record_read_back_decides(run: RunView, saved: RunRecordView, error: ErrorView)
    requires
        run.phase is ReadingBack,
    ensures
        ({
            let next = stepped(run, EventView::Got(Ok(Some(saved))));
            if saved.state is Finished {
                &&& next.1 == seq![ActionView::Progress(saved, false), ActionView::Done]
                &&& next.0.phase is Ended
            } else {
                &&& next.1 == seq![ActionView::Started(saved)]
                &&& next.0 == (RunView { record: saved, phase: PhaseView::Deciding, ..run })
            }
        }),
        ({
            let next = stepped(run, EventView::Got(Ok(None)));
            next.1 == seq![ActionView::Done] && next.0.phase is Ended
        }),
        ({
            let failed = stepped(run, EventView::Got(Err(error)));
            let woken = stepped(failed.0, EventView::Woken);
            let healthy = stepped(woken.0, EventView::Healthy(true));
            &&& failed.1 == seq![ActionView::Pause(1)]
            &&& woken.1 == seq![ActionView::Check]
            &&& healthy.1 == seq![ActionView::Read]
            &&& healthy.0 == run
        }),
{
}

/// Once the service decided, the log buffer is opened, and the handler is run exactly if it may
/// start and the run does not merely record a collision; else the run is skipped or cancelled, and
/// children are waited for at once.
pub proof fn decision_is_followed(run: RunView, start: bool)
    requires
        run.phase is Deciding,
    ensures
        ({
            let next = stepped(run, EventView::Decided(start));
            let n = next.1.len() as int;
            &&& n == if run.reply {
                3int
            } else {
                2int
            }
            &&& next.1[n - 2] == ActionView::OpenLogs
            &&& next.1[n - 1] == if start && !run.skip {
                ActionView::Execute
            } else {
                ActionView::Drain
            }
            &&& start && !run.skip ==> next.0 == (RunView {
                reply: false,
                record: RunRecordView { state: RunStateView::Running, ..run.record },
                phase: PhaseView::Executing { returned: None },
                ..run
            })
            &&& !start || run.skip ==> next.0 == (RunView {
                reply: false,
                phase: PhaseView::Draining {
                    completion: CompletionView {
                        outcome: if run.skip {
                            OutcomeView::Skipped
                        } else {
                            OutcomeView::Cancelled
                        },
                        output: OutputView::Nothing,
                        journal: JournalView::Durable,
                    },
                },
                ..run
            })
        }),
{
}

/// When the handler returns, the service is shown the running record, marked as uncertain exactly
/// if the handler panicked. A second return is not heard.
pub proof fn return_is_shown(run: RunView, completion: CompletionView, again: CompletionView)
    requires
        run.phase == (PhaseView::Executing { returned: None }),
    ensures
        ({
            let next = stepped(run, EventView::Returned(completion));
            let uncertain = completion.outcome matches OutcomeView::Failed(e) && e.code
                == "panicked"@;
            &&& next.1 == seq![ActionView::Progress(run.record, uncertain)]
            &&& next.0 == (RunView {
                phase: PhaseView::Executing { returned: Some(completion) },
                ..run
            })
            &&& stepped(next.0, EventView::Returned(again)) == (next.0, Seq::<ActionView>::empty())
        }),
{
}

/// A task that ends without a returned completion, or fails after it, ends as panicked; children
/// are then waited for.
pub proof fn lost_task_ends_as_panicked(
    run: RunView,
    returned: Option<CompletionView>,
    ended: bool,
)
    requires
        run.phase == (PhaseView::Executing { returned }),
    ensures
        ({
            let next = stepped(run, EventView::TaskEnded(ended));
            let lost = CompletionView {
                outcome: OutcomeView::Failed(
                    JobErrorView {
                        code: "panicked"@,
                        message: "Execution wrapper panicked"@,
                    },
                ),
                output: OutputView::Nothing,
                journal: JournalView::Durable,
            };
            let completion = if ended && returned is Some {
                returned->0
            } else {
                lost
            };
            &&& next.1 == seq![ActionView::Drain]
            &&& next.0 == (RunView { phase: PhaseView::Draining { completion }, ..run })
        }),
{
}

/// While no batch is under way, logs that are handed over are written at once with those that
/// wait; while one is under way or has failed, they wait and nothing is written.
pub proof fn handed_logs_are_written_or_wait(run: RunView, logs: Seq<RunLogView>)
    requires
        run.phase is Executing,
    ensures
        ({
            let next = stepped(run, EventView::LogTimer(logs));
            if run.append is Idle && run.pending + logs != Seq::<RunLogView>::empty() {
                &&& next.1 == seq![ActionView::Append(run.pending + logs)]
                &&& next.0 == (RunView {
                    batch: run.pending + logs,
                    pending: Seq::empty(),
                    append: Append::InFlight { late: false },
                    ..run
                })
            } else {
                &&& next.1.len() == 0
                &&& next.0 == (RunView { pending: run.pending + logs, ..run })
            }
        }),
{
    let next = stepped(run, EventView::LogTimer(logs));
    if run.append is Idle && run.pending + logs == Seq::<RunLogView>::empty() {
        assert((run.pending + logs).len() == 0);
        assert(run.pending =~= run.pending + logs);
    }
    if (run.pending + logs).len() == 0 {
        assert(run.pending + logs =~= Seq::<RunLogView>::empty());
    }
}

/// A batch that takes too long is a fault, once. One that was written is forgotten; one that
/// failed is a fault, and its logs wait, before those that came later, for the result.
pub proof fn batch_ends(run: RunView, late: bool)
    requires
        run.phase is Executing,
        run.append == (Append::InFlight { late }),
    ensures
        ({
            let next = stepped(run, EventView::AppendTimeout);
            &&& next.0 == (RunView { append: Append::InFlight { late: true }, ..run })
            &&& next.1 == if late {
                Seq::empty()
            } else {
                seq![ActionView::Fault]
            }
        }),
        stepped(run, EventView::Appended(true)) == (
            RunView { append: Append::Idle, batch: Seq::empty(), ..run },
            Seq::<ActionView>::empty(),
        ),
        stepped(run, EventView::Appended(false)) == (
            RunView {
                append: Append::Failed,
                batch: Seq::empty(),
                pending: run.batch + run.pending,
                ..run
            },
            seq![ActionView::Fault],
        ),
{
}

/// A batch that ends after the handler did goes with the result, whether it was written or not.
pub proof fn late_batch_goes_with_the_result(run: RunView, ok: bool)
    requires
        run.phase is Draining || run.phase is Sealing,
        run.append is InFlight,
    ensures
        stepped(run, EventView::Appended(ok)) == (
            RunView {
                append: Append::Idle,
                batch: Seq::empty(),
                pending: run.batch + run.pending,
                ..run
            },
            Seq::<ActionView>::empty(),
        ),
{
}

/// Once children and delegations are over the run is shown as finalizing, and only then is the
/// log buffer sealed.
pub proof fn drained_run_is_sealed(run: RunView, completion: CompletionView)
    requires
        run.phase == (PhaseView::Draining { completion }),
    ensures
        ({
            let next = stepped(run, EventView::Drained);
            let record = RunRecordView { state: RunStateView::Finalizing, ..run.record };
            &&& next.1 == seq![ActionView::Progress(record, false), ActionView::Seal]
            &&& next.0 == (RunView { record, phase: PhaseView::Sealing { completion }, ..run })
        }),
{
}

/// The record that is written has the completion, the counters of the sealed buffer and the time;
/// everything else in it stays. It is written with every log that is not known to be written:
/// at once, or, if a batch is still under way, when that batch ended.
pub proof fn sealed_record_is_written(
    run: RunView,
    completion: CompletionView,
    tail: Seq<RunLogView>,
    sequence: u64,
    dropped: u64,
    at: Timestamp,
    ok: bool,
)
    requires
        run.phase == (PhaseView::Sealing { completion }),
    ensures
        ({
            let sealed = stepped(run, EventView::Sealed { tail, sequence, dropped, at });
            let record = RunRecordView {
                id: run.record.id,
                job: run.record.job,
                definition_version: run.record.definition_version,
                trigger: run.record.trigger,
                scheduled_at: run.record.scheduled_at,
                admitted_at: run.record.admitted_at,
                admission_sequence: run.record.admission_sequence,
                finished_at: Some(at),
                state: RunStateView::Finished(completion),
                last_log_sequence: sequence,
                dropped_log_count: dropped,
            };
            let written = seq![ActionView::Finish(record, run.batch + run.pending + tail)];
            &&& sealed.0.record == record
            &&& sealed.0.pending == run.batch + run.pending + tail
            &&& sealed.0.batch.len() == 0
            &&& run.append is InFlight ==> sealed.1.len() == 0 && sealed.0.phase == (
            PhaseView::Flushing { late: false }) && stepped(
                sealed.0,
                EventView::Appended(ok),
            ).1 == written
            &&& !(run.append is InFlight) ==> sealed.1 == written && sealed.0.phase == (
            PhaseView::Saving { late: false, pause: 1 })
        }),
{
}

/// A result that is not durable in time is shown meanwhile, with a fault and a degraded journal
/// that names what is late, and once; the write itself stays awaited.
pub proof fn late_result_is_shown_once(
    run: RunView,
    late: bool,
    pause: u64,
    completion: CompletionView,
)
    requires
        run.phase == (PhaseView::Flushing { late }) || run.phase == (PhaseView::Saving {
            late,
            pause,
        }),
        run.record.state == RunStateView::Finished(completion),
    ensures
        ({
            let next = stepped(run, EventView::FinalizationTimeout);
            let code = if run.phase is Flushing {
                "log_flush_timeout"@
            } else {
                "finalization_timeout"@
            };
            let shown = RunRecordView {
                state: RunStateView::Finished(
                    CompletionView { journal: JournalView::Degraded(code), ..completion },
                ),
                ..run.record
            };
            &&& next.1 == if late {
                Seq::empty()
            } else {
                seq![ActionView::Fault, ActionView::Progress(shown, false)]
            }
            &&& next.0 == (RunView {
                phase: if run.phase is Flushing {
                    PhaseView::Flushing { late: true }
                } else {
                    PhaseView::Saving { late: true, pause }
                },
                ..run
            })
        }),
{
}

/// Once a batch that was waited for ended, the result is written with everything that waits.
pub proof fn flushed_run_is_written(run: RunView, ok: bool)
    requires
        run.phase is Flushing,
    ensures
        stepped(run, EventView::Appended(ok)) == (
            RunView {
                append: Append::Idle,
                phase: PhaseView::Saving { late: false, pause: 1 },
                ..run
            },
            seq![ActionView::Finish(run.record, run.pending)],
        ),
{
}

/// A result that was written is shown as it is, and retention is applied. One that was not is
/// shown with a fault and a degraded journal, and written again after the pause.
pub proof fn saved_or_tried_again(
    run: RunView,
    late: bool,
    pause: u64,
    completion: CompletionView,
)
    requires
        run.phase == (PhaseView::Saving { late, pause }),
        run.record.state == RunStateView::Finished(completion),
    ensures
        stepped(run, EventView::Saved(true)) == (
            RunView { phase: PhaseView::Pruning, ..run },
            seq![ActionView::Progress(run.record, false), ActionView::Prune],
        ),
        ({
            let shown = RunRecordView {
                state: RunStateView::Finished(
                    CompletionView {
                        journal: JournalView::Degraded("commit_failed"@),
                        ..completion
                    },
                ),
                ..run.record
            };
            let failed = stepped(run, EventView::Saved(false));
            let again = stepped(failed.0, EventView::Woken);
            &&& failed.0 == (RunView { phase: PhaseView::Pausing { pause }, ..run })
            &&& failed.1 == seq![
                ActionView::Fault,
                ActionView::Progress(shown, false),
                ActionView::Pause(pause),
            ]
            &&& again.1 == seq![ActionView::Finish(run.record, run.pending)]
            &&& again.0 == (RunView { phase: again.0.phase, ..run })
            &&& again.0.phase matches PhaseView::Saving { late: false, pause: longer } && longer
                == if pause * 2 < 30 {
                pause * 2
            } else {
                30
            }
        }),
{
}

/// A run ends once retention was applied. If that failed, it is a fault, and the run ends once
/// the journal is healthy.
pub proof fn run_ends_after_retention(run: RunView)
    requires
        run.phase is Pruning,
    ensures
        stepped(run, EventView::Pruned(true)) == (
            RunView { phase: PhaseView::Ended, ..run },
            seq![ActionView::Done],
        ),
        ({
            let failed = stepped(run, EventView::Pruned(false));
            let woken = stepped(failed.0, EventView::Woken);
            let healthy = stepped(woken.0, EventView::Healthy(true));
            &&& failed.1 == seq![ActionView::Fault, ActionView::Pause(1)]
            &&& woken.1 == seq![ActionView::Check]
            &&& healthy == (RunView { phase: PhaseView::Ended, ..run }, seq![ActionView::Done])
        }),
{
}

/// A failed health check is followed by a pause of twice the length, up to thirty seconds, and
/// what the health is waited for stays.
pub proof fn failed_check_doubles_the_pause(run: RunView, purpose: Purpose, pause: u64)
    requires
        run.phase == (PhaseView::Checking { purpose, pause }),
        pause <= 30,
    ensures
        ({
            let next = stepped(run, EventView::Healthy(false));
            let longer = if pause < 15 {
                (2 * pause) as u64
            } else {
                30u64
            };
            &&& next.1 == seq![ActionView::Pause(longer)]
            &&& next.0 == (RunView {
                phase: PhaseView::Healing { purpose, pause: longer },
                ..run
            })
        }),
{
}

/// After every pause the journal's health is asked for, whatever it is waited for; once it is
/// healthy, a record that is to be read back is read, and any other run ends.
pub proof fn healthy_journal_is_used(run: RunView, woken: RunView, purpose: Purpose, pause: u64)
    requires
        run.phase == (PhaseView::Healing { purpose, pause }),
        woken.phase == (PhaseView::Checking { purpose, pause }),
    ensures
        stepped(run, EventView::Woken) == (
            RunView { phase: PhaseView::Checking { purpose, pause }, ..run },
            seq![ActionView::Check],
        ),
        stepped(woken, EventView::Healthy(true)) == match purpose {
            Purpose::ReadBack => (
                RunView { phase: PhaseView::ReadingBack, ..woken },
                seq![ActionView::Read],
            ),
            Purpose::NotAdmitted => (
                RunView { phase: PhaseView::Ended, ..woken },
                seq![ActionView::Done],
            ),
            Purpose::Cleanup => (
                RunView { phase: PhaseView::Ended, ..woken },
                seq![ActionView::Done],
            ),
        },
{
}

/// The service is told that a run ended exactly when its owner comes to its end, once and last; an
/// owner that came to its end does nothing more.
pub proof fn end_is_told_once(run: RunView, event: EventView)
    ensures
        ({
            let next = stepped(run, event);
            &&& run.phase is Ended ==> next == (run, Seq::<ActionView>::empty())
            &&& !(run.phase is Ended) && next.0.phase is Ended ==> next.1.len() > 0
                && next.1.last() == ActionView::Done
            &&& !(next.0.phase is Ended) ==> !next.1.contains(ActionView::Done)
            &&& forall|k: int|
                0 <= k < next.1.len() - 1 ==> #[trigger] next.1[k] != ActionView::Done
        }),
{
}

/// Whether an event belongs to a phase.
pub open spec fn belongs(phase: PhaseView, event: EventView) -> bool {
    match event {
        EventView::Begun { .. } => phase is Waiting,
        EventView::ControlTimeout => phase is Admitting,
        EventView::Admitted(_) => phase is Admitting,
        EventView::Woken => phase is Healing || phase is Pausing,
        EventView::Healthy(_) => phase is Checking,
        EventView::Got(_) => phase is ReadingBack,
        EventView::Decided(_) => phase is Deciding,
        EventView::Returned(_) | EventView::TaskEnded(_) | EventView::LogTimer(_) => phase
            is Executing,
        EventView::AppendTimeout => phase is Executing,
        EventView::Appended(_) => phase is Executing || phase is Draining || phase is Sealing
            || phase is Flushing,
        EventView::Drained => phase is Draining,
        EventView::Sealed { .. } => phase is Sealing,
        EventView::FinalizationTimeout => phase is Flushing || phase is Saving,
        EventView::Saved(_) => phase is Saving,
        EventView::Pruned(_) => phase is Pruning,
    }
}

/// An event that is not waited for changes nothing and is answered by nothing; nor does news of a
/// batch where none is under way.
pub proof fn stray_events_change_nothing(run: RunView, event: EventView)
    requires
        !belongs(run.phase, event) || (event is Appended || event is AppendTimeout) && !(
        run.append is InFlight) && !(run.phase is Flushing),
    ensures
        stepped(run, event) == (run, Seq::<ActionView>::empty()),
{
}

} // verus!
