//! The decisions of one GPU run, as a state machine driven by what the device
//! reports. The caller performs each returned action and hands back the
//! outcome as the next event; the machine decides what happens next.
use crate::dispatch::{job_accepted, plan_job, GpuError, JobLayout, ELEMENT_BYTES, WORKGROUP_EDGE};
use vstd::prelude::*;

verus! {

/// Where a run stands.
#[derive(Clone, Copy, Debug, PartialEq, Eq, Structural)]
pub enum Stage {
    /// An adapter has been requested.
    AwaitAdapter,
    /// A device and its queue have been requested from the adapter.
    AwaitDevice,
    /// The job was submitted; the output staging buffer is being mapped.
    AwaitResultMap,
    /// The output was read; the timestamp staging buffer is being mapped.
    AwaitTimestampMap,
    /// The result, and the timestamps if asked for, were read.
    Finished,
    /// The run stopped on an error.
    Failed { error: GpuError },
}

/// What the device reported.
#[derive(Clone, Copy, Debug, PartialEq, Eq, Structural)]
pub enum Event {
    /// The adapter request completed; `true` when an adapter was found.
    Adapter { found: bool },
    /// The device request completed; `true` when the device was granted.
    Device { granted: bool },
    /// The output staging buffer's mapping completed; `true` on success.
    ResultMapped { ok: bool },
    /// The timestamp staging buffer's mapping completed; `true` on success.
    TimestampsMapped { ok: bool },
}

/// What the caller does next.
#[derive(Clone, Copy, Debug, PartialEq, Eq, Structural)]
pub enum Action {
    /// Request a device, with the timestamp-query feature when `timestamps` holds.
    RequestDevice { timestamps: bool },
    /// Allocate the job's buffers, encode its commands, submit them, request
    /// the mapping of the staging buffers and wait for the device.
    Submit { layout: JobLayout },
    /// Copy the mapped output into the host matrix and unmap its buffer.
    ReadResult,
    /// Read the mapped timestamp pair and unmap its buffer.
    ReadTimestamps,
    /// Stop with the error.
    Abort { error: GpuError },
    /// Nothing: the event does not belong to this stage.
    Ignore,
}

/// What a run is asked to compute.
#[derive(Clone, Copy, Debug, PartialEq, Eq, Structural)]
pub struct JobRequest {
    pub size: usize,
    pub a_len: usize,
    pub b_len: usize,
    pub out_len: usize,
    pub repeats: u32,
    pub timestamps: bool,
}

/// The request can run.
pub open spec fn request_accepted(job: JobRequest) -> bool {
    job_accepted(
        job.size as int,
        job.a_len as int,
        job.b_len as int,
        job.out_len as int,
        job.repeats as int,
    )
}

/// The layout of an accepted request.
pub open spec fn layout_of(job: JobRequest) -> JobLayout {
    JobLayout {
        size: job.size,
        dimension: job.size as i32,
        matrix_bytes: (ELEMENT_BYTES * job.a_len) as u64,
        workgroups: (job.size / WORKGROUP_EDGE) as u32,
    }
}

/// Stops with `error`.
pub open spec fn fail(error: GpuError) -> (Stage, Action) {
    (Stage::Failed { error }, Action::Abort { error })
}

/// The next stage and action after `event` at `stage`.
pub open spec fn transition(stage: Stage, job: JobRequest, event: Event) -> (Stage, Action) {
    match (stage, event) {
        (Stage::AwaitAdapter, Event::Adapter { found }) => if found {
            (Stage::AwaitDevice, Action::RequestDevice { timestamps: job.timestamps })
        } else {
            fail(GpuError::NoCompatibleDevice)
        },
        (Stage::AwaitDevice, Event::Device { granted }) => if !granted {
            fail(GpuError::DeviceRequest)
        } else if !request_accepted(job) {
            fail(GpuError::PreconditionViolation)
        } else {
            (Stage::AwaitResultMap, Action::Submit { layout: layout_of(job) })
        },
        (Stage::AwaitResultMap, Event::ResultMapped { ok }) => if !ok {
            fail(GpuError::MappingFailed)
        } else if job.timestamps {
            (Stage::AwaitTimestampMap, Action::ReadResult)
        } else {
            (Stage::Finished, Action::ReadResult)
        },
        (Stage::AwaitTimestampMap, Event::TimestampsMapped { ok }) => if !ok {
            fail(GpuError::MappingFailed)
        } else {
            (Stage::Finished, Action::ReadTimestamps)
        },
        _ => (stage, Action::Ignore),
    }
}

/// The actions of a run that starts at `stage` and meets `events` in order.
pub open spec fn actions(stage: Stage, job: JobRequest, events: Seq<Event>) -> Seq<Action>
    decreases events.len(),
{
    if events.len() == 0 {
        Seq::empty()
    } else {
        let (next, action) = transition(stage, job, events[0]);
        seq![action] + actions(next, job, events.subrange(1, events.len() as int))
    }
}

/// The stage that a run starting at `stage` reaches after `events`.
pub open spec fn stage_after(stage: Stage, job: JobRequest, events: Seq<Event>) -> Stage
    decreases events.len(),
{
    if events.len() == 0 {
        stage
    } else {
        stage_after(
            transition(stage, job, events[0]).0,
            job,
            events.subrange(1, events.len() as int),
        )
    }
}

/// One GPU run.
pub struct Session {
    pub stage: Stage,
    pub job: JobRequest,
}

impl Session {
    /// A run of `job` that has just requested an adapter.
    pub fn new(job: JobRequest) -> (r: Session)
        ensures
            r.stage == Stage::AwaitAdapter,
            r.job == job,
    {
        Session { stage: Stage::AwaitAdapter, job }
    }

    /// Takes what the device reported and returns what to do next.
    pub fn advance(&mut self, event: Event) -> (r: Action)
        ensures
            final(self).job == old(self).job,
            (final(self).stage, r) == transition(old(self).stage, old(self).job, event),
    {
        let job = self.job;
        let (next, action) = match (self.stage, event) {
            (Stage::AwaitAdapter, Event::Adapter { found }) => {
                if found {
                    (Stage::AwaitDevice, Action::RequestDevice { timestamps: job.timestamps })
                } else {
                    Self::stop(GpuError::NoCompatibleDevice)
                }
            },
            (Stage::AwaitDevice, Event::Device { granted }) => {
                if !granted {
                    Self::stop(GpuError::DeviceRequest)
                } else {
                    match plan_job(job.size, job.a_len, job.b_len, job.out_len, job.repeats) {
                        Ok(layout) => (Stage::AwaitResultMap, Action::Submit { layout }),
                        Err(error) => Self::stop(error),
                    }
                }
            },
            (Stage::AwaitResultMap, Event::ResultMapped { ok }) => {
                if !ok {
                    Self::stop(GpuError::MappingFailed)
                } else if job.timestamps {
                    (Stage::AwaitTimestampMap, Action::ReadResult)
                } else {
                    (Stage::Finished, Action::ReadResult)
                }
            },
            (Stage::AwaitTimestampMap, Event::TimestampsMapped { ok }) => {
                if !ok {
                    Self::stop(GpuError::MappingFailed)
                } else {
                    (Stage::Finished, Action::ReadTimestamps)
                }
            },
            _ => (self.stage, Action::Ignore),
        };
        self.stage = next;
        action
    }

    fn stop(error: GpuError) -> (r: (Stage, Action))
        ensures
            r == fail(error),
    {
        (Stage::Failed { error }, Action::Abort { error })
    }
}

proof fn lemma_actions_len(stage: Stage, job: JobRequest, events: Seq<Event>)
    ensures
        actions(stage, job, events).len() == events.len(),
    decreases events.len(),
{
    if events.len() > 0 {
        let rest = events.subrange(1, events.len() as int);
        lemma_actions_len(transition(stage, job, events[0]).0, job, rest);
    }
}

/// A run that stopped stays stopped and does nothing more.
pub proof fn lemma_failed_is_final(error: GpuError, job: JobRequest, events: Seq<Event>)
    ensures
        stage_after(Stage::Failed { error }, job, events) == (Stage::Failed { error }),
        forall|k: int|
            0 <= k < events.len() ==> #[trigger] actions(Stage::Failed { error }, job, events)[k]
                == Action::Ignore,
    decreases events.len(),
{
    if events.len() > 0 {
        let rest = events.subrange(1, events.len() as int);
        lemma_failed_is_final(error, job, rest);
        lemma_actions_len(Stage::Failed { error }, job, rest);
        assert forall|k: int| 0 <= k < events.len() implies #[trigger] actions(
            Stage::Failed { error },
            job,
            events,
        )[k] == Action::Ignore by {
            if k > 0 {
                assert(actions(Stage::Failed { error }, job, events)[k] == actions(
                    Stage::Failed { error },
                    job,
                    rest,
                )[k - 1]);
            }
        }
    }
}

/// When no adapter is found, the run stops with `NoCompatibleDevice` and never
/// submits a job, so nothing is allocated.
pub proof fn lemma_no_adapter_fails_fast(job: JobRequest, events: Seq<Event>)
    requires
        events.len() > 0,
        events[0] == (Event::Adapter { found: false }),
    ensures
        stage_after(Stage::AwaitAdapter, job, events) == (Stage::Failed {
            error: GpuError::NoCompatibleDevice,
        }),
        actions(Stage::AwaitAdapter, job, events)[0] == (Action::Abort {
            error: GpuError::NoCompatibleDevice,
        }),
        forall|k: int|
            0 <= k < events.len() ==> !(#[trigger] actions(Stage::AwaitAdapter, job, events)[k] is Submit),
{
    let rest = events.subrange(1, events.len() as int);
    let error = GpuError::NoCompatibleDevice;
    lemma_failed_is_final(error, job, rest);
    lemma_actions_len(Stage::Failed { error }, job, rest);
    assert forall|k: int| 0 <= k < events.len() implies !(#[trigger] actions(
        Stage::AwaitAdapter,
        job,
        events,
    )[k] is Submit) by {
        if k > 0 {
            assert(actions(Stage::AwaitAdapter, job, events)[k] == actions(
                Stage::Failed { error },
                job,
                rest,
            )[k - 1]);
        }
    }
}

/// A job that does not fit (a size that is not a positive multiple of the
/// work-group edge, or matrices of the wrong length) is never submitted, from
/// any stage and whatever the device reports.
pub proof fn lemma_rejected_job_never_submitted(stage: Stage, job: JobRequest, events: Seq<Event>)
    requires
        !request_accepted(job),
    ensures
        forall|k: int|
            0 <= k < events.len() ==> !(#[trigger] actions(stage, job, events)[k] is Submit),
    decreases events.len(),
{
    if events.len() > 0 {
        let rest = events.subrange(1, events.len() as int);
        let next = transition(stage, job, events[0]).0;
        lemma_rejected_job_never_submitted(next, job, rest);
        lemma_actions_len(next, job, rest);
        assert forall|k: int| 0 <= k < events.len() implies !(#[trigger] actions(
            stage,
            job,
            events,
        )[k] is Submit) by {
            if k > 0 {
                assert(actions(stage, job, events)[k] == actions(next, job, rest)[k - 1]);
            }
        }
    }
}

/// Every job that a run submits was accepted, and is submitted with its own layout.
pub proof fn lemma_submit_only_accepted(stage: Stage, job: JobRequest, events: Seq<Event>)
    ensures
        forall|k: int|
            0 <= k < events.len() && #[trigger] actions(stage, job, events)[k] is Submit
                ==> request_accepted(job) && actions(stage, job, events)[k] == (Action::Submit {
                layout: layout_of(job),
            }),
    decreases events.len(),
{
    if events.len() > 0 {
        let rest = events.subrange(1, events.len() as int);
        let next = transition(stage, job, events[0]).0;
        lemma_submit_only_accepted(next, job, rest);
        lemma_actions_len(next, job, rest);
        assert forall|k: int|
            0 <= k < events.len() && #[trigger] actions(stage, job, events)[k] is Submit implies request_accepted(job)
            && actions(stage, job, events)[k] == (Action::Submit { layout: layout_of(job) }) by {
            if k > 0 {
                assert(actions(stage, job, events)[k] == actions(next, job, rest)[k - 1]);
            }
        }
    }
}

} // verus!
