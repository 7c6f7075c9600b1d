use gpu_matmul::dispatch::{
    elapsed_ticks, encode_commands, flop_count, plan_job, GpuCommand, GpuError, JobLayout,
};
use gpu_matmul::session::{Action, Event, JobRequest, Session, Stage};

fn request(size: usize, timestamps: bool) -> JobRequest {
    JobRequest {
        size,
        a_len: size * size,
        b_len: size * size,
        out_len: size * size,
        repeats: 3,
        timestamps,
    }
}

#[test]
fn accepted_job_layout() {
    let layout = plan_job(256, 65536, 65536, 65536, 3).unwrap();
    assert_eq!(
        layout,
        JobLayout { size: 256, dimension: 256, matrix_bytes: 262144, workgroups: 4 }
    );
    let small = plan_job(64, 4096, 4096, 4096, 1).unwrap();
    assert_eq!(small.workgroups, 1);
    assert_eq!(small.matrix_bytes, 16384);
}

#[test]
fn size_not_a_multiple_of_the_edge_is_rejected() {
    assert_eq!(plan_job(100, 10000, 10000, 10000, 3), Err(GpuError::PreconditionViolation));
    assert_eq!(plan_job(2, 4, 4, 4, 3), Err(GpuError::PreconditionViolation));
    assert_eq!(plan_job(0, 0, 0, 0, 3), Err(GpuError::PreconditionViolation));
}

#[test]
fn mismatched_lengths_are_rejected() {
    assert_eq!(plan_job(64, 4095, 4096, 4096, 3), Err(GpuError::PreconditionViolation));
    assert_eq!(plan_job(64, 4096, 4097, 4096, 3), Err(GpuError::PreconditionViolation));
    assert_eq!(plan_job(64, 4096, 4096, 1, 3), Err(GpuError::PreconditionViolation));
    assert_eq!(plan_job(64, 4096, 4096, 4096, 0), Err(GpuError::PreconditionViolation));
}

#[test]
fn commands_with_timestamps() {
    let layout = plan_job(128, 16384, 16384, 16384, 3).unwrap();
    let commands = encode_commands(&layout, 3, true);
    let dispatch = GpuCommand::Dispatch { groups_x: 2, groups_y: 2 };
    assert_eq!(
        commands,
        vec![
            GpuCommand::WriteTimestamp { slot: 0 },
            dispatch,
            dispatch,
            dispatch,
            GpuCommand::WriteTimestamp { slot: 1 },
            GpuCommand::ResolveTimestamps,
            GpuCommand::CopyResult { bytes: 65536 },
            GpuCommand::CopyTimestamps { bytes: 16 },
        ]
    );
}

#[test]
fn commands_without_timestamps() {
    let layout = plan_job(64, 4096, 4096, 4096, 2).unwrap();
    let commands = encode_commands(&layout, 2, false);
    let dispatch = GpuCommand::Dispatch { groups_x: 1, groups_y: 1 };
    assert_eq!(commands, vec![dispatch, dispatch, GpuCommand::CopyResult { bytes: 16384 }]);
}

#[test]
fn ticks_between_timestamps() {
    assert_eq!(elapsed_ticks(10, 25), Some(15));
    assert_eq!(elapsed_ticks(7, 7), Some(0));
    assert_eq!(elapsed_ticks(25, 10), None);
}

#[test]
fn flops_of_a_product() {
    assert_eq!(flop_count(2), Some(16));
    assert_eq!(flop_count(64), Some(524288));
    assert_eq!(flop_count(4096), Some(137438953472));
    assert_eq!(flop_count(1 << 22), None);
    assert_eq!(flop_count(0), Some(0));
}

#[test]
fn no_adapter_fails_before_anything_is_submitted() {
    let mut session = Session::new(request(64, true));
    let action = session.advance(Event::Adapter { found: false });
    assert_eq!(action, Action::Abort { error: GpuError::NoCompatibleDevice });
    assert_eq!(session.stage, Stage::Failed { error: GpuError::NoCompatibleDevice });
    assert_eq!(session.advance(Event::Device { granted: true }), Action::Ignore);
    assert_eq!(session.stage, Stage::Failed { error: GpuError::NoCompatibleDevice });
}

#[test]
fn device_refused() {
    let mut session = Session::new(request(64, true));
    assert_eq!(
        session.advance(Event::Adapter { found: true }),
        Action::RequestDevice { timestamps: true }
    );
    assert_eq!(
        session.advance(Event::Device { granted: false }),
        Action::Abort { error: GpuError::DeviceRequest }
    );
}

#[test]
fn bad_size_is_rejected_before_dispatch() {
    let mut session = Session::new(request(100, false));
    session.advance(Event::Adapter { found: true });
    assert_eq!(
        session.advance(Event::Device { granted: true }),
        Action::Abort { error: GpuError::PreconditionViolation }
    );
    assert_eq!(session.stage, Stage::Failed { error: GpuError::PreconditionViolation });
}

#[test]
fn full_run_with_timestamps() {
    let mut session = Session::new(request(64, true));
    session.advance(Event::Adapter { found: true });
    assert_eq!(
        session.advance(Event::Device { granted: true }),
        Action::Submit {
            layout: JobLayout { size: 64, dimension: 64, matrix_bytes: 16384, workgroups: 1 }
        }
    );
    assert_eq!(session.advance(Event::ResultMapped { ok: true }), Action::ReadResult);
    assert_eq!(session.stage, Stage::AwaitTimestampMap);
    assert_eq!(session.advance(Event::TimestampsMapped { ok: true }), Action::ReadTimestamps);
    assert_eq!(session.stage, Stage::Finished);
}

#[test]
fn full_run_without_timestamps() {
    let mut session = Session::new(request(64, false));
    session.advance(Event::Adapter { found: true });
    session.advance(Event::Device { granted: true });
    assert_eq!(session.advance(Event::ResultMapped { ok: true }), Action::ReadResult);
    assert_eq!(session.stage, Stage::Finished);
}

#[test]
fn mapping_failure_is_fatal() {
    let mut session = Session::new(request(64, true));
    session.advance(Event::Adapter { found: true });
    session.advance(Event::Device { granted: true });
    assert_eq!(
        session.advance(Event::ResultMapped { ok: false }),
        Action::Abort { error: GpuError::MappingFailed }
    );
    let mut late = Session::new(request(64, true));
    late.advance(Event::Adapter { found: true });
    late.advance(Event::Device { granted: true });
    late.advance(Event::ResultMapped { ok: true });
    assert_eq!(
        late.advance(Event::TimestampsMapped { ok: false }),
        Action::Abort { error: GpuError::MappingFailed }
    );
}

#[test]
fn event_out_of_turn_is_ignored() {
    let mut session = Session::new(request(64, true));
    assert_eq!(session.advance(Event::ResultMapped { ok: true }), Action::Ignore);
    assert_eq!(session.stage, Stage::AwaitAdapter);
}
