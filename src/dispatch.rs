//! The plan of one GPU compute job: which jobs are accepted, how large its
//! buffers are, how many work-groups it dispatches, and the command sequence
//! that the device runs, together with the integer arithmetic of its timing.
use vstd::prelude::*;

verus! {

/// Edge length of the square tile of output entries that one work-group computes.
pub const WORKGROUP_EDGE: usize = 64;

/// Bytes of one matrix element, a 32-bit float.
pub const ELEMENT_BYTES: u64 = 4;

/// Bytes of the resolved timestamp pair, two 64-bit counters.
pub const TIMESTAMP_PAIR_BYTES: u64 = 16;

/// Why a GPU run stopped.
#[derive(Clone, Copy, Debug, PartialEq, Eq, Structural)]
pub enum GpuError {
    /// The matrices do not match the size, or the size does not fit the work-group tiling.
    PreconditionViolation,
    /// No compute-capable adapter is available.
    NoCompatibleDevice,
    /// An adapter exists but the device with the requested features could not be had.
    DeviceRequest,
    /// Mapping a staging buffer for reading failed.
    MappingFailed,
}

/// The validated shape of one compute job.
#[derive(Clone, Copy, Debug, PartialEq, Eq, Structural)]
pub struct JobLayout {
    /// Matrix dimension.
    pub size: usize,
    /// The dimension as the kernel reads it from its scalar buffer.
    pub dimension: i32,
    /// Bytes of each of the three matrices.
    pub matrix_bytes: u64,
    /// Work-groups along each of the two axes.
    pub workgroups: u32,
}

/// A job of dimension `size` over matrices of `a_len`, `b_len` and `out_len`
/// elements, dispatched `repeats` times, can run.
pub open spec fn job_accepted(size: int, a_len: int, b_len: int, out_len: int, repeats: int) -> bool {
    &&& 0 < size <= i32::MAX
    &&& size % WORKGROUP_EDGE as int == 0
    &&& a_len == size * size
    &&& b_len == a_len
    &&& out_len == a_len
    &&& repeats > 0
}

/// Checks a job before anything is allocated for it and computes its layout.
pub fn plan_job(size: usize, a_len: usize, b_len: usize, out_len: usize, repeats: u32) -> (r: Result<
    JobLayout,
    GpuError,
>)
    ensures
        r.is_ok() == job_accepted(
            size as int,
            a_len as int,
            b_len as int,
            out_len as int,
            repeats as int,
        ),
        r matches Ok(l) ==> l.size == size && l.dimension == size && l.matrix_bytes
            == ELEMENT_BYTES * a_len && l.workgroups == size / WORKGROUP_EDGE,
        r matches Err(e) ==> e == GpuError::PreconditionViolation,
{
    if size == 0 || size > i32::MAX as usize || size % WORKGROUP_EDGE != 0 || repeats == 0 {
        return Err(GpuError::PreconditionViolation);
    }
    let edge = size as u64;
    assert(edge * edge <= 0x3fff_ffff_0000_0001) by (nonlinear_arith)
        requires
            edge <= 0x7fff_ffff,
    ;
    let elements = edge * edge;
    if a_len as u64 != elements || b_len != a_len || out_len != a_len {
        return Err(GpuError::PreconditionViolation);
    }
    Ok(
        JobLayout {
            size,
            dimension: size as i32,
            matrix_bytes: ELEMENT_BYTES * elements,
            workgroups: (size / WORKGROUP_EDGE) as u32,
        },
    )
}

/// One command of the sequence that the device runs for a job.
#[derive(Clone, Copy, Debug, PartialEq, Eq, Structural)]
pub enum GpuCommand {
    /// Record the device clock into the given slot of the query set.
    WriteTimestamp { slot: u32 },
    /// One compute pass: bind the pipeline and the buffers, dispatch a grid of work-groups.
    Dispatch { groups_x: u32, groups_y: u32 },
    /// Resolve both timestamp slots into the timestamp buffer.
    ResolveTimestamps,
    /// Copy the output matrix into the host-readable staging buffer.
    CopyResult { bytes: u64 },
    /// Copy the resolved timestamps into their host-readable staging buffer.
    CopyTimestamps { bytes: u64 },
}

/// `count` identical dispatches of the job's full grid.
pub open spec fn dispatches(layout: JobLayout, count: nat) -> Seq<GpuCommand> {
    Seq::new(
        count,
        |i: int| GpuCommand::Dispatch { groups_x: layout.workgroups, groups_y: layout.workgroups },
    )
}

/// The command sequence of a job: the repeated dispatches, bracketed by
/// timestamps when they are asked for, then the copies back to the host.
pub open spec fn command_plan(layout: JobLayout, repeats: nat, timestamps: bool) -> Seq<GpuCommand> {
    if timestamps {
        seq![GpuCommand::WriteTimestamp { slot: 0 }] + dispatches(layout, repeats) + seq![
            GpuCommand::WriteTimestamp { slot: 1 },
            GpuCommand::ResolveTimestamps,
            GpuCommand::CopyResult { bytes: layout.matrix_bytes },
            GpuCommand::CopyTimestamps { bytes: TIMESTAMP_PAIR_BYTES },
        ]
    } else {
        dispatches(layout, repeats) + seq![GpuCommand::CopyResult { bytes: layout.matrix_bytes }]
    }
}

/// Builds the command sequence of a job.
pub fn encode_commands(layout: &JobLayout, repeats: u32, timestamps: bool) -> (r: Vec<GpuCommand>)
    ensures
        r@ == command_plan(*layout, repeats as nat, timestamps),
{
    let mut commands: Vec<GpuCommand> = Vec::new();
    if timestamps {
        commands.push(GpuCommand::WriteTimestamp { slot: 0 });
    }
    let ghost start = commands@.len();
    let mut i: u32 = 0;
    while i < repeats
        invariant
            i <= repeats,
            start == if timestamps {
                1int
            } else {
                0int
            },
            commands@.len() == start + i,
            timestamps ==> commands@[0] == (GpuCommand::WriteTimestamp { slot: 0 }),
            commands@.subrange(start as int, commands@.len() as int) == dispatches(
                *layout,
                i as nat,
            ),
        decreases repeats - i,
    {
        let ghost prev = commands@;
        commands.push(GpuCommand::Dispatch { groups_x: layout.workgroups, groups_y: layout.workgroups });
        assert(commands@.subrange(start as int, commands@.len() as int) =~= prev.subrange(
            start as int,
            prev.len() as int,
        ).push(GpuCommand::Dispatch { groups_x: layout.workgroups, groups_y: layout.workgroups }));
        assert(commands@.subrange(start as int, commands@.len() as int) =~= dispatches(
            *layout,
            (i + 1) as nat,
        ));
        i += 1;
    }
    if timestamps {
        commands.push(GpuCommand::WriteTimestamp { slot: 1 });
        commands.push(GpuCommand::ResolveTimestamps);
    }
    commands.push(GpuCommand::CopyResult { bytes: layout.matrix_bytes });
    if timestamps {
        commands.push(GpuCommand::CopyTimestamps { bytes: TIMESTAMP_PAIR_BYTES });
    }
    assert(commands@ =~= command_plan(*layout, repeats as nat, timestamps));
    commands
}

/// Device clock ticks between two timestamps, or `None` when the end precedes the start.
pub fn elapsed_ticks(start: u64, end: u64) -> (r: Option<u64>)
    ensures
        r == if start <= end {
            Some((end - start) as u64)
        } else {
            None::<u64>
        },
{
    if start <= end {
        Some(end - start)
    } else {
        None
    }
}

/// Floating-point operations of one product of dimension `size`: a multiply and
/// an add for each of the `size^3` inner-product terms. `None` when it exceeds `u64`.
pub fn flop_count(size: u64) -> (r: Option<u64>)
    ensures
        r matches Some(v) ==> v == 2 * size * size * size,
        r.is_none() == (2 * size * size * size > u64::MAX),
{
    let square = size.checked_mul(size);
    match square {
        None => {
            assert(2 * size * size * size > u64::MAX) by (nonlinear_arith)
                requires
                    size * size > u64::MAX,
            ;
            None
        },
        Some(sq) => {
            match sq.checked_mul(size) {
                None => {
                    assert(2 * size * size * size > u64::MAX) by (nonlinear_arith)
                        requires
                            sq * size > u64::MAX,
                            sq == size * size,
                    ;
                    None
                },
                Some(cube) => {
                    assert(2 * size * size * size == 2 * cube) by (nonlinear_arith)
                        requires
                            cube == sq * size,
                            sq == size * size,
                    ;
                    cube.checked_mul(2)
                },
            }
        },
    }
}

} // verus!
