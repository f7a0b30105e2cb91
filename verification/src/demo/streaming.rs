//! Which generated chunk meshes the render thread keeps on the GPU.
use vstd::prelude::*;

verus! {

/// Chunk mesh uploads per scan.
pub const MAX_CHUNK_GPU_UPLOADS_PER_FRAME: usize = 3;

/// Chunk mesh evictions per scan.
pub const MAX_CHUNK_GPU_EVICTIONS_PER_FRAME: usize = 3;

/// Scans a resident chunk may stay out of view before it is evicted.
pub const INVISIBLE_GRACE_FRAMES: u32 = 5;

/// GPU residency of one chunk mesh.
#[derive(Clone, Copy, Debug, PartialEq, Eq, Structural)]
pub struct ChunkResidency {
    pub resident: bool,
    pub invisible_frames: u32,
}

/// What to do with a chunk in this scan.
#[derive(Clone, Copy, Debug, PartialEq, Eq, Structural)]
pub enum ResidencyAction {
    /// Nothing to upload or evict.
    Keep,
    /// Upload the mesh; report success with `upload_done`.
    Upload,
    /// Remove the mesh from the GPU.
    Evict,
}

/// The residency decision for one chunk: a chunk off the GPU is uploaded
/// when visible and upload budget is left; a resident visible chunk has its
/// out-of-view count reset; a resident invisible chunk counts one more scan
/// out of view and is evicted once it has been out of view for more than
/// `INVISIBLE_GRACE_FRAMES` scans while eviction budget is left (which is
/// then spent).
pub fn plan_residency(
    entry: &mut ChunkResidency,
    visible: bool,
    upload_budget: usize,
    evict_budget: &mut usize,
) -> (r: ResidencyAction)
    requires
        old(entry).invisible_frames < u32::MAX,
    ensures
        !old(entry).resident ==> *final(entry) == *old(entry) && *final(evict_budget) == *old(
            evict_budget,
        ) && r == (if visible && upload_budget > 0 {
            ResidencyAction::Upload
        } else {
            ResidencyAction::Keep
        }),
        old(entry).resident && visible ==> *final(entry) == (ChunkResidency {
            resident: true,
            invisible_frames: 0,
        }) && *final(evict_budget) == *old(evict_budget) && r == ResidencyAction::Keep,
        old(entry).resident && !visible ==> ({
            let n = old(entry).invisible_frames + 1;
            let evict = n > INVISIBLE_GRACE_FRAMES && *old(evict_budget) > 0;
            &&& final(entry).invisible_frames == n
            &&& final(entry).resident == !evict
            &&& *final(evict_budget) == (if evict { *old(evict_budget) - 1 } else { *old(evict_budget) as int })
            &&& r == (if evict { ResidencyAction::Evict } else { ResidencyAction::Keep })
        }),
{
    if !entry.resident {
        if visible && upload_budget > 0 {
            ResidencyAction::Upload
        } else {
            ResidencyAction::Keep
        }
    } else if visible {
        entry.invisible_frames = 0;
        ResidencyAction::Keep
    } else {
        entry.invisible_frames = entry.invisible_frames + 1;
        if entry.invisible_frames > INVISIBLE_GRACE_FRAMES && *evict_budget > 0 {
            entry.resident = false;
            *evict_budget = *evict_budget - 1;
            ResidencyAction::Evict
        } else {
            ResidencyAction::Keep
        }
    }
}

/// Records a successful upload: the chunk is resident and in view, and one
/// upload of the budget is spent.
pub fn upload_done(entry: &mut ChunkResidency, upload_budget: &mut usize)
    requires
        *old(upload_budget) > 0,
    ensures
        *final(entry) == (ChunkResidency { resident: true, invisible_frames: 0 }),
        *final(upload_budget) == *old(upload_budget) - 1,
{
    entry.resident = true;
    entry.invisible_frames = 0;
    *upload_budget = *upload_budget - 1;
}

/// Advances the render-frame counter; residency is scanned every fourth
/// frame.
pub fn next_scan(counter: u32) -> (r: (u32, bool))
    ensures
        r.0 == (if counter == u32::MAX { 0 } else { counter + 1 }),
        r.1 == (r.0 % 4 == 0),
{
    let c = counter.wrapping_add(1);
    (c, c % 4 == 0)
}

} // verus!
