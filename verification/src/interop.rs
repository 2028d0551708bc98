//! The buffers that the decoder and the renderer share on the GPU.
use vstd::prelude::*;

use crate::planes::{plane_sizes, PlaneSizes};
use crate::text::decimal;

verus! {

/// Number of buffer sets: one is written while the other is read.
pub const NUM_BUFFER_SETS: usize = 2;

/// A buffer to be created.
#[derive(Debug)]
pub struct BufferRequest {
    pub label: String,
    pub size: u64,
}

/// What to create for frames of one size.
#[derive(Debug)]
pub struct SharedBufferPlan {
    pub width: u32,
    pub height: u32,
    pub sizes: PlaneSizes,
    /// The luma buffer and the two chroma buffers of each set, in the order of creation.
    pub requests: Vec<BufferRequest>,
}

/// Why a shared buffer could not be created. Causes outside of this library are given in words.
#[derive(Debug)]
pub enum SharedBufferFailure {
    Create(String),
    Missing,
    Share(String),
}

impl SharedBufferFailure {
    /// The failure in words, for the buffer with this label.
    pub open spec fn text(&self, label: Seq<char>) -> Seq<char> {
        match *self {
            SharedBufferFailure::Create(cause) => "CreateCommittedResource failed for "@ + label
                + ": "@ + cause@,
            SharedBufferFailure::Missing => "CreateCommittedResource returned null for "@ + label,
            SharedBufferFailure::Share(cause) => "CreateSharedHandle failed for "@ + label + ": "@
                + cause@,
        }
    }

    /// The failure in words, for the buffer with this label.
    pub fn message(&self, label: &str) -> (message: String)
        ensures
            message@ == self.text(label@),
            match *self {
                SharedBufferFailure::Create(cause) => message@
                    == "CreateCommittedResource failed for "@ + label@ + ": "@ + cause@,
                SharedBufferFailure::Missing => message@
                    == "CreateCommittedResource returned null for "@ + label@,
                SharedBufferFailure::Share(cause) => message@
                    == "CreateSharedHandle failed for "@ + label@ + ": "@ + cause@,
            },
    {
        match self {
            SharedBufferFailure::Create(cause) => {
                let mut message = "CreateCommittedResource failed for ".to_owned();
                message.append(label);
                message.append(": ");
                message.append(cause.as_str());
                message
            },
            SharedBufferFailure::Missing => {
                let mut message = "CreateCommittedResource returned null for ".to_owned();
                message.append(label);
                message
            },
            SharedBufferFailure::Share(cause) => {
                let mut message = "CreateSharedHandle failed for ".to_owned();
                message.append(label);
                message.append(": ");
                message.append(cause.as_str());
                message
            },
        }
    }
}

/// The label of the buffer for plane `plane` in set `set`.
pub open spec fn buffer_label(set: nat, plane: int) -> Seq<char> {
    (if plane == 0 {
        "Y-"@
    } else if plane == 1 {
        "U-"@
    } else {
        "V-"@
    }) + crate::text::digits(set)
}

/// `requests` holds the three buffers of each of the first `sets` sets.
pub open spec fn requests_sets(
    requests: Seq<BufferRequest>,
    sizes: PlaneSizes,
    sets: nat,
) -> bool {
    &&& requests.len() == 3 * sets
    &&& forall|i: int|
        0 <= i < requests.len() ==> (#[trigger] requests[i]).label@ == buffer_label(
            (i / 3) as nat,
            i % 3,
        ) && requests[i].size == if i % 3 == 0 {
            sizes.y_size
        } else {
            sizes.uv_size
        }
}

/// A request for one buffer of set `set`.
fn request(letter: &str, set: usize, size: u64) -> (request: BufferRequest)
    ensures
        request.label@ == letter@ + crate::text::digits(set as nat),
        request.size == size,
{
    let mut label = letter.to_owned();
    label.append(decimal(set as u64).as_str());
    BufferRequest { label, size }
}

/// The buffers to create for frames of the given size.
pub fn plan_shared_buffers(width: u32, height: u32) -> (plan: SharedBufferPlan)
    requires
        width <= u32::MAX - 256,
    ensures
        plan.width == width,
        plan.height == height,
        plan.sizes.y_pitch == crate::planes::row_pitch(width as nat),
        plan.sizes.uv_pitch == crate::planes::row_pitch((width / 2) as nat),
        plan.sizes.y_size == crate::planes::row_pitch(width as nat) * height,
        plan.sizes.uv_size == crate::planes::row_pitch((width / 2) as nat) * height,
        requests_sets(plan.requests@, plan.sizes, NUM_BUFFER_SETS as nat),
        plan.sizes.y_pitch % 256 == 0,
        width <= plan.sizes.y_pitch < width + 256,
        plan.sizes.uv_pitch % 256 == 0,
        width / 2 <= plan.sizes.uv_pitch < width / 2 + 256,
        plan.requests@.len() == 6,
        forall|set: int|
            0 <= set < 2 ==> plan.requests@[3 * set].label@ == "Y-"@
                + #[trigger] crate::text::digits(set as nat) && plan.requests@[3 * set + 1].label@
                == "U-"@ + crate::text::digits(set as nat) && plan.requests@[3 * set + 2].label@
                == "V-"@ + crate::text::digits(set as nat) && plan.requests@[3 * set].size
                == plan.sizes.y_pitch * height && plan.requests@[3 * set + 1].size
                == plan.sizes.uv_pitch * height && plan.requests@[3 * set + 2].size
                == plan.sizes.uv_pitch * height,
{
    let sizes = plane_sizes(width, height);
    let mut requests: Vec<BufferRequest> = Vec::new();
    let mut set: usize = 0;
    while set < NUM_BUFFER_SETS
        invariant
            set <= NUM_BUFFER_SETS,
            requests_sets(requests@, sizes, set as nat),
        decreases NUM_BUFFER_SETS - set,
    {
        requests.push(request("Y-", set, sizes.y_size));
        requests.push(request("U-", set, sizes.uv_size));
        requests.push(request("V-", set, sizes.uv_size));
        set += 1;
    }
    SharedBufferPlan { width, height, sizes, requests }
}

/// Each set has a luma buffer and two chroma buffers, in this order, each with the number of the
/// set in its label; another set adds three buffers behind the others.
pub proof fn law_sets_come_one_after_another(
    requests: Seq<BufferRequest>,
    sizes: PlaneSizes,
    sets: nat,
)
    requires
        requests_sets(requests, sizes, sets + 1),
    ensures
        requests.len() == 3 * sets + 3,
        requests_sets(requests.take((3 * sets) as int), sizes, sets),
        requests[3 * sets as int].label@ == "Y-"@ + crate::text::digits(sets),
        requests[3 * sets as int + 1].label@ == "U-"@ + crate::text::digits(sets),
        requests[3 * sets as int + 2].label@ == "V-"@ + crate::text::digits(sets),
        requests[3 * sets as int].size == sizes.y_size,
        requests[3 * sets as int + 1].size == sizes.uv_size,
        requests[3 * sets as int + 2].size == sizes.uv_size,
{
    let at = 3 * sets as int;
    assert(at / 3 == sets && (at + 1) / 3 == sets && (at + 2) / 3 == sets);
    assert(requests[at].size == sizes.y_size);
    assert(requests[at + 1].size == sizes.uv_size);
    assert(requests[at + 2].size == sizes.uv_size);
    let before = requests.take(at);
    assert forall|i: int| 0 <= i < before.len() implies before[i] == requests[i] by {}
}

}
