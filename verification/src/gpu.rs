//! The choices the renderer makes from what the GPU, the window surface
//! and the compiled shader report: queue family, swapchain configuration,
//! memory type, compute dispatch size, descriptor layout, and what to do
//! after acquiring and presenting a frame.
//!
//! Vulkan enumerations and flags are handled as their raw integer values.

use crate::shader::{ParamKind, ParamKindView, ShaderParam, ShaderParamView, params_view, DEFAULT_RAND_COUNT};
use vstd::prelude::*;

verus! {

// ------------------------------------------------------------
// Physical device and queue family
// ------------------------------------------------------------

/// What the renderer knows of one queue family: whether it supports
/// graphics, and whether it can present to the surface (`None` when the
/// query failed).
pub struct QueueFamilyInfo {
    pub graphics: bool,
    pub present: Option<bool>,
}

/// A family that can both render and present.
pub open spec fn family_suitable(f: QueueFamilyInfo) -> bool {
    f.graphics && f.present == Some(true)
}

/// Picks the device and queue family to render and present with: the
/// first device (in enumeration order) that has a family supporting both
/// graphics and presentation to the surface, and the first such family.
pub fn choose_queue_family(devices: &Vec<Vec<QueueFamilyInfo>>) -> (chosen: Option<(usize, u32)>)
    requires
        forall|d: int| 0 <= d < devices@.len() ==> #[trigger] devices@[d]@.len() <= u32::MAX,
    ensures
        match chosen {
            Some((d, q)) => {
                &&& d < devices@.len()
                &&& q < devices@[d as int]@.len()
                &&& family_suitable(devices@[d as int]@[q as int])
                &&& forall|p: int| 0 <= p < q ==> !family_suitable(#[trigger] devices@[d as int]@[p])
                &&& forall|e: int, p: int|
                    0 <= e < d && 0 <= p < devices@[e]@.len() ==> !family_suitable(
                        #[trigger] devices@[e]@[p],
                    )
            },
            None => forall|e: int, p: int|
                0 <= e < devices@.len() && 0 <= p < devices@[e]@.len() ==> !family_suitable(
                    #[trigger] devices@[e]@[p],
                ),
        },
{
    let mut d: usize = 0;
    while d < devices.len()
        invariant
            d <= devices@.len(),
            forall|e: int| 0 <= e < devices@.len() ==> #[trigger] devices@[e]@.len() <= u32::MAX,
            forall|e: int, p: int|
                0 <= e < d && 0 <= p < devices@[e]@.len() ==> !family_suitable(
                    #[trigger] devices@[e]@[p],
                ),
        decreases devices.len() - d,
    {
        let families = &devices[d];
        assert(families@.len() <= u32::MAX);
        let mut q: usize = 0;
        while q < families.len()
            invariant
                d < devices@.len(),
                families@ == devices@[d as int]@,
                families@.len() <= u32::MAX,
                forall|e: int, p: int|
                    0 <= e < d && 0 <= p < devices@[e]@.len() ==> !family_suitable(
                        #[trigger] devices@[e]@[p],
                    ),
                q <= families@.len(),
                forall|p: int| 0 <= p < q ==> !family_suitable(#[trigger] families@[p]),
            decreases families.len() - q,
        {
            let family = &families[q];
            if family.graphics && family.present == Some(true) {
                return Some((d, q as u32));
            }
            q += 1;
        }
        d += 1;
    }
    None
}

// ------------------------------------------------------------
// Swapchain configuration
// ------------------------------------------------------------

/// Index of the first of `formats` equal to `preferred`, else 0.
pub open spec fn spec_choose_format(formats: Seq<i32>, preferred: i32) -> int
    decreases formats.len(),
{
    if formats.len() == 0 {
        0
    } else if formats.last() == preferred && !formats.drop_last().contains(preferred) {
        formats.len() - 1
    } else {
        spec_choose_format(formats.drop_last(), preferred)
    }
}

/// Picks the surface format: the first one the surface offers that is
/// `preferred`, otherwise the first one offered.
pub fn choose_surface_format(formats: &Vec<i32>, preferred: i32) -> (index: usize)
    requires
        formats@.len() > 0,
    ensures
        index < formats@.len(),
        formats@.contains(preferred) ==> formats@[index as int] == preferred && forall|k: int|
            0 <= k < index ==> formats@[k] != preferred,
        !formats@.contains(preferred) ==> index == 0,
{
    let mut i: usize = 0;
    while i < formats.len()
        invariant
            i <= formats@.len(),
            forall|k: int| 0 <= k < i ==> formats@[k] != preferred,
        decreases formats.len() - i,
    {
        if formats[i] == preferred {
            return i;
        }
        i += 1;
    }
    assert(!formats@.contains(preferred));
    0
}

/// Picks the present mode: `preferred` when the surface offers it,
/// otherwise `fallback` (FIFO, which every surface supports).
pub fn choose_present_mode(modes: &Vec<i32>, preferred: i32, fallback: i32) -> (mode: i32)
    ensures
        mode == if modes@.contains(preferred) {
            preferred
        } else {
            fallback
        },
{
    let mut i: usize = 0;
    while i < modes.len()
        invariant
            i <= modes@.len(),
            forall|k: int| 0 <= k < i ==> modes@[k] != preferred,
        decreases modes.len() - i,
    {
        if modes[i] == preferred {
            return preferred;
        }
        i += 1;
    }
    fallback
}

/// `value` clamped to `[low, high]`.
pub open spec fn clamp(value: int, low: int, high: int) -> int {
    if value < low {
        low
    } else if value > high {
        high
    } else {
        value
    }
}

/// One side of the swapchain extent: clamped to the surface's range, and
/// at least one pixel.
pub open spec fn extent_side(value: u32, low: u32, high: u32) -> u32 {
    let c = clamp(value as int, low as int, high as int);
    (if c < 1 {
        1
    } else {
        c
    }) as u32
}

fn clamp_side(value: u32, low: u32, high: u32) -> (side: u32)
    requires
        low <= high,
    ensures
        side == extent_side(value, low, high),
{
    let c = if value < low {
        low
    } else if value > high {
        high
    } else {
        value
    };
    if c < 1 {
        1
    } else {
        c
    }
}

/// Picks the swapchain extent: the surface's current extent, or the
/// window's size when the window system leaves it open (width `u32::MAX`),
/// clamped to the surface's minimum and maximum extents and at least one
/// pixel on each side.
pub fn choose_extent(current: (u32, u32), window: (u32, u32), min: (u32, u32), max: (u32, u32)) -> (extent: (u32, u32))
    requires
        min.0 <= max.0,
        min.1 <= max.1,
    ensures
        ({
            let base = if current.0 != u32::MAX {
                current
            } else {
                window
            };
            extent == (extent_side(base.0, min.0, max.0), extent_side(base.1, min.1, max.1))
        }),
        extent.0 >= 1 && extent.1 >= 1,
        max.0 >= 1 ==> extent.0 <= max.0,
        max.1 >= 1 ==> extent.1 <= max.1,
{
    let base = if current.0 != u32::MAX {
        current
    } else {
        window
    };
    (clamp_side(base.0, min.0, max.0), clamp_side(base.1, min.1, max.1))
}

/// Picks the number of swapchain images: one more than the surface's
/// minimum, capped at its maximum when it has one (a maximum of 0 means no
/// limit).
pub fn choose_image_count(min_count: u32, max_count: u32) -> (count: u32)
    requires
        min_count < u32::MAX,
    ensures
        count == if max_count > 0 && max_count < min_count + 1 {
            max_count
        } else {
            (min_count + 1) as u32
        },
        max_count > 0 ==> count <= max_count,
        max_count >= min_count ==> count >= min_count,
{
    let count = min_count + 1;
    if max_count > 0 && max_count < count {
        max_count
    } else {
        count
    }
}

// ------------------------------------------------------------
// Memory
// ------------------------------------------------------------

/// Memory type `index` is allowed by `type_filter` and has every property
/// bit in `wanted`.
pub open spec fn memory_type_fits(type_filter: u32, flags: u32, index: int, wanted: u32) -> bool {
    (type_filter >> (index as u32)) & 1 == 1 && flags & wanted == wanted
}

/// Picks the first memory type, in the device's order, that the resource
/// allows (its bit in `type_filter`) and that has all `wanted` property
/// flags; `type_flags` holds the property flags of each memory type.
pub fn find_memory_type(type_filter: u32, type_flags: &Vec<u32>, wanted: u32) -> (index: Option<u32>)
    requires
        type_flags@.len() <= 32,
    ensures
        match index {
            Some(i) => i < type_flags@.len() && memory_type_fits(
                type_filter,
                type_flags@[i as int],
                i as int,
                wanted,
            ) && forall|k: int|
                0 <= k < i ==> !memory_type_fits(type_filter, #[trigger] type_flags@[k], k, wanted),
            None => forall|k: int|
                0 <= k < type_flags@.len() ==> !memory_type_fits(
                    type_filter,
                    #[trigger] type_flags@[k],
                    k,
                    wanted,
                ),
        },
{
    let mut i: u32 = 0;
    while (i as usize) < type_flags.len()
        invariant
            type_flags@.len() <= 32,
            i <= type_flags@.len(),
            forall|k: int|
                0 <= k < i ==> !memory_type_fits(type_filter, #[trigger] type_flags@[k], k, wanted),
        decreases type_flags@.len() - i,
    {
        let flags = type_flags[i as usize];
        let allowed = type_filter & (1u32 << i) != 0;
        assert(i < 32 ==> ((type_filter & (1u32 << i) != 0) == ((type_filter >> i) & 1 == 1)))
            by (bit_vector);
        if allowed && flags & wanted == wanted {
            return Some(i);
        }
        i += 1;
    }
    None
}

// ------------------------------------------------------------
// Compute dispatch and descriptors
// ------------------------------------------------------------

/// `ceil(extent / group)`, with a zero group size counting as one.
pub open spec fn groups_needed(extent: u32, group: u32) -> int {
    let g = if group == 0 {
        1
    } else {
        group as int
    };
    (extent as int + g - 1) / g
}

fn div_ceil(extent: u32, group: u32) -> (n: u32)
    ensures
        n as int == groups_needed(extent, group),
{
    let g = if group == 0 {
        1
    } else {
        group
    };
    let q = extent / g;
    proof {
        let gi = g as int;
        let e = extent as int;
        assert(e == gi * (e / gi) + e % gi) by (nonlinear_arith)
            requires
                gi > 0,
        ;
        assert((e + gi - 1) / gi == if e % gi == 0 {
            e / gi
        } else {
            e / gi + 1
        }) by (nonlinear_arith)
            requires
                gi > 0,
                e >= 0,
                e == gi * (e / gi) + e % gi,
                0 <= e % gi < gi,
        ;
        assert(q <= extent);
        if extent % g != 0 {
            assert(e / gi < e) by (nonlinear_arith)
                requires
                    gi > 1,
                    e > 0,
            ;
        }
    }
    if extent % g != 0 {
        q + 1
    } else {
        q
    }
}

/// The number of work groups that covers a `width` x `height` image with
/// the kernel's thread group size.
pub fn group_count(width: u32, height: u32, group_size: [u32; 3]) -> (count: [u32; 3])
    ensures
        count@[0] == groups_needed(width, group_size@[0]),
        count@[1] == groups_needed(height, group_size@[1]),
        count@[2] == 1,
{
    [div_ceil(width, group_size[0]), div_ceil(height, group_size[1]), 1]
}

/// The dispatch covers the whole image, and no smaller dispatch would:
/// `count * group >= extent > (count - 1) * group` (no groups for an empty
/// image).
pub proof fn lemma_group_count_covers(extent: u32, group: u32)
    ensures
        ({
            let g = if group == 0 {
                1
            } else {
                group as int
            };
            let n = groups_needed(extent, group);
            &&& n * g >= extent
            &&& extent > 0 ==> (n - 1) * g < extent
            &&& extent == 0 ==> n == 0
        }),
{
    let g = if group == 0 {
        1
    } else {
        group as int
    };
    let e = extent as int;
    let n = (e + g - 1) / g;
    assert(n * g >= e && (e == 0 || (n - 1) * g < e)) by (nonlinear_arith)
        requires
            g >= 1,
            e >= 0,
            n == (e + g - 1) / g,
    ;
    if e == 0 {
        assert(n == 0) by (nonlinear_arith)
            requires
                g >= 1,
                n == (0 + g - 1) / g,
        ;
    }
}

/// How a kernel parameter is bound.
#[derive(Clone, Copy, Debug, PartialEq, Eq, Structural)]
pub enum DescriptorKind {
    /// A storage buffer (the random float buffer).
    StorageBuffer,
    /// A storage image (the output texture).
    StorageImage,
}

/// The descriptor kind of a parameter the viewer supplies.
pub open spec fn descriptor_kind_of(kind: ParamKindView) -> DescriptorKind {
    match kind {
        ParamKindView::RandomFloatBuffer => DescriptorKind::StorageBuffer,
        _ => DescriptorKind::StorageImage,
    }
}

/// One descriptor binding per kernel parameter, at the binding index
/// slangc assigned: a storage buffer for the random float buffer, a
/// storage image for the output texture.
pub fn descriptor_bindings(parameters: &Vec<ShaderParam>) -> (bindings: Vec<(u32, DescriptorKind)>)
    requires
        forall|k: int|
            0 <= k < parameters@.len() ==> !(#[trigger] parameters@[k].kind is Unsupported),
    ensures
        bindings@.len() == parameters@.len(),
        forall|k: int|
            0 <= k < parameters@.len() ==> #[trigger] bindings@[k] == (
                parameters@[k].binding,
                descriptor_kind_of(parameters@[k].kind@),
            ),
{
    let mut bindings: Vec<(u32, DescriptorKind)> = Vec::new();
    let mut i: usize = 0;
    while i < parameters.len()
        invariant
            i <= parameters@.len(),
            bindings@.len() == i,
            forall|k: int|
                0 <= k < parameters@.len() ==> !(#[trigger] parameters@[k].kind is Unsupported),
            forall|k: int|
                0 <= k < i ==> #[trigger] bindings@[k] == (
                    parameters@[k].binding,
                    descriptor_kind_of(parameters@[k].kind@),
                ),
        decreases parameters.len() - i,
    {
        let param = &parameters[i];
        let kind = match param.kind {
            ParamKind::RandomFloatBuffer => DescriptorKind::StorageBuffer,
            _ => DescriptorKind::StorageImage,
        };
        bindings.push((param.binding, kind));
        i += 1;
    }
    bindings
}

/// Index of the first random float buffer parameter.
pub open spec fn first_random_buffer(params: Seq<ShaderParamView>, from: int) -> Option<int>
    decreases params.len() - from,
{
    if from < 0 || from >= params.len() {
        None
    } else if params[from].kind is RandomFloatBuffer {
        Some(from)
    } else {
        first_random_buffer(params, from + 1)
    }
}

/// What [`first_random_buffer`] finds: the first random float buffer
/// parameter at or after `from`, or `None` when there is none.
pub proof fn lemma_first_random_buffer(params: Seq<ShaderParamView>, from: int)
    requires
        0 <= from,
    ensures
        match first_random_buffer(params, from) {
            Some(i) => from <= i < params.len() && params[i].kind is RandomFloatBuffer && forall|j: int|
                from <= j < i ==> !((#[trigger] params[j]).kind is RandomFloatBuffer),
            None => forall|j: int| from <= j < params.len() ==> !((#[trigger] params[j]).kind is RandomFloatBuffer),
        },
    decreases params.len() - from,
{
    if from < params.len() && !(params[from].kind is RandomFloatBuffer) {
        lemma_first_random_buffer(params, from + 1);
    }
}

/// The number of floats in the kernel's random buffer, when it declares
/// one: the `[playground::RAND(n)]` count of its first random float buffer
/// parameter, else [`DEFAULT_RAND_COUNT`].
pub fn random_buffer_len(parameters: &Vec<ShaderParam>) -> (len: Option<u32>)
    ensures
        len == match first_random_buffer(params_view(parameters@), 0) {
            Some(i) => Some(
                match params_view(parameters@)[i].rand_count {
                    Some(n) => n,
                    None => DEFAULT_RAND_COUNT,
                },
            ),
            None => None,
        },
{
    let mut i: usize = 0;
    while i < parameters.len()
        invariant
            i <= parameters@.len(),
            first_random_buffer(params_view(parameters@), 0) == first_random_buffer(
                params_view(parameters@),
                i as int,
            ),
        decreases parameters.len() - i,
    {
        assert(params_view(parameters@)[i as int] == parameters@[i as int]@);
        if let ParamKind::RandomFloatBuffer = parameters[i].kind {
            return Some(
                match parameters[i].rand_count {
                    Some(n) => n,
                    None => DEFAULT_RAND_COUNT,
                },
            );
        }
        i += 1;
    }
    None
}

/// Size in bytes of a buffer of `count` 32-bit floats.
pub fn float_buffer_size(count: u32) -> (size: u64)
    ensures
        size == 4 * count,
{
    (count as u64) * 4
}

// ------------------------------------------------------------
// Frames
// ------------------------------------------------------------

/// The outcome of acquiring a swapchain image.
pub enum AcquireOutcome {
    Acquired { image_index: u32, suboptimal: bool },
    /// The swapchain no longer matches the surface.
    OutOfDate,
    /// Any other error, by its raw result code.
    Failed(i32),
}

/// The outcome of presenting a frame.
pub enum PresentOutcome {
    Presented { suboptimal: bool },
    OutOfDate,
    Failed(i32),
}

/// What the frame loop does next.
#[derive(PartialEq, Eq, Structural)]
pub enum FrameAction {
    /// Record and submit commands for this swapchain image.
    Render(u32),
    /// The frame is done.
    Continue,
    /// Rebuild the swapchain and everything sized by it; the frame is
    /// skipped.
    Recreate,
    /// Stop with this error code.
    Abort(i32),
}

/// After acquiring an image: render into it, or rebuild the swapchain when
/// it is out of date or merely suboptimal, or stop on any other error.
pub fn after_acquire(outcome: AcquireOutcome) -> (action: FrameAction)
    ensures
        action == match outcome {
            AcquireOutcome::Acquired { image_index, suboptimal } => if suboptimal {
                FrameAction::Recreate
            } else {
                FrameAction::Render(image_index)
            },
            AcquireOutcome::OutOfDate => FrameAction::Recreate,
            AcquireOutcome::Failed(code) => FrameAction::Abort(code),
        },
{
    match outcome {
        AcquireOutcome::Acquired { image_index, suboptimal } => if suboptimal {
            FrameAction::Recreate
        } else {
            FrameAction::Render(image_index)
        },
        AcquireOutcome::OutOfDate => FrameAction::Recreate,
        AcquireOutcome::Failed(code) => FrameAction::Abort(code),
    }
}

/// After presenting: the frame is done, unless the swapchain is out of date
/// or suboptimal (rebuild it) or presenting failed otherwise (stop).
pub fn after_present(outcome: PresentOutcome) -> (action: FrameAction)
    ensures
        action == match outcome {
            PresentOutcome::Presented { suboptimal } => if suboptimal {
                FrameAction::Recreate
            } else {
                FrameAction::Continue
            },
            PresentOutcome::OutOfDate => FrameAction::Recreate,
            PresentOutcome::Failed(code) => FrameAction::Abort(code),
        },
{
    match outcome {
        PresentOutcome::Presented { suboptimal } => if suboptimal {
            FrameAction::Recreate
        } else {
            FrameAction::Continue
        },
        PresentOutcome::OutOfDate => FrameAction::Recreate,
        PresentOutcome::Failed(code) => FrameAction::Abort(code),
    }
}

} // verus!
