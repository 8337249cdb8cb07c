//! Integer decisions of the GPU backend: buffer extents and the checks made
//! before a frame is handed to the GPU pipeline.
use vstd::prelude::*;
use crate::text::{decimal, owned, push_decimal, push_str};

verus! {

/// Framebuffer extent the GPU buffers are allocated for: GPU buffers cannot
/// be empty, so each dimension is at least one cell.
pub fn pipeline_extent(width: u32, height: u32) -> (r: (u32, u32))
    ensures
        r.0 == (if width == 0 { 1 } else { width }),
        r.1 == (if height == 0 { 1 } else { height }),
{
    (if width == 0 { 1 } else { width }, if height == 0 { 1 } else { height })
}

/// Bytes per cell of the largest framebuffer-sized GPU buffer (an RGB color
/// of three `f32`s).
pub const LARGEST_CELL_BYTES: u64 = 12;

/// Message when the framebuffer-sized GPU buffers would exceed the device limits.
pub open spec fn extent_limit_message(width: u32, height: u32) -> Seq<char> {
    "GPU framebuffer "@ + decimal(width as nat) + "x"@ + decimal(height as nat)
        + " exceeds the device buffer limits"@
}

/// Whether the framebuffer-sized buffers for `width`×`height` cells fit the
/// device: the largest (`LARGEST_CELL_BYTES` per cell) must fit both the
/// maximum buffer size and the maximum storage binding size. Checked before
/// any allocation, so a refused size leaves an existing pipeline untouched.
/// On success the result is the cell count.
pub fn check_gpu_extent(width: u32, height: u32, max_buffer_size: u64, max_binding_size: u64) -> (r: Result<u64, String>)
    ensures
        ({
            let bytes = width * height * LARGEST_CELL_BYTES;
            if bytes <= max_buffer_size && bytes <= max_binding_size {
                r == Ok::<u64, String>((width * height) as u64)
            } else {
                r matches Err(e) && e@ == extent_limit_message(width, height)
            }
        }),
{
    proof {
        assert((width as int) * (height as int) <= 0xffff_ffff * 0xffff_ffff) by (nonlinear_arith)
            requires
                width <= 0xffff_ffff,
                height <= 0xffff_ffff,
        ;
    }
    let cells: u64 = width as u64 * height as u64;
    let bytes: u128 = cells as u128 * 12;
    if bytes > max_buffer_size as u128 || bytes > max_binding_size as u128 {
        let mut m = owned("GPU framebuffer ");
        push_decimal(&mut m, width as u64);
        push_str(&mut m, "x");
        push_decimal(&mut m, height as u64);
        push_str(&mut m, " exceeds the device buffer limits");
        assert(m@ =~= extent_limit_message(width, height));
        return Err(m);
    }
    Ok(cells)
}

/// Message when the framebuffer is wider than the GPU can address.
pub open spec fn width_limit_message() -> Seq<char> {
    "framebuffer width exceeds the GPU u32 limit"@
}

/// Message when the framebuffer is taller than the GPU can address.
pub open spec fn height_limit_message() -> Seq<char> {
    "framebuffer height exceeds the GPU u32 limit"@
}

/// Message when the pipeline was built for another framebuffer size.
pub open spec fn size_mismatch_message(pipeline: (u32, u32), width: nat, height: nat) -> Seq<char> {
    "GPU pipeline is "@ + decimal(pipeline.0 as nat) + "x"@ + decimal(pipeline.1 as nat)
        + " but framebuffer is "@ + decimal(width) + "x"@ + decimal(height)
        + "; call RasterPipeline::resize first"@
}

/// The checks before a GPU frame of a `width`×`height` framebuffer with a
/// pipeline allocated for `pipeline` cells: both dimensions must fit in
/// `u32`; an empty framebuffer needs no GPU work (`Ok(None)`); otherwise the
/// pipeline must have been sized for this framebuffer, and the frame is
/// rendered at `Some((width, height))`.
pub fn gpu_frame_dimensions(width: usize, height: usize, pipeline: (u32, u32)) -> (r: Result<Option<(u32, u32)>, String>)
    ensures
        width > u32::MAX ==> (r matches Err(e) && e@ == width_limit_message()),
        width <= u32::MAX && height > u32::MAX ==> (r matches Err(e) && e@ == height_limit_message()),
        width <= u32::MAX && height <= u32::MAX && (width == 0 || height == 0) ==> r == Ok::<
            Option<(u32, u32)>,
            String,
        >(None),
        width <= u32::MAX && height <= u32::MAX && width != 0 && height != 0 ==> if pipeline.0 == width
            && pipeline.1 == height {
            r == Ok::<Option<(u32, u32)>, String>(Some((width as u32, height as u32)))
        } else {
            (r matches Err(e) && e@ == size_mismatch_message(pipeline, width as nat, height as nat))
        },
{
    if width > 0xffff_ffff {
        return Err(owned("framebuffer width exceeds the GPU u32 limit"));
    }
    if height > 0xffff_ffff {
        return Err(owned("framebuffer height exceeds the GPU u32 limit"));
    }
    if width == 0 || height == 0 {
        return Ok(None);
    }
    let w = width as u32;
    let h = height as u32;
    if pipeline.0 != w || pipeline.1 != h {
        let mut m = owned("GPU pipeline is ");
        push_decimal(&mut m, pipeline.0 as u64);
        push_str(&mut m, "x");
        push_decimal(&mut m, pipeline.1 as u64);
        push_str(&mut m, " but framebuffer is ");
        push_decimal(&mut m, width as u64);
        push_str(&mut m, "x");
        push_decimal(&mut m, height as u64);
        push_str(&mut m, "; call RasterPipeline::resize first");
        assert(m@ =~= size_mismatch_message(pipeline, width as nat, height as nat));
        return Err(m);
    }
    Ok(Some((w, h)))
}

} // verus!
