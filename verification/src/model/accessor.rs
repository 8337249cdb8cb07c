//! Accessor layouts: the checks made on a glTF accessor's type, count, stride
//! and byte range before any of its data is read.
use vstd::prelude::*;
use crate::model::glb::GlbError;

verus! {

/// The component type of an accessor's elements.
#[derive(Clone, Copy, Debug, PartialEq, Eq, Structural)]
pub enum ComponentType {
    /// Signed byte.
    I8,
    /// Unsigned byte.
    U8,
    /// Signed 16-bit integer.
    I16,
    /// Unsigned 16-bit integer.
    U16,
    /// Unsigned 32-bit integer.
    U32,
    /// 32-bit float.
    F32,
}

/// How many components make up one element.
#[derive(Clone, Copy, Debug, PartialEq, Eq, Structural)]
pub enum Dimensions {
    /// One component.
    Scalar,
    /// Two components.
    Vec2,
    /// Three components.
    Vec3,
    /// Four components.
    Vec4,
    /// A 2×2 matrix.
    Mat2,
    /// A 3×3 matrix.
    Mat3,
    /// A 4×4 matrix.
    Mat4,
}

/// The byte size of one component.
pub open spec fn component_size(c: ComponentType) -> nat {
    match c {
        ComponentType::I8 | ComponentType::U8 => 1,
        ComponentType::I16 | ComponentType::U16 => 2,
        ComponentType::U32 | ComponentType::F32 => 4,
    }
}

/// The number of components in one element.
pub open spec fn multiplicity(d: Dimensions) -> nat {
    match d {
        Dimensions::Scalar => 1,
        Dimensions::Vec2 => 2,
        Dimensions::Vec3 => 3,
        Dimensions::Vec4 | Dimensions::Mat2 => 4,
        Dimensions::Mat3 => 9,
        Dimensions::Mat4 => 16,
    }
}

/// The byte size of one element.
pub open spec fn element_size(c: ComponentType, d: Dimensions) -> nat {
    component_size(c) * multiplicity(d)
}

/// A buffer view: a byte range of a buffer, with an optional stride between
/// elements.
#[derive(Clone, Copy, Debug, PartialEq, Eq)]
pub struct ViewLayout {
    /// Index of the buffer the view reads.
    pub buffer: usize,
    /// Offset of the view in the buffer.
    pub offset: usize,
    /// Length of the view in bytes.
    pub length: usize,
    /// Bytes from one element to the next, when not tightly packed.
    pub stride: Option<usize>,
}

/// The sparse part of an accessor: `count` replaced elements, their indices
/// and their values.
#[derive(Clone, Copy, Debug, PartialEq, Eq)]
pub struct SparseLayout {
    /// Number of replaced elements.
    pub count: usize,
    /// Component type of the indices.
    pub index_component: ComponentType,
    /// View holding the indices.
    pub indices_view: ViewLayout,
    /// Offset of the indices in their view.
    pub indices_offset: usize,
    /// View holding the values.
    pub values_view: ViewLayout,
    /// Offset of the values in their view.
    pub values_offset: usize,
}

/// Everything the loader checks of an accessor before reading it.
#[derive(Clone, Copy, Debug, PartialEq, Eq)]
pub struct AccessorLayout {
    /// Component type.
    pub component: ComponentType,
    /// Element shape.
    pub dimensions: Dimensions,
    /// Number of elements.
    pub count: usize,
    /// Offset of the first element in the view.
    pub offset: usize,
    /// The view holding the elements, if any.
    pub view: Option<ViewLayout>,
    /// The sparse replacements, if any.
    pub sparse: Option<SparseLayout>,
}

/// What the loader reads an accessor as.
#[derive(Clone, Copy, Debug, PartialEq, Eq)]
pub enum AccessorUse {
    /// Vertex positions.
    Positions,
    /// Vertex normals.
    Normals,
    /// Vertex colors.
    Colors,
    /// Vertex indices.
    Indices,
}

/// Decoded bytes an accessor may take: 256 MiB.
pub const DECODED_BUDGET: u64 = 268_435_456;

/// Each element counts at least this many decoded bytes against the budget.
pub const MIN_DECODED_ELEMENT: u64 = 16;

/// The element types the loader reads for each use: positions and normals as
/// three floats, colors as three or four bytes, shorts or floats, indices as
/// unsigned scalars.
pub open spec fn type_ok(u: AccessorUse, c: ComponentType, d: Dimensions) -> bool {
    match u {
        AccessorUse::Positions | AccessorUse::Normals => c == ComponentType::F32 && d == Dimensions::Vec3,
        AccessorUse::Colors => (c == ComponentType::U8 || c == ComponentType::U16 || c == ComponentType::F32)
            && (d == Dimensions::Vec3 || d == Dimensions::Vec4),
        AccessorUse::Indices => (c == ComponentType::U8 || c == ComponentType::U16 || c == ComponentType::U32)
            && d == Dimensions::Scalar,
    }
}

/// The stride of a view holding elements of `size` bytes.
pub open spec fn stride_of(view: ViewLayout, size: nat) -> nat {
    match view.stride {
        Some(s) => s as nat,
        None => size,
    }
}

/// `count` elements of `size` bytes, starting `offset` bytes into the view,
/// lie inside the view, and the view lies inside the file's binary chunk
/// (buffer 0, `blob_len` bytes long). There is at least one element, and
/// the stride is at least the element size.
pub open spec fn region_ok(view: ViewLayout, offset: nat, count: nat, size: nat, blob_len: nat) -> bool {
    &&& view.buffer == 0
    &&& view.offset + view.length <= blob_len
    &&& count >= 1
    &&& stride_of(view, size) >= size
    &&& offset + stride_of(view, size) * (count - 1) + size <= view.length
}

/// The decoded size an accessor is charged: each element at least
/// `MIN_DECODED_ELEMENT` bytes.
pub open spec fn decoded_size(count: nat, size: nat) -> nat {
    count * (if size < MIN_DECODED_ELEMENT { MIN_DECODED_ELEMENT as nat } else { size })
}

/// The error for an accessor that cannot be read as `u`.
pub open spec fn unreadable(u: AccessorUse) -> GlbError {
    match u {
        AccessorUse::Positions => GlbError::UnreadablePositions,
        AccessorUse::Normals => GlbError::UnreadableNormals,
        AccessorUse::Colors => GlbError::UnreadableColors,
        AccessorUse::Indices => GlbError::UnreadableIndices,
    }
}

/// The loader's verdict on an accessor before reading it as `u` from a
/// binary chunk of `blob_len` bytes: its element type must suit the use, its
/// decoded size must stay within the budget, and every byte range the reader
/// touches (the elements, and for a sparse accessor its indices and values)
/// must lie inside its view and the chunk. An accessor with neither a view
/// nor sparse data passes: reading it yields nothing.
pub open spec fn accessor_verdict(u: AccessorUse, a: AccessorLayout, blob_len: nat) -> Result<(), GlbError> {
    let size = element_size(a.component, a.dimensions);
    if !type_ok(u, a.component, a.dimensions) {
        Err(unreadable(u))
    } else if decoded_size(a.count as nat, size) > DECODED_BUDGET {
        Err(GlbError::AccessorTooLarge)
    } else if (a.view matches Some(v) && !region_ok(v, a.offset as nat, a.count as nat, size, blob_len)) {
        Err(unreadable(u))
    } else if (a.sparse matches Some(sp) && !({
        &&& (sp.index_component == ComponentType::U8 || sp.index_component == ComponentType::U16
            || sp.index_component == ComponentType::U32)
        &&& region_ok(sp.indices_view, sp.indices_offset as nat, sp.count as nat, component_size(sp.index_component), blob_len)
        &&& region_ok(sp.values_view, sp.values_offset as nat, sp.count as nat, size, blob_len)
    })) {
        Err(unreadable(u))
    } else {
        Ok(())
    }
}

fn component_bytes(c: ComponentType) -> (r: u64)
    ensures
        r == component_size(c),
{
    match c {
        ComponentType::I8 | ComponentType::U8 => 1,
        ComponentType::I16 | ComponentType::U16 => 2,
        ComponentType::U32 | ComponentType::F32 => 4,
    }
}

fn element_bytes(c: ComponentType, d: Dimensions) -> (r: u64)
    ensures
        r == element_size(c, d),
        r <= 64,
{
    let m: u64 = match d {
        Dimensions::Scalar => 1,
        Dimensions::Vec2 => 2,
        Dimensions::Vec3 => 3,
        Dimensions::Vec4 | Dimensions::Mat2 => 4,
        Dimensions::Mat3 => 9,
        Dimensions::Mat4 => 16,
    };
    component_bytes(c) * m
}

fn type_fits(u: AccessorUse, c: ComponentType, d: Dimensions) -> (r: bool)
    ensures
        r == type_ok(u, c, d),
{
    match u {
        AccessorUse::Positions | AccessorUse::Normals => c == ComponentType::F32 && d == Dimensions::Vec3,
        AccessorUse::Colors => (c == ComponentType::U8 || c == ComponentType::U16 || c == ComponentType::F32)
            && (d == Dimensions::Vec3 || d == Dimensions::Vec4),
        AccessorUse::Indices => (c == ComponentType::U8 || c == ComponentType::U16 || c == ComponentType::U32)
            && d == Dimensions::Scalar,
    }
}

fn region_fits(view: ViewLayout, offset: usize, count: usize, size: u64, blob_len: usize) -> (r: bool)
    requires
        size <= 64,
    ensures
        r == region_ok(view, offset as nat, count as nat, size as nat, blob_len as nat),
{
    if view.buffer != 0 || count == 0 {
        return false;
    }
    if view.offset as u128 + view.length as u128 > blob_len as u128 {
        return false;
    }
    let stride: u128 = match view.stride {
        Some(s) => s as u128,
        None => size as u128,
    };
    if stride < size as u128 {
        return false;
    }
    let steps: u128 = (count - 1) as u128;
    assert(stride * steps <= 0xffff_ffff_ffff_ffff * 0xffff_ffff_ffff_ffffu128) by (nonlinear_arith)
        requires
            stride <= 0xffff_ffff_ffff_ffff,
            steps <= 0xffff_ffff_ffff_ffff,
    ;
    offset as u128 + stride * steps + size as u128 <= view.length as u128
}

/// Checks an accessor's layout before it is read as `u` from a binary chunk
/// of `blob_len` bytes.
pub fn check_accessor(u: AccessorUse, a: &AccessorLayout, blob_len: usize) -> (r: Result<(), GlbError>)
    ensures
        r == accessor_verdict(u, *a, blob_len as nat),
{
    let size = element_bytes(a.component, a.dimensions);
    if !type_fits(u, a.component, a.dimensions) {
        return Err(match u {
            AccessorUse::Positions => GlbError::UnreadablePositions,
            AccessorUse::Normals => GlbError::UnreadableNormals,
            AccessorUse::Colors => GlbError::UnreadableColors,
            AccessorUse::Indices => GlbError::UnreadableIndices,
        });
    }
    let charged: u128 = if size < MIN_DECODED_ELEMENT { MIN_DECODED_ELEMENT as u128 } else { size as u128 };
    assert(a.count * charged <= 0xffff_ffff_ffff_ffff * 64u128) by (nonlinear_arith)
        requires
            a.count <= 0xffff_ffff_ffff_ffff,
            charged <= 64,
    ;
    if a.count as u128 * charged > DECODED_BUDGET as u128 {
        return Err(GlbError::AccessorTooLarge);
    }
    let fail = match u {
        AccessorUse::Positions => GlbError::UnreadablePositions,
        AccessorUse::Normals => GlbError::UnreadableNormals,
        AccessorUse::Colors => GlbError::UnreadableColors,
        AccessorUse::Indices => GlbError::UnreadableIndices,
    };
    if let Some(v) = a.view {
        if !region_fits(v, a.offset, a.count, size, blob_len) {
            return Err(fail);
        }
    }
    if let Some(sp) = a.sparse {
        let index_type_ok = match sp.index_component {
            ComponentType::U8 | ComponentType::U16 | ComponentType::U32 => true,
            _ => false,
        };
        if !index_type_ok || !region_fits(sp.indices_view, sp.indices_offset, sp.count, component_bytes(sp.index_component), blob_len)
            || !region_fits(sp.values_view, sp.values_offset, sp.count, size, blob_len) {
            return Err(fail);
        }
    }
    Ok(())
}

/// Completeness of the check: an accessor without sparse data whose element
/// type is one the reader takes for the use (positions and normals as three
/// 32-bit floats; colors as three or four unsigned bytes, unsigned shorts or
/// floats; indices as unsigned 8-, 16- or 32-bit scalars), with at least one
/// element, within the decoded budget, and whose elements lie inside its view
/// and the view inside buffer 0's `blob_len` bytes, is accepted. `size` is
/// the byte size of one element.
pub proof fn lemma_readable_accessor_accepted(u: AccessorUse, a: AccessorLayout, blob_len: nat, size: nat)
    requires
        match u {
            AccessorUse::Positions | AccessorUse::Normals => a.component == ComponentType::F32
                && a.dimensions == Dimensions::Vec3 && size == 12,
            AccessorUse::Colors => (a.component == ComponentType::U8 || a.component == ComponentType::U16
                || a.component == ComponentType::F32) && (a.dimensions == Dimensions::Vec3 || a.dimensions
                == Dimensions::Vec4) && size == (if a.component == ComponentType::U8 {
                1nat
            } else if a.component == ComponentType::U16 {
                2nat
            } else {
                4nat
            }) * (if a.dimensions == Dimensions::Vec3 { 3nat } else { 4nat }),
            AccessorUse::Indices => (a.component == ComponentType::U8 || a.component == ComponentType::U16
                || a.component == ComponentType::U32) && a.dimensions == Dimensions::Scalar && size == (
            if a.component == ComponentType::U8 {
                1nat
            } else if a.component == ComponentType::U16 {
                2nat
            } else {
                4nat
            }),
        },
        a.sparse is None,
        a.count >= 1,
        a.count * (if size < 16 { 16 } else { size }) <= 268_435_456,
        a.view matches Some(v) ==> {
            let st: nat = match v.stride {
                Some(s) => s as nat,
                None => size,
            };
            &&& v.buffer == 0
            &&& v.offset + v.length <= blob_len
            &&& st >= size
            &&& a.offset + st * (a.count - 1) + size <= v.length
        },
    ensures
        accessor_verdict(u, a, blob_len) is Ok,
{
    assert(element_size(a.component, a.dimensions) == size);
}

/// An accepted accessor's element region lies inside the file's binary
/// chunk: every byte the reader takes from its view is a byte of the chunk.
pub proof fn lemma_accepted_region_in_chunk(u: AccessorUse, a: AccessorLayout, blob_len: nat)
    requires
        accessor_verdict(u, a, blob_len) is Ok,
        a.view is Some,
    ensures
        ({
            let v = a.view->Some_0;
            let size = element_size(a.component, a.dimensions);
            &&& a.count >= 1
            &&& v.buffer == 0
            &&& v.offset + a.offset + stride_of(v, size) * (a.count - 1) + size <= blob_len
            &&& decoded_size(a.count as nat, size) <= DECODED_BUDGET
        }),
{
}

} // verus!
