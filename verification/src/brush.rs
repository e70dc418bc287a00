//! What a renderer is fed with: the corners of the quad that every
//! rectangle is an instance of, the order in which they are joined into
//! triangles, the data of one instance, and the uniforms of the pipeline.

use vstd::prelude::*;
use crate::color::Color;
use crate::fixed::Fixed;

verus! {

/// How many instances fit into the instance buffer.
pub const MAX_INSTANCES: usize = 10_000;

/// A corner of the quad.
#[derive(Clone, Copy, Debug, PartialEq, Eq)]
pub struct Vertex {
    pub position: [Fixed; 2],
}

/// The corner at `pos`.
pub fn vertex(pos: [Fixed; 2]) -> (corner: Vertex)
    ensures
        corner.position[0] == pos[0],
        corner.position[1] == pos[1],
{
    Vertex { position: [pos[0], pos[1]] }
}

/// The four corners of the quad, clockwise from the origin: half a unit
/// wide and one unit high.
pub fn create_vertices_rect() -> (corners: Vec<Vertex>)
    ensures
        corners@.len() == 4,
        corners@[0].position@ == seq![Fixed { raw: 0 }, Fixed { raw: 0 }],
        corners@[1].position@ == seq![Fixed { raw: 32 }, Fixed { raw: 0 }],
        corners@[2].position@ == seq![Fixed { raw: 32 }, Fixed { raw: 64 }],
        corners@[3].position@ == seq![Fixed { raw: 0 }, Fixed { raw: 64 }],
{
    let half = Fixed::from_raw(32);
    let mut corners: Vec<Vertex> = Vec::new();
    corners.push(vertex([Fixed::zero(), Fixed::zero()]));
    corners.push(vertex([half, Fixed::zero()]));
    corners.push(vertex([half, Fixed::one()]));
    corners.push(vertex([Fixed::zero(), Fixed::one()]));
    proof {
        assert(corners@[0].position@ =~= seq![Fixed { raw: 0 }, Fixed { raw: 0 }]);
        assert(corners@[1].position@ =~= seq![Fixed { raw: 32 }, Fixed { raw: 0 }]);
        assert(corners@[2].position@ =~= seq![Fixed { raw: 32 }, Fixed { raw: 64 }]);
        assert(corners@[3].position@ =~= seq![Fixed { raw: 0 }, Fixed { raw: 64 }]);
    }
    corners
}

/// The corners of the two triangles of the quad, by their index.
pub fn quad_indices() -> (indices: Vec<u16>)
    ensures
        indices@ == seq![0u16, 1, 2, 0, 2, 3],
{
    let mut indices: Vec<u16> = Vec::new();
    indices.push(0);
    indices.push(1);
    indices.push(2);
    indices.push(0);
    indices.push(2);
    indices.push(3);
    assert(indices@ =~= seq![0u16, 1, 2, 0, 2, 3]);
    indices
}

/// `bytes` holds each number of `indices` as two bytes, the low one first.
pub open spec fn low_byte_first(indices: Seq<u16>, bytes: Seq<u8>) -> bool {
    &&& bytes.len() == 2 * indices.len()
    &&& forall|i: int|
        0 <= i < indices.len() ==> bytes[2 * i] == #[trigger] indices[i] % 256 && bytes[2 * i + 1]
            == indices[i] / 256
}

/// `bytes` holds each number of `indices` as two bytes, the high one first.
pub open spec fn high_byte_first(indices: Seq<u16>, bytes: Seq<u8>) -> bool {
    &&& bytes.len() == 2 * indices.len()
    &&& forall|i: int|
        0 <= i < indices.len() ==> bytes[2 * i] == #[trigger] indices[i] / 256 && bytes[2 * i + 1]
            == indices[i] % 256
}

/// The bytes of `indices` as they lie in memory, from `bytemuck::cast_slice`
/// of `u16` to `u8`. The cast keeps the address and gives two bytes for each
/// number; it cannot fail, since a byte has no alignment to meet and any
/// count of bytes is a whole count. Which byte of a number comes first is the
/// machine's choice, the same for all of them.
#[verifier::external_body]
fn index_bytes(indices: &Vec<u16>) -> (bytes: Vec<u8>)
    ensures
        low_byte_first(indices@, bytes@) || high_byte_first(indices@, bytes@),
{
    bytemuck::cast_slice::<u16, u8>(indices.as_slice()).to_vec()
}

/// The contents of the index buffer: the indices of the quad, two bytes
/// each, in the byte order of the machine.
pub fn quad_index_data() -> (bytes: Vec<u8>)
    ensures
        bytes@ == seq![0u8, 0, 1, 0, 2, 0, 0, 0, 2, 0, 3, 0] || bytes@ == seq![
            0u8,
            0,
            0,
            1,
            0,
            2,
            0,
            0,
            0,
            2,
            0,
            3,
        ],
{
    let indices = quad_indices();
    let bytes = index_bytes(&indices);
    proof {
        assert(indices@[0] == 0 && indices@[1] == 1 && indices@[2] == 2 && indices@[3] == 0
            && indices@[4] == 2 && indices@[5] == 3);
        if low_byte_first(indices@, bytes@) {
            assert(bytes@ =~= seq![0u8, 0, 1, 0, 2, 0, 0, 0, 2, 0, 3, 0]);
        } else {
            assert(bytes@ =~= seq![0u8, 0, 0, 1, 0, 2, 0, 0, 0, 2, 0, 3]);
        }
    }
    bytes
}

/// The data of one instance of the quad: where it lies, its color and its
/// size.
#[derive(Clone, Copy, Debug, PartialEq, Eq)]
pub struct Rect {
    /// The position of the rectangle.
    pub position: [Fixed; 2],
    pub color: Color,
    pub size: [Fixed; 2],
}

impl Default for Rect {
    fn default() -> (rect: Rect)
        ensures
            rect.position@ == seq![Fixed { raw: 0 }, Fixed { raw: 0 }],
            rect.color == (Color { r: 0, g: 0, b: 0, a: 0 }),
            rect.size@ == seq![Fixed { raw: 0 }, Fixed { raw: 0 }],
    {
        let rect = Rect {
            position: [Fixed::zero(), Fixed::zero()],
            color: Color::new(0, 0, 0, 0),
            size: [Fixed::zero(), Fixed::zero()],
        };
        assert(rect.position@ =~= seq![Fixed { raw: 0 }, Fixed { raw: 0 }]);
        assert(rect.size@ =~= seq![Fixed { raw: 0 }, Fixed { raw: 0 }]);
        rect
    }
}

/// The uniforms of the pipeline: a transformation of four rows of four, a
/// scale, and padding up to the alignment of the transformation.
#[derive(Clone, Copy, Debug, PartialEq, Eq)]
pub struct Uniforms {
    pub transform: [Fixed; 16],
    pub scale: Fixed,
    pub padding: [Fixed; 3],
}

/// The transformation that changes nothing: ones on the diagonal, zeros
/// elsewhere.
pub open spec fn is_identity(transform: Seq<Fixed>) -> bool {
    &&& transform.len() == 16
    &&& forall|i: int|
        0 <= i < 16 ==> (#[trigger] transform[i]).raw == if i % 5 == 0 {
            64int
        } else {
            0int
        }
}

/// Padding is zero.
pub open spec fn is_padding(padding: Seq<Fixed>) -> bool {
    &&& padding.len() == 3
    &&& forall|i: int| 0 <= i < 3 ==> (#[trigger] padding[i]).raw == 0
}

impl Uniforms {
    pub fn new(transformation: [Fixed; 16], scale: Fixed) -> (uniforms: Uniforms)
        ensures
            uniforms.transform == transformation,
            uniforms.scale == scale,
            is_padding(uniforms.padding@),
    {
        Uniforms { transform: transformation, scale, padding: [Fixed::zero(), Fixed::zero(), Fixed::zero()] }
    }
}

impl Default for Uniforms {
    fn default() -> (uniforms: Uniforms)
        ensures
            is_identity(uniforms.transform@),
            uniforms.scale.raw == 64,
            is_padding(uniforms.padding@),
    {
        let o = Fixed::zero();
        let l = Fixed::one();
        let identity_matrix: [Fixed; 16] = [l, o, o, o, o, l, o, o, o, o, l, o, o, o, o, l];
        Uniforms { transform: identity_matrix, scale: l, padding: [o, o, o] }
    }
}

} // verus!
