//! Plain data shared by the codec, the exporter, the loader and the renderer.
//!
//! Floating-point values never enter the library as numbers: every `f32` is held
//! as its IEEE-754 bit pattern (`f32::to_bits`), which is also exactly what the
//! mesh format stores.
use vstd::prelude::*;

verus! {

/// A pair of single-precision floats, as bit patterns.
#[derive(Clone, Copy, Debug, PartialEq, Eq, Structural)]
pub struct Float2 {
    pub x: u32,
    pub y: u32,
}

/// Three single-precision floats, as bit patterns.
#[derive(Clone, Copy, Debug, PartialEq, Eq, Structural)]
pub struct Float3 {
    pub x: u32,
    pub y: u32,
    pub z: u32,
}

/// Four single-precision floats, as bit patterns (a colour is `r, g, b, a`).
#[derive(Clone, Copy, Debug, PartialEq, Eq, Structural)]
pub struct Float4 {
    pub x: u32,
    pub y: u32,
    pub z: u32,
    pub w: u32,
}

/// One vertex: position, texture coordinate and normal, in that order.
#[derive(Clone, Copy, Debug, PartialEq, Eq, Structural)]
pub struct Vertex {
    pub position: Float3,
    pub uv: Float2,
    pub normal: Float3,
}

/// One mesh as it travels through the binary format.
#[derive(Clone, Debug, PartialEq, Eq)]
pub struct MeshRecord {
    pub diffuse: Float4,
    pub vertices: Vec<Vertex>,
    pub indices: Vec<u16>,
    /// The compressed texture container, if the mesh is textured.
    pub texture: Option<Vec<u8>>,
}

/// The mathematical content of a [`MeshRecord`].
pub struct MeshModel {
    pub diffuse: Float4,
    pub vertices: Seq<Vertex>,
    pub indices: Seq<u16>,
    pub texture: Option<Seq<u8>>,
}

/// The contents of an optional vector.
pub open spec fn opt_seq<T>(o: Option<Vec<T>>) -> Option<Seq<T>> {
    match o {
        Some(v) => Some(v@),
        None => None,
    }
}

/// A fresh vector holding the items of `v`.
pub fn copy_items<T: Copy>(v: &[T]) -> (r: Vec<T>)
    ensures
        r@ == v@,
{
    let mut r: Vec<T> = Vec::new();
    let mut i: usize = 0;
    while i < v.len()
        invariant
            i <= v@.len(),
            r@ == v@.take(i as int),
        decreases v@.len() - i,
    {
        r.push(v[i]);
        assert(r@ =~= v@.take(i + 1));
        i = i + 1;
    }
    assert(r@ =~= v@);
    r
}

impl View for MeshRecord {
    type V = MeshModel;

    open spec fn view(&self) -> MeshModel {
        MeshModel {
            diffuse: self.diffuse,
            vertices: self.vertices@,
            indices: self.indices@,
            texture: opt_seq(self.texture),
        }
    }
}

/// The models of a sequence of records, element by element.
pub open spec fn records_view(v: Seq<MeshRecord>) -> Seq<MeshModel> {
    v.map_values(|r: MeshRecord| r@)
}

/// The kinds of failure the pipeline distinguishes.
#[derive(Clone, Copy, Debug, PartialEq, Eq, Structural)]
pub enum AssetError {
    /// Bad magic, or a structurally impossible header.
    Format,
    /// A short read or write.
    Io,
    /// The external texture tool exited unsuccessfully.
    ExternalTool,
    /// An embedded texture container is malformed.
    Decode,
    /// The platform refused to create a resource.
    Hardware,
}

} // verus!
