//! Turns a scene graph into mesh records for the writer.
//!
//! The scene arrives as plain values: the caller has already read each
//! primitive's attribute streams, placed its positions by the owning node's own
//! transform, and compressed its base-colour texture, if one is bound.
use vstd::prelude::*;
use crate::codec::{mesh_encodable, stream_encodable};
use crate::model::{copy_items, opt_seq, records_view, Float2, Float3, Float4, MeshModel, MeshRecord, Vertex};

verus! {

/// How a primitive's vertices form shapes.
#[derive(Clone, Copy, Debug, PartialEq, Eq, Structural)]
pub enum Topology {
    Points,
    Lines,
    LineLoop,
    LineStrip,
    Triangles,
    TriangleStrip,
    TriangleFan,
}

/// One drawable part of a node, with the streams that were found on it.
#[derive(Clone, Debug)]
pub struct ScenePrimitive {
    pub topology: Topology,
    pub positions: Option<Vec<Float3>>,
    pub tex_coords: Option<Vec<Float2>>,
    pub normals: Option<Vec<Float3>>,
    pub indices: Option<Vec<u32>>,
    pub base_color: Float4,
    /// The compressed container made from the bound base-colour texture.
    pub texture: Option<Vec<u8>>,
}

/// A node of the scene graph: its own primitives and its child nodes.
#[derive(Debug)]
pub struct SceneNode {
    pub primitives: Vec<ScenePrimitive>,
    pub children: Vec<SceneNode>,
}

/// A stream that a triangle primitive must carry.
#[derive(Clone, Copy, Debug, PartialEq, Eq, Structural)]
pub enum Attribute {
    Positions,
    TexCoords,
    Normals,
    Indices,
}

/// Why an export stopped.
#[derive(Clone, Copy, Debug, PartialEq, Eq, Structural)]
pub enum ExportError {
    /// A triangle primitive lacks a stream it needs.
    MissingAttribute(Attribute),
    /// An index does not fit in 16 bits.
    IndexOutOfRange,
    /// A count exceeds what the mesh format can hold.
    TooLarge,
}

pub open spec fn min3(a: nat, b: nat, c: nat) -> nat {
    if a <= b && a <= c {
        a
    } else if b <= c {
        b
    } else {
        c
    }
}

/// The vertices formed by walking the three streams side by side, as long as
/// all three last.
pub open spec fn zip_vertices(pos: Seq<Float3>, uv: Seq<Float2>, nrm: Seq<Float3>) -> Seq<Vertex> {
    Seq::new(
        min3(pos.len(), uv.len(), nrm.len()),
        |i: int| Vertex { position: pos[i], uv: uv[i], normal: nrm[i] },
    )
}

pub open spec fn narrow_indices(ix: Seq<u32>) -> Seq<u16> {
    ix.map_values(|x: u32| x as u16)
}

/// The mesh a primitive yields: none for a primitive that is not a triangle
/// list, and an error for the first thing that stops it, in the order the
/// streams are read.
pub open spec fn primitive_mesh(p: ScenePrimitive) -> Result<Option<MeshModel>, ExportError> {
    if p.topology != Topology::Triangles {
        Ok(None)
    } else if p.positions is None {
        Err(ExportError::MissingAttribute(Attribute::Positions))
    } else if p.tex_coords is None {
        Err(ExportError::MissingAttribute(Attribute::TexCoords))
    } else if p.normals is None {
        Err(ExportError::MissingAttribute(Attribute::Normals))
    } else if p.indices is None {
        Err(ExportError::MissingAttribute(Attribute::Indices))
    } else {
        let ix = p.indices->Some_0@;
        if exists|i: int| 0 <= i < ix.len() && ix[i] > 0xffff {
            Err(ExportError::IndexOutOfRange)
        } else {
            let m = MeshModel {
                diffuse: p.base_color,
                vertices: zip_vertices(p.positions->Some_0@, p.tex_coords->Some_0@, p.normals->Some_0@),
                indices: narrow_indices(ix),
                texture: opt_seq(p.texture),
            };
            if mesh_encodable(m) {
                Ok(Some(m))
            } else {
                Err(ExportError::TooLarge)
            }
        }
    }
}

/// The meshes of a run of primitives, in order.
pub open spec fn primitives_meshes(ps: Seq<ScenePrimitive>) -> Result<Seq<MeshModel>, ExportError>
    decreases ps.len(),
{
    if ps.len() == 0 {
        Ok(Seq::empty())
    } else {
        match primitives_meshes(ps.drop_last()) {
            Err(e) => Err(e),
            Ok(ms) => match primitive_mesh(ps.last()) {
                Err(e) => Err(e),
                Ok(None) => Ok(ms),
                Ok(Some(m)) => Ok(ms.push(m)),
            },
        }
    }
}

/// The meshes of a node, depth first: those of its children, in order, then
/// its own.
pub open spec fn node_meshes(n: SceneNode) -> Result<Seq<MeshModel>, ExportError>
    decreases n,
{
    match nodes_meshes(n.children@) {
        Err(e) => Err(e),
        Ok(a) => match primitives_meshes(n.primitives@) {
            Err(e) => Err(e),
            Ok(b) => Ok(a + b),
        },
    }
}

/// The meshes of a run of sibling nodes, in order.
pub open spec fn nodes_meshes(ns: Seq<SceneNode>) -> Result<Seq<MeshModel>, ExportError>
    decreases ns,
{
    if ns.len() == 0 {
        Ok(Seq::empty())
    } else {
        match nodes_meshes(ns.subrange(0, ns.len() - 1)) {
            Err(e) => Err(e),
            Ok(a) => match node_meshes(ns[ns.len() - 1]) {
                Err(e) => Err(e),
                Ok(b) => Ok(a + b),
            },
        }
    }
}

pub open spec fn built_view(r: Result<Option<MeshRecord>, ExportError>) -> Result<Option<MeshModel>, ExportError> {
    match r {
        Ok(Some(m)) => Ok(Some(m@)),
        Ok(None) => Ok(None),
        Err(e) => Err(e),
    }
}

pub open spec fn all_encodable(v: Seq<MeshRecord>) -> bool {
    forall|i: int| 0 <= i < v.len() ==> #[trigger] mesh_encodable(v[i]@)
}

/// Builds the mesh record of one primitive.
pub fn build_mesh(p: &ScenePrimitive) -> (r: Result<Option<MeshRecord>, ExportError>)
    ensures
        built_view(r) == primitive_mesh(*p),
{
    match p.topology {
        Topology::Triangles => {},
        _ => {
            return Ok(None);
        },
    }
    let pos = match &p.positions {
        Some(v) => v,
        None => {
            return Err(ExportError::MissingAttribute(Attribute::Positions));
        },
    };
    let uv = match &p.tex_coords {
        Some(v) => v,
        None => {
            return Err(ExportError::MissingAttribute(Attribute::TexCoords));
        },
    };
    let nrm = match &p.normals {
        Some(v) => v,
        None => {
            return Err(ExportError::MissingAttribute(Attribute::Normals));
        },
    };
    let ix = match &p.indices {
        Some(v) => v,
        None => {
            return Err(ExportError::MissingAttribute(Attribute::Indices));
        },
    };
    let mut n = pos.len();
    if uv.len() < n {
        n = uv.len();
    }
    if nrm.len() < n {
        n = nrm.len();
    }
    let mut vertices: Vec<Vertex> = Vec::new();
    let mut i: usize = 0;
    while i < n
        invariant
            i <= n,
            n == min3(pos@.len(), uv@.len(), nrm@.len()),
            vertices@ == zip_vertices(pos@, uv@, nrm@).take(i as int),
        decreases n - i,
    {
        vertices.push(Vertex { position: pos[i], uv: uv[i], normal: nrm[i] });
        assert(vertices@ =~= zip_vertices(pos@, uv@, nrm@).take(i + 1));
        i = i + 1;
    }
    assert(vertices@ =~= zip_vertices(pos@, uv@, nrm@));
    let mut indices: Vec<u16> = Vec::new();
    let mut j: usize = 0;
    while j < ix.len()
        invariant
            j <= ix@.len(),
            p.topology == Topology::Triangles,
            p.positions is Some && p.tex_coords is Some && p.normals is Some,
            p.indices is Some && p.indices->Some_0@ == ix@,
            forall|k: int| 0 <= k < j ==> ix@[k] <= 0xffff,
            indices@ == narrow_indices(ix@).take(j as int),
        decreases ix@.len() - j,
    {
        if ix[j] > 0xffff {
            assert(ix@[j as int] > 0xffff);
            return Err(ExportError::IndexOutOfRange);
        }
        indices.push(ix[j] as u16);
        assert(indices@ =~= narrow_indices(ix@).take(j + 1));
        j = j + 1;
    }
    assert(indices@ =~= narrow_indices(ix@));
    let texture = match &p.texture {
        Some(t) => Some(copy_items(t.as_slice())),
        None => None,
    };
    let too_large = vertices.len() > 0xffff || indices.len() as u64 > 0xffff_ffff || match &texture {
        Some(t) => t.len() as u64 > 0xffff_ffff,
        None => false,
    };
    if too_large {
        return Err(ExportError::TooLarge);
    }
    Ok(Some(MeshRecord { diffuse: p.base_color, vertices, indices, texture }))
}

fn export_primitives(ps: &Vec<ScenePrimitive>, out: &mut Vec<MeshRecord>) -> (r: Result<(), ExportError>)
    requires
        all_encodable(old(out)@),
    ensures
        match primitives_meshes(ps@) {
            Ok(ms) => r is Ok && records_view(final(out)@) == records_view(old(out)@) + ms,
            Err(e) => r == Err::<(), ExportError>(e),
        },
        r is Ok ==> all_encodable(final(out)@),
{
    let ghost start = records_view(old(out)@);
    let mut i: usize = 0;
    while i < ps.len()
        invariant
            i <= ps@.len(),
            all_encodable(out@),
            primitives_meshes(ps@.take(i as int)) is Ok,
            records_view(out@) == start + primitives_meshes(ps@.take(i as int))->Ok_0,
        decreases ps@.len() - i,
    {
        let ghost before = out@;
        let built = build_mesh(&ps[i]);
        proof {
            assert(ps@.take(i + 1).drop_last() =~= ps@.take(i as int));
        }
        match built {
            Ok(Some(rec)) => {
                out.push(rec);
                assert(records_view(out@) =~= records_view(before).push(rec@));
            },
            Ok(None) => {},
            Err(e) => {
                proof {
                    lemma_primitives_meshes_stays_err(ps@, (i + 1) as int);
                }
                return Err(e);
            },
        }
        i = i + 1;
    }
    assert(ps@.take(i as int) =~= ps@);
    Ok(())
}

proof fn lemma_primitives_meshes_stays_err(ps: Seq<ScenePrimitive>, k: int)
    requires
        0 <= k <= ps.len(),
        primitives_meshes(ps.take(k)) is Err,
    ensures
        primitives_meshes(ps) == primitives_meshes(ps.take(k)),
    decreases ps.len() - k,
{
    if k < ps.len() {
        assert(ps.take(k + 1).drop_last() =~= ps.take(k));
        lemma_primitives_meshes_stays_err(ps, k + 1);
    } else {
        assert(ps.take(k) =~= ps);
    }
}

proof fn lemma_nodes_meshes_stays_err(ns: Seq<SceneNode>, k: int)
    requires
        0 <= k <= ns.len(),
        nodes_meshes(ns.subrange(0, k)) is Err,
    ensures
        nodes_meshes(ns) == nodes_meshes(ns.subrange(0, k)),
    decreases ns.len() - k,
{
    if k < ns.len() {
        assert(ns.subrange(0, k + 1).subrange(0, k) =~= ns.subrange(0, k));
        lemma_nodes_meshes_stays_err(ns, k + 1);
    } else {
        assert(ns.subrange(0, k) =~= ns);
    }
}

/// Appends the meshes of `node`, depth first.
fn export_node(node: &SceneNode, out: &mut Vec<MeshRecord>) -> (r: Result<(), ExportError>)
    requires
        all_encodable(old(out)@),
    ensures
        match node_meshes(*node) {
            Ok(ms) => r is Ok && records_view(final(out)@) == records_view(old(out)@) + ms,
            Err(e) => r == Err::<(), ExportError>(e),
        },
        r is Ok ==> all_encodable(final(out)@),
    decreases node,
{
    let ghost start = records_view(old(out)@);
    let mut i: usize = 0;
    while i < node.children.len()
        invariant
            i <= node.children@.len(),
            all_encodable(out@),
            nodes_meshes(node.children@.subrange(0, i as int)) is Ok,
            records_view(out@) == start + nodes_meshes(node.children@.subrange(0, i as int))->Ok_0,
        decreases node.children@.len() - i,
    {
        let ghost before = records_view(out@);
        let res = export_node(&node.children[i], out);
        proof {
            let ns = node.children@.subrange(0, i + 1);
            assert(ns.subrange(0, i as int) =~= node.children@.subrange(0, i as int));
            assert(ns[i as int] == node.children@[i as int]);
        }
        match res {
            Ok(()) => {
                assert(records_view(out@) =~= start + nodes_meshes(node.children@.subrange(0, i + 1))->Ok_0);
            },
            Err(e) => {
                proof {
                    lemma_nodes_meshes_stays_err(node.children@, i + 1);
                }
                return Err(e);
            },
        }
        i = i + 1;
    }
    assert(node.children@.subrange(0, i as int) =~= node.children@);
    let ghost mid = records_view(out@);
    let res = export_primitives(&node.primitives, out);
    match res {
        Ok(()) => {
            assert(records_view(out@) =~= start + node_meshes(*node)->Ok_0);
            Ok(())
        },
        Err(e) => Err(e),
    }
}

/// What exporting a scene with the given root nodes yields.
pub open spec fn export_spec(roots: Seq<SceneNode>) -> Result<Seq<MeshModel>, ExportError> {
    match nodes_meshes(roots) {
        Ok(ms) => if ms.len() <= u32::MAX {
            Ok(ms)
        } else {
            Err(ExportError::TooLarge)
        },
        Err(e) => Err(e),
    }
}

/// Collects one mesh record per triangle primitive of the scene, depth first
/// from each root in turn. The records are ready for the writer.
pub fn export_scene(roots: &Vec<SceneNode>) -> (r: Result<Vec<MeshRecord>, ExportError>)
    ensures
        match (r, export_spec(roots@)) {
            (Ok(v), Ok(ms)) => records_view(v@) == ms,
            (Err(e), Err(f)) => e == f,
            _ => false,
        },
        r is Ok ==> stream_encodable(records_view(r->Ok_0@)),
{
    let mut out: Vec<MeshRecord> = Vec::new();
    let mut i: usize = 0;
    while i < roots.len()
        invariant
            i <= roots@.len(),
            all_encodable(out@),
            nodes_meshes(roots@.subrange(0, i as int)) is Ok,
            records_view(out@) == nodes_meshes(roots@.subrange(0, i as int))->Ok_0,
        decreases roots@.len() - i,
    {
        let res = export_node(&roots[i], &mut out);
        proof {
            let ns = roots@.subrange(0, i + 1);
            assert(ns.subrange(0, i as int) =~= roots@.subrange(0, i as int));
        }
        match res {
            Ok(()) => {
                assert(records_view(out@) =~= nodes_meshes(roots@.subrange(0, i + 1))->Ok_0);
            },
            Err(e) => {
                proof {
                    lemma_nodes_meshes_stays_err(roots@, i + 1);
                }
                return Err(e);
            },
        }
        i = i + 1;
    }
    assert(roots@.subrange(0, i as int) =~= roots@);
    if out.len() as u64 > 0xffff_ffff {
        return Err(ExportError::TooLarge);
    }
    proof {
        let ms = records_view(out@);
        assert forall|k: int| 0 <= k < ms.len() implies #[trigger] mesh_encodable(ms[k]) by {
            assert(mesh_encodable(out@[k]@));
        }
    }
    Ok(out)
}

} // verus!
