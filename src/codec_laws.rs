//! What the mesh format guarantees: a written stream reads back as the meshes
//! written, a stream without the magic is refused as malformed, and a stream
//! cut short anywhere is refused as a short read.
use vstd::prelude::*;
use crate::bytes::{lemma_u16_le_round_trip, lemma_u32_le_round_trip, u16_le_bytes, u32_le_bytes};
use crate::codec::{
    decode_spec, float2_at, float2_bytes, float3_at, float3_bytes, float4_at, float4_bytes,
    has_magic, indices_bytes, magic, mesh_bytes, mesh_encodable, mesh_faithful, meshes_bytes,
    parse_mesh, parse_meshes, stream_bytes, texture_bytes, u16_at, u32_at, vertex_at,
    vertex_bytes, vertices_bytes,
};
use crate::model::{AssetError, Float2, Float3, Float4, MeshModel, Vertex};

verus! {

// ------------------------------------------------------- reading what was written

proof fn lemma_split(b: Seq<u8>, p: int, s: Seq<u8>, t: Seq<u8>)
    requires
        0 <= p,
        p + s.len() + t.len() <= b.len(),
        b.subrange(p, p + s.len() + t.len()) == s + t,
    ensures
        b.subrange(p, p + s.len()) == s,
        b.subrange(p + s.len(), p + s.len() + t.len()) == t,
{
    let whole = b.subrange(p, p + s.len() + t.len());
    assert forall|i: int| 0 <= i < s.len() implies b.subrange(p, p + s.len())[i] == s[i] by {
        assert(whole[i] == (s + t)[i]);
    }
    assert forall|i: int| 0 <= i < t.len() implies b.subrange(p + s.len(), p + s.len() + t.len())[i]
        == t[i] by {
        assert(whole[s.len() + i] == (s + t)[s.len() + i]);
    }
    assert(b.subrange(p, p + s.len()) =~= s);
    assert(b.subrange(p + s.len(), p + s.len() + t.len()) =~= t);
}

proof fn lemma_u32_at(b: Seq<u8>, p: int, x: u32)
    requires
        0 <= p,
        p + 4 <= b.len(),
        b.subrange(p, p + 4) == u32_le_bytes(x),
    ensures
        u32_at(b, p) == x,
{
    lemma_u32_le_round_trip(x);
    let s = b.subrange(p, p + 4);
    assert(b[p] == s[0] && b[p + 1] == s[1] && b[p + 2] == s[2] && b[p + 3] == s[3]);
}

proof fn lemma_u16_at(b: Seq<u8>, p: int, x: u16)
    requires
        0 <= p,
        p + 2 <= b.len(),
        b.subrange(p, p + 2) == u16_le_bytes(x),
    ensures
        u16_at(b, p) == x,
{
    lemma_u16_le_round_trip(x);
    let s = b.subrange(p, p + 2);
    assert(b[p] == s[0] && b[p + 1] == s[1]);
}

proof fn lemma_float2_at(b: Seq<u8>, p: int, v: Float2)
    requires
        0 <= p,
        p + 8 <= b.len(),
        b.subrange(p, p + 8) == float2_bytes(v),
    ensures
        float2_at(b, p) == v,
{
    lemma_split(b, p, u32_le_bytes(v.x), u32_le_bytes(v.y));
    lemma_u32_at(b, p, v.x);
    lemma_u32_at(b, p + 4, v.y);
}

proof fn lemma_float3_at(b: Seq<u8>, p: int, v: Float3)
    requires
        0 <= p,
        p + 12 <= b.len(),
        b.subrange(p, p + 12) == float3_bytes(v),
    ensures
        float3_at(b, p) == v,
{
    lemma_split(b, p, u32_le_bytes(v.x) + u32_le_bytes(v.y), u32_le_bytes(v.z));
    lemma_split(b, p, u32_le_bytes(v.x), u32_le_bytes(v.y));
    lemma_u32_at(b, p, v.x);
    lemma_u32_at(b, p + 4, v.y);
    lemma_u32_at(b, p + 8, v.z);
}

proof fn lemma_float4_at(b: Seq<u8>, p: int, v: Float4)
    requires
        0 <= p,
        p + 16 <= b.len(),
        b.subrange(p, p + 16) == float4_bytes(v),
    ensures
        float4_at(b, p) == v,
{
    let x = u32_le_bytes(v.x);
    let y = u32_le_bytes(v.y);
    let z = u32_le_bytes(v.z);
    lemma_split(b, p, x + y + z, u32_le_bytes(v.w));
    lemma_split(b, p, x + y, z);
    lemma_split(b, p, x, y);
    lemma_u32_at(b, p, v.x);
    lemma_u32_at(b, p + 4, v.y);
    lemma_u32_at(b, p + 8, v.z);
    lemma_u32_at(b, p + 12, v.w);
}

proof fn lemma_vertex_at(b: Seq<u8>, p: int, v: Vertex)
    requires
        0 <= p,
        p + 32 <= b.len(),
        b.subrange(p, p + 32) == vertex_bytes(v),
    ensures
        vertex_at(b, p) == v,
{
    let a = float3_bytes(v.position);
    let c = float2_bytes(v.uv);
    lemma_split(b, p, a + c, float3_bytes(v.normal));
    lemma_split(b, p, a, c);
    lemma_float3_at(b, p, v.position);
    lemma_float2_at(b, p + 12, v.uv);
    lemma_float3_at(b, p + 20, v.normal);
}

proof fn lemma_vertices_bytes(vs: Seq<Vertex>)
    ensures
        vertices_bytes(vs).len() == 32 * vs.len(),
        forall|i: int|
            0 <= i < vs.len() ==> #[trigger] vertices_bytes(vs).subrange(32 * i, 32 * i + 32)
                == vertex_bytes(vs[i]),
    decreases vs.len(),
{
    if vs.len() > 0 {
        let init = vs.drop_last();
        lemma_vertices_bytes(init);
        let whole = vertices_bytes(vs);
        let head = vertices_bytes(init);
        assert forall|i: int| 0 <= i < vs.len() implies #[trigger] whole.subrange(32 * i, 32 * i + 32)
            == vertex_bytes(vs[i]) by {
            if i < init.len() {
                assert(whole.subrange(32 * i, 32 * i + 32) =~= head.subrange(32 * i, 32 * i + 32));
            } else {
                assert(whole.subrange(32 * i, 32 * i + 32) =~= vertex_bytes(vs.last()));
            }
        }
    }
}

proof fn lemma_indices_bytes(ix: Seq<u16>)
    ensures
        indices_bytes(ix).len() == 2 * ix.len(),
        forall|i: int|
            0 <= i < ix.len() ==> #[trigger] indices_bytes(ix).subrange(2 * i, 2 * i + 2)
                == u16_le_bytes(ix[i]),
    decreases ix.len(),
{
    if ix.len() > 0 {
        let init = ix.drop_last();
        lemma_indices_bytes(init);
        let whole = indices_bytes(ix);
        let head = indices_bytes(init);
        assert forall|i: int| 0 <= i < ix.len() implies #[trigger] whole.subrange(2 * i, 2 * i + 2)
            == u16_le_bytes(ix[i]) by {
            if i < init.len() {
                assert(whole.subrange(2 * i, 2 * i + 2) =~= head.subrange(2 * i, 2 * i + 2));
            } else {
                assert(whole.subrange(2 * i, 2 * i + 2) =~= u16_le_bytes(ix.last()));
            }
        }
    }
}

proof fn lemma_vertices_at(b: Seq<u8>, q: int, vs: Seq<Vertex>)
    requires
        0 <= q,
        q + 32 * vs.len() <= b.len(),
        b.subrange(q, q + 32 * vs.len()) == vertices_bytes(vs),
    ensures
        Seq::new(vs.len(), |k: int| vertex_at(b, q + 32 * k)) == vs,
{
    lemma_vertices_bytes(vs);
    let enc = vertices_bytes(vs);
    assert forall|k: int| 0 <= k < vs.len() implies vertex_at(b, q + 32 * k) == vs[k] by {
        assert(enc.subrange(32 * k, 32 * k + 32) == vertex_bytes(vs[k]));
        assert(b.subrange(q + 32 * k, q + 32 * k + 32) =~= enc.subrange(32 * k, 32 * k + 32));
        lemma_vertex_at(b, q + 32 * k, vs[k]);
    }
    assert(Seq::new(vs.len(), |k: int| vertex_at(b, q + 32 * k)) =~= vs);
}

proof fn lemma_indices_at(b: Seq<u8>, q: int, ix: Seq<u16>)
    requires
        0 <= q,
        q + 2 * ix.len() <= b.len(),
        b.subrange(q, q + 2 * ix.len()) == indices_bytes(ix),
    ensures
        Seq::new(ix.len(), |k: int| u16_at(b, q + 2 * k)) == ix,
{
    lemma_indices_bytes(ix);
    let enc = indices_bytes(ix);
    assert forall|k: int| 0 <= k < ix.len() implies u16_at(b, q + 2 * k) == ix[k] by {
        assert(enc.subrange(2 * k, 2 * k + 2) == u16_le_bytes(ix[k]));
        assert(b.subrange(q + 2 * k, q + 2 * k + 2) =~= enc.subrange(2 * k, 2 * k + 2));
        lemma_u16_at(b, q + 2 * k, ix[k]);
    }
    assert(Seq::new(ix.len(), |k: int| u16_at(b, q + 2 * k)) =~= ix);
}

/// A mesh as it reads back: an empty texture comes back as no texture.
pub open spec fn as_read_back(m: MeshModel) -> MeshModel {
    match m.texture {
        Some(t) => if t.len() == 0 {
            MeshModel { texture: None, ..m }
        } else {
            m
        },
        None => m,
    }
}

proof fn lemma_parse_mesh_bytes(b: Seq<u8>, p: int, m: MeshModel)
    requires
        0 <= p,
        mesh_encodable(m),
        p + mesh_bytes(m).len() <= b.len(),
        b.subrange(p, p + mesh_bytes(m).len()) == mesh_bytes(m),
    ensures
        parse_mesh(b, p) == Some((as_read_back(m), p + mesh_bytes(m).len())),
{
    let c = float4_bytes(m.diffuse);
    let nvb = u32_le_bytes(m.vertices.len() as u32);
    let vb = vertices_bytes(m.vertices);
    let nib = u32_le_bytes(m.indices.len() as u32);
    let ib = indices_bytes(m.indices);
    let tb = texture_bytes(m.texture);
    lemma_vertices_bytes(m.vertices);
    lemma_indices_bytes(m.indices);
    lemma_split(b, p, c + nvb + vb + nib + ib, tb);
    lemma_split(b, p, c + nvb + vb + nib, ib);
    lemma_split(b, p, c + nvb + vb, nib);
    lemma_split(b, p, c + nvb, vb);
    lemma_split(b, p, c, nvb);
    lemma_float4_at(b, p, m.diffuse);
    lemma_u32_at(b, p + 16, m.vertices.len() as u32);
    let q = p + 20;
    lemma_vertices_at(b, q, m.vertices);
    let r = q + 32 * m.vertices.len();
    lemma_u32_at(b, r, m.indices.len() as u32);
    lemma_indices_at(b, r + 4, m.indices);
    let s = r + 4 + 2 * m.indices.len();
    match m.texture {
        Some(t) => {
            lemma_split(b, s, u32_le_bytes(t.len() as u32), t);
            lemma_u32_at(b, s, t.len() as u32);
            if t.len() == 0 {
                assert(as_read_back(m).texture is None);
            }
        },
        None => {
            lemma_u32_at(b, s, 0);
        },
    }
}

proof fn lemma_parse_meshes_bytes(b: Seq<u8>, p: int, ms: Seq<MeshModel>)
    requires
        0 <= p,
        forall|i: int| 0 <= i < ms.len() ==> #[trigger] mesh_encodable(ms[i]),
        p + meshes_bytes(ms).len() <= b.len(),
        b.subrange(p, p + meshes_bytes(ms).len()) == meshes_bytes(ms),
    ensures
        parse_meshes(b, p, ms.len()) == Some((ms.map_values(|m: MeshModel| as_read_back(m)), p + meshes_bytes(ms).len())),
    decreases ms.len(),
{
    if ms.len() == 0 {
        assert(ms.map_values(|m: MeshModel| as_read_back(m)) =~= Seq::<MeshModel>::empty());
    } else {
        let init = ms.drop_last();
        let last = ms.last();
        lemma_split(b, p, meshes_bytes(init), mesh_bytes(last));
        assert forall|i: int| 0 <= i < init.len() implies #[trigger] mesh_encodable(init[i]) by {
            assert(mesh_encodable(ms[i]));
        }
        lemma_parse_meshes_bytes(b, p, init);
        assert(mesh_encodable(ms[ms.len() - 1]));
        lemma_parse_mesh_bytes(b, p + meshes_bytes(init).len(), last);
        assert(((ms.len() - 1) as nat) == init.len());
        assert(ms.map_values(|m: MeshModel| as_read_back(m)) =~= init.map_values(
            |m: MeshModel| as_read_back(m),
        ).push(as_read_back(last)));
    }
}

proof fn lemma_stream_reads_back(ms: Seq<MeshModel>)
    requires
        ms.len() <= u32::MAX,
        forall|i: int| 0 <= i < ms.len() ==> #[trigger] mesh_encodable(ms[i]),
    ensures
        decode_spec(stream_bytes(ms)) == Ok::<Seq<MeshModel>, AssetError>(ms.map_values(|m: MeshModel| as_read_back(m))),
        u32_at(stream_bytes(ms), 4) == ms.len(),
        parse_meshes(stream_bytes(ms), 8, ms.len()) is Some,
        parse_meshes(stream_bytes(ms), 8, ms.len())->Some_0.1 == stream_bytes(ms).len(),
{
    let b = stream_bytes(ms);
    let hdr = magic() + u32_le_bytes(ms.len() as u32);
    assert(b.subrange(0, b.len() as int) =~= b);
    lemma_split(b, 0, hdr, meshes_bytes(ms));
    lemma_split(b, 0, magic(), u32_le_bytes(ms.len() as u32));
    assert(has_magic(b));
    lemma_u32_at(b, 4, ms.len() as u32);
    lemma_parse_meshes_bytes(b, 8, ms);
}

/// Writing meshes and reading the bytes back yields the same meshes, field
/// for field, for every sequence the writer accepts whose textures, where
/// present, are not empty.
pub proof fn lemma_round_trip(ms: Seq<MeshModel>)
    requires
        ms.len() <= u32::MAX,
        forall|i: int| 0 <= i < ms.len() ==> #[trigger] mesh_faithful(ms[i]),
    ensures
        decode_spec(stream_bytes(ms)) == Ok::<Seq<MeshModel>, AssetError>(ms),
{
    assert forall|i: int| 0 <= i < ms.len() implies #[trigger] mesh_encodable(ms[i]) by {
        assert(mesh_faithful(ms[i]));
    }
    lemma_stream_reads_back(ms);
    assert forall|i: int| 0 <= i < ms.len() implies as_read_back(ms[i]) == ms[i] by {
        assert(mesh_faithful(ms[i]));
    }
    assert(ms.map_values(|m: MeshModel| as_read_back(m)) =~= ms);
}

/// A stream whose first four bytes are not `"MESH"` is refused as malformed,
/// whatever follows them.
pub proof fn lemma_magic_rejected(b: Seq<u8>, rest: Seq<u8>)
    requires
        b.len() >= 4,
        b.subrange(0, 4) != magic(),
    ensures
        decode_spec(b) == Err::<Seq<MeshModel>, AssetError>(AssetError::Format),
        decode_spec(b.subrange(0, 4) + rest) == Err::<Seq<MeshModel>, AssetError>(AssetError::Format),
{
    let c = b.subrange(0, 4) + rest;
    assert(c.subrange(0, 4) =~= b.subrange(0, 4));
}

// ------------------------------------------------------- reading a cut stream

proof fn lemma_u32_at_take(b: Seq<u8>, k: int, x: int)
    requires
        0 <= x,
        x + 4 <= k <= b.len(),
    ensures
        u32_at(b.take(k), x) == u32_at(b, x),
{
    let t = b.take(k);
    assert(t[x] == b[x] && t[x + 1] == b[x + 1] && t[x + 2] == b[x + 2] && t[x + 3] == b[x + 3]);
}

/// Cutting the stream after the end of a mesh changes nothing in it.
proof fn lemma_parse_mesh_take(b: Seq<u8>, p: int, k: int)
    requires
        0 <= p,
        parse_mesh(b, p) is Some,
        parse_mesh(b, p)->Some_0.1 <= k <= b.len(),
    ensures
        parse_mesh(b.take(k), p) == parse_mesh(b, p),
{
    let t = b.take(k);
    let q = p + 20;
    let nv = u32_at(b, p + 16) as int;
    let r = q + 32 * nv;
    let ni = u32_at(b, r) as int;
    let s = r + 4 + 2 * ni;
    let nt = u32_at(b, s) as int;
    let e = s + 4 + nt;
    lemma_u32_at_take(b, k, p);
    lemma_u32_at_take(b, k, p + 4);
    lemma_u32_at_take(b, k, p + 8);
    lemma_u32_at_take(b, k, p + 12);
    lemma_u32_at_take(b, k, p + 16);
    lemma_u32_at_take(b, k, r);
    lemma_u32_at_take(b, k, s);
    assert forall|j: int| 0 <= j < nv implies #[trigger] vertex_at(t, q + 32 * j) == vertex_at(b, q + 32 * j) by {
        let x = q + 32 * j;
        lemma_u32_at_take(b, k, x);
        lemma_u32_at_take(b, k, x + 4);
        lemma_u32_at_take(b, k, x + 8);
        lemma_u32_at_take(b, k, x + 12);
        lemma_u32_at_take(b, k, x + 16);
        lemma_u32_at_take(b, k, x + 20);
        lemma_u32_at_take(b, k, x + 24);
        lemma_u32_at_take(b, k, x + 28);
    }
    assert forall|j: int| 0 <= j < ni implies #[trigger] u16_at(t, r + 4 + 2 * j) == u16_at(b, r + 4 + 2 * j) by {
        let x = r + 4 + 2 * j;
        assert(t[x] == b[x] && t[x + 1] == b[x + 1]);
    }
    assert(Seq::new(nv as nat, |j: int| vertex_at(t, q + 32 * j)) =~= Seq::new(
        nv as nat,
        |j: int| vertex_at(b, q + 32 * j),
    ));
    assert(Seq::new(ni as nat, |j: int| u16_at(t, r + 4 + 2 * j)) =~= Seq::new(
        ni as nat,
        |j: int| u16_at(b, r + 4 + 2 * j),
    ));
    assert(t.subrange(s + 4, e) =~= b.subrange(s + 4, e));
}

/// Cutting the stream before the end of a mesh makes that mesh a short read.
proof fn lemma_parse_mesh_cut(b: Seq<u8>, p: int, k: int)
    requires
        0 <= p,
        0 <= k,
        parse_mesh(b, p) is Some,
        k < parse_mesh(b, p)->Some_0.1,
    ensures
        parse_mesh(b.take(k), p) is None,
{
    let q = p + 20;
    if k >= q {
        lemma_u32_at_take(b, k, p + 16);
        let nv = u32_at(b, p + 16) as int;
        let r = q + 32 * nv;
        if k >= r + 4 {
            lemma_u32_at_take(b, k, r);
            let ni = u32_at(b, r) as int;
            let s = r + 4 + 2 * ni;
            if k >= s + 4 {
                lemma_u32_at_take(b, k, s);
            }
        }
    }
}

proof fn lemma_parse_meshes_end(b: Seq<u8>, p: int, n: nat)
    requires
        parse_meshes(b, p, n) is Some,
    ensures
        parse_meshes(b, p, n)->Some_0.1 >= p,
    decreases n,
{
    if n > 0 {
        lemma_parse_meshes_end(b, p, (n - 1) as nat);
    }
}

proof fn lemma_parse_meshes_take(b: Seq<u8>, p: int, n: nat, k: int)
    requires
        0 <= p,
        parse_meshes(b, p, n) is Some,
        parse_meshes(b, p, n)->Some_0.1 <= k <= b.len(),
    ensures
        parse_meshes(b.take(k), p, n) == parse_meshes(b, p, n),
    decreases n,
{
    if n > 0 {
        let (_, q) = parse_meshes(b, p, (n - 1) as nat)->Some_0;
        lemma_parse_meshes_end(b, p, (n - 1) as nat);
        lemma_parse_meshes_take(b, p, (n - 1) as nat, k);
        lemma_parse_mesh_take(b, q, k);
    }
}

proof fn lemma_parse_meshes_cut(b: Seq<u8>, p: int, n: nat, k: int)
    requires
        0 <= p <= k,
        parse_meshes(b, p, n) is Some,
        k < parse_meshes(b, p, n)->Some_0.1,
    ensures
        parse_meshes(b.take(k), p, n) is None,
    decreases n,
{
    if n > 0 {
        let (_, q) = parse_meshes(b, p, (n - 1) as nat)->Some_0;
        lemma_parse_meshes_end(b, p, (n - 1) as nat);
        if k < q {
            lemma_parse_meshes_cut(b, p, (n - 1) as nat, k);
        } else {
            lemma_parse_meshes_take(b, p, (n - 1) as nat, k);
            lemma_parse_mesh_cut(b, q, k);
        }
    }
}

/// A written stream cut off at any offset short of its end is refused as a
/// short read: no mesh of it is handed out.
pub proof fn lemma_truncation(ms: Seq<MeshModel>, k: int)
    requires
        ms.len() <= u32::MAX,
        forall|i: int| 0 <= i < ms.len() ==> #[trigger] mesh_encodable(ms[i]),
        0 <= k < stream_bytes(ms).len(),
    ensures
        decode_spec(stream_bytes(ms).take(k)) == Err::<Seq<MeshModel>, AssetError>(AssetError::Io),
{
    let b = stream_bytes(ms);
    let t = b.take(k);
    lemma_stream_reads_back(ms);
    if k >= 8 {
        assert(t.subrange(0, 4) =~= b.subrange(0, 4));
        lemma_u32_at_take(b, k, 4);
        lemma_parse_meshes_cut(b, 8, u32_at(b, 4) as nat, k);
    } else if k >= 4 {
        assert(t.subrange(0, 4) =~= b.subrange(0, 4));
    }
}

} // verus!
