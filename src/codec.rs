//! The binary mesh format: `"MESH"`, a mesh count, then per mesh its diffuse
//! colour, counted vertices, counted `u16` indices and a counted texture
//! container (length 0 for none). Little-endian throughout.
use vstd::prelude::*;
use crate::bytes::{push_u16_le, push_u32_le, read_u16_le, read_u32_le, u16_from_le, u16_le_bytes, u32_from_le, u32_le_bytes};
use crate::model::{records_view, AssetError, Float2, Float3, Float4, MeshModel, MeshRecord, Vertex};

verus! {

// ---------------------------------------------------------------- encoding

pub open spec fn float2_bytes(v: Float2) -> Seq<u8> {
    u32_le_bytes(v.x) + u32_le_bytes(v.y)
}

pub open spec fn float3_bytes(v: Float3) -> Seq<u8> {
    u32_le_bytes(v.x) + u32_le_bytes(v.y) + u32_le_bytes(v.z)
}

pub open spec fn float4_bytes(v: Float4) -> Seq<u8> {
    u32_le_bytes(v.x) + u32_le_bytes(v.y) + u32_le_bytes(v.z) + u32_le_bytes(v.w)
}

/// The 32-byte wire record of a vertex.
pub open spec fn vertex_bytes(v: Vertex) -> Seq<u8> {
    float3_bytes(v.position) + float2_bytes(v.uv) + float3_bytes(v.normal)
}

pub open spec fn vertices_bytes(vs: Seq<Vertex>) -> Seq<u8>
    decreases vs.len(),
{
    if vs.len() == 0 {
        Seq::empty()
    } else {
        vertices_bytes(vs.drop_last()) + vertex_bytes(vs.last())
    }
}

pub open spec fn indices_bytes(ix: Seq<u16>) -> Seq<u8>
    decreases ix.len(),
{
    if ix.len() == 0 {
        Seq::empty()
    } else {
        indices_bytes(ix.drop_last()) + u16_le_bytes(ix.last())
    }
}

pub open spec fn texture_bytes(t: Option<Seq<u8>>) -> Seq<u8> {
    match t {
        Some(b) => u32_le_bytes(b.len() as u32) + b,
        None => u32_le_bytes(0),
    }
}

/// The wire form of one mesh: counts come before their payloads.
pub open spec fn mesh_bytes(m: MeshModel) -> Seq<u8> {
    float4_bytes(m.diffuse) + u32_le_bytes(m.vertices.len() as u32) + vertices_bytes(m.vertices)
        + u32_le_bytes(m.indices.len() as u32) + indices_bytes(m.indices) + texture_bytes(m.texture)
}

pub open spec fn meshes_bytes(ms: Seq<MeshModel>) -> Seq<u8>
    decreases ms.len(),
{
    if ms.len() == 0 {
        Seq::empty()
    } else {
        meshes_bytes(ms.drop_last()) + mesh_bytes(ms.last())
    }
}

/// `"MESH"` in ASCII.
pub open spec fn magic() -> Seq<u8> {
    seq![0x4du8, 0x45u8, 0x53u8, 0x48u8]
}

/// The whole byte stream for a sequence of meshes.
pub open spec fn stream_bytes(ms: Seq<MeshModel>) -> Seq<u8> {
    magic() + u32_le_bytes(ms.len() as u32) + meshes_bytes(ms)
}

/// What the writer may be handed: at most 65535 vertices, so that `u16`
/// indices can address them all, and every other count within `u32`.
pub open spec fn mesh_encodable(m: MeshModel) -> bool {
    &&& m.vertices.len() <= 0xffff
    &&& m.indices.len() <= u32::MAX
    &&& match m.texture {
        Some(t) => t.len() <= u32::MAX,
        None => true,
    }
}

pub open spec fn stream_encodable(ms: Seq<MeshModel>) -> bool {
    &&& ms.len() <= u32::MAX
    &&& forall|i: int| 0 <= i < ms.len() ==> #[trigger] mesh_encodable(ms[i])
}

/// A mesh that survives a trip through the format unchanged: a texture, when
/// present, is not empty (a zero length on the wire means "no texture").
pub open spec fn mesh_faithful(m: MeshModel) -> bool {
    &&& mesh_encodable(m)
    &&& match m.texture {
        Some(t) => t.len() > 0,
        None => true,
    }
}

// ---------------------------------------------------------------- decoding

pub open spec fn u32_at(b: Seq<u8>, p: int) -> u32 {
    u32_from_le(b[p], b[p + 1], b[p + 2], b[p + 3])
}

pub open spec fn u16_at(b: Seq<u8>, p: int) -> u16 {
    u16_from_le(b[p], b[p + 1])
}

pub open spec fn float2_at(b: Seq<u8>, p: int) -> Float2 {
    Float2 { x: u32_at(b, p), y: u32_at(b, p + 4) }
}

pub open spec fn float3_at(b: Seq<u8>, p: int) -> Float3 {
    Float3 { x: u32_at(b, p), y: u32_at(b, p + 4), z: u32_at(b, p + 8) }
}

pub open spec fn float4_at(b: Seq<u8>, p: int) -> Float4 {
    Float4 { x: u32_at(b, p), y: u32_at(b, p + 4), z: u32_at(b, p + 8), w: u32_at(b, p + 12) }
}

pub open spec fn vertex_at(b: Seq<u8>, p: int) -> Vertex {
    Vertex { position: float3_at(b, p), uv: float2_at(b, p + 12), normal: float3_at(b, p + 20) }
}

/// Parses the mesh that starts at `p`: the mesh and the offset just past it,
/// or `None` where a declared count runs past the end of `b`.
pub open spec fn parse_mesh(b: Seq<u8>, p: int) -> Option<(MeshModel, int)> {
    let q = p + 20;
    if q > b.len() {
        None
    } else {
        let nv = u32_at(b, p + 16) as int;
        let r = q + 32 * nv;
        if r + 4 > b.len() {
            None
        } else {
            let ni = u32_at(b, r) as int;
            let s = r + 4 + 2 * ni;
            if s + 4 > b.len() {
                None
            } else {
                let nt = u32_at(b, s) as int;
                let e = s + 4 + nt;
                if e > b.len() {
                    None
                } else {
                    Some((MeshModel {
                        diffuse: float4_at(b, p),
                        vertices: Seq::new(nv as nat, |k: int| vertex_at(b, q + 32 * k)),
                        indices: Seq::new(ni as nat, |k: int| u16_at(b, r + 4 + 2 * k)),
                        texture: if nt == 0 { None } else { Some(b.subrange(s + 4, e)) },
                    }, e))
                }
            }
        }
    }
}

/// Parses `n` meshes one after another from `p`.
pub open spec fn parse_meshes(b: Seq<u8>, p: int, n: nat) -> Option<(Seq<MeshModel>, int)>
    decreases n,
{
    if n == 0 {
        Some((Seq::empty(), p))
    } else {
        match parse_meshes(b, p, (n - 1) as nat) {
            Some((ms, q)) => match parse_mesh(b, q) {
                Some((m, e)) => Some((ms.push(m), e)),
                None => None,
            },
            None => None,
        }
    }
}

pub open spec fn has_magic(b: Seq<u8>) -> bool {
    b.len() >= 4 && b.subrange(0, 4) == magic()
}

/// What decoding a stream yields. A short read anywhere is `Io`; four bytes
/// that are not `"MESH"` are `Format`. Bytes after the last mesh are ignored.
pub open spec fn decode_spec(b: Seq<u8>) -> Result<Seq<MeshModel>, AssetError> {
    if b.len() < 4 {
        Err(AssetError::Io)
    } else if !has_magic(b) {
        Err(AssetError::Format)
    } else if b.len() < 8 {
        Err(AssetError::Io)
    } else {
        match parse_meshes(b, 8, u32_at(b, 4) as nat) {
            Some((ms, _)) => Ok(ms),
            None => Err(AssetError::Io),
        }
    }
}

pub open spec fn decoded_view(r: Result<Vec<MeshRecord>, AssetError>) -> Result<Seq<MeshModel>, AssetError> {
    match r {
        Ok(v) => Ok(records_view(v@)),
        Err(e) => Err(e),
    }
}

// ---------------------------------------------------------------- writer

fn push_float2(out: &mut Vec<u8>, v: Float2)
    ensures
        final(out)@ == old(out)@ + float2_bytes(v),
{
    push_u32_le(out, v.x);
    push_u32_le(out, v.y);
    assert(out@ =~= old(out)@ + float2_bytes(v));
}

fn push_float3(out: &mut Vec<u8>, v: Float3)
    ensures
        final(out)@ == old(out)@ + float3_bytes(v),
{
    push_u32_le(out, v.x);
    push_u32_le(out, v.y);
    push_u32_le(out, v.z);
    assert(out@ =~= old(out)@ + float3_bytes(v));
}

fn push_float4(out: &mut Vec<u8>, v: Float4)
    ensures
        final(out)@ == old(out)@ + float4_bytes(v),
{
    push_u32_le(out, v.x);
    push_u32_le(out, v.y);
    push_u32_le(out, v.z);
    push_u32_le(out, v.w);
    assert(out@ =~= old(out)@ + float4_bytes(v));
}

/// Appends the 32-byte record of `v`.
pub fn push_vertex(out: &mut Vec<u8>, v: Vertex)
    ensures
        final(out)@ == old(out)@ + vertex_bytes(v),
{
    push_float3(out, v.position);
    push_float2(out, v.uv);
    push_float3(out, v.normal);
    assert(out@ =~= old(out)@ + vertex_bytes(v));
}

/// Appends the wire form of one mesh.
pub fn encode_mesh(out: &mut Vec<u8>, m: &MeshRecord)
    requires
        mesh_encodable(m@),
    ensures
        final(out)@ == old(out)@ + mesh_bytes(m@),
{
    let ghost start = old(out)@;
    push_float4(out, m.diffuse);
    push_u32_le(out, m.vertices.len() as u32);
    let ghost before_vertices = out@;
    let mut i: usize = 0;
    while i < m.vertices.len()
        invariant
            i <= m.vertices@.len(),
            out@ == before_vertices + vertices_bytes(m.vertices@.take(i as int)),
        decreases m.vertices@.len() - i,
    {
        push_vertex(out, m.vertices[i]);
        proof {
            let t = m.vertices@.take(i + 1);
            assert(t.drop_last() =~= m.vertices@.take(i as int));
        }
        i = i + 1;
    }
    assert(m.vertices@.take(i as int) =~= m.vertices@);
    push_u32_le(out, m.indices.len() as u32);
    let ghost before_indices = out@;
    let mut j: usize = 0;
    while j < m.indices.len()
        invariant
            j <= m.indices@.len(),
            out@ == before_indices + indices_bytes(m.indices@.take(j as int)),
        decreases m.indices@.len() - j,
    {
        push_u16_le(out, m.indices[j]);
        proof {
            let t = m.indices@.take(j + 1);
            assert(t.drop_last() =~= m.indices@.take(j as int));
        }
        j = j + 1;
    }
    assert(m.indices@.take(j as int) =~= m.indices@);
    let ghost before_texture = out@;
    match &m.texture {
        Some(t) => {
            push_u32_le(out, t.len() as u32);
            let mut k: usize = 0;
            while k < t.len()
                invariant
                    k <= t@.len(),
                    out@ == before_texture + u32_le_bytes(t@.len() as u32) + t@.take(k as int),
                decreases t@.len() - k,
            {
                out.push(t[k]);
                assert(t@.take(k + 1) =~= t@.take(k as int).push(t@[k as int]));
                assert(out@ =~= before_texture + u32_le_bytes(t@.len() as u32) + t@.take(k + 1));
                k = k + 1;
            }
            assert(t@.take(k as int) =~= t@);
        },
        None => {
            push_u32_le(out, 0);
        },
    }
    assert(out@ =~= start + mesh_bytes(m@));
}

/// Writes a whole stream: the magic, the mesh count, then every mesh in order.
pub fn encode(meshes: &[MeshRecord]) -> (r: Vec<u8>)
    requires
        stream_encodable(records_view(meshes@)),
    ensures
        r@ == stream_bytes(records_view(meshes@)),
{
    let ghost ms = records_view(meshes@);
    let mut out: Vec<u8> = Vec::new();
    out.push(0x4d);
    out.push(0x45);
    out.push(0x53);
    out.push(0x48);
    push_u32_le(&mut out, meshes.len() as u32);
    let ghost header = out@;
    let mut i: usize = 0;
    while i < meshes.len()
        invariant
            i <= meshes@.len(),
            ms == records_view(meshes@),
            stream_encodable(ms),
            out@ == header + meshes_bytes(ms.take(i as int)),
        decreases meshes@.len() - i,
    {
        assert(mesh_encodable(ms[i as int]));
        encode_mesh(&mut out, &meshes[i]);
        proof {
            let t = ms.take(i + 1);
            assert(t.drop_last() =~= ms.take(i as int));
            assert(t.last() == meshes@[i as int]@);
        }
        i = i + 1;
    }
    assert(ms.take(i as int) =~= ms);
    assert(out@ =~= stream_bytes(ms));
    out
}

// ---------------------------------------------------------------- reader

fn read_float2(b: &[u8], p: usize) -> (v: Float2)
    requires
        p + 8 <= b.len(),
    ensures
        v == float2_at(b@, p as int),
{
    Float2 { x: read_u32_le(b, p), y: read_u32_le(b, p + 4) }
}

fn read_float3(b: &[u8], p: usize) -> (v: Float3)
    requires
        p + 12 <= b.len(),
    ensures
        v == float3_at(b@, p as int),
{
    Float3 { x: read_u32_le(b, p), y: read_u32_le(b, p + 4), z: read_u32_le(b, p + 8) }
}

fn read_float4(b: &[u8], p: usize) -> (v: Float4)
    requires
        p + 16 <= b.len(),
    ensures
        v == float4_at(b@, p as int),
{
    Float4 {
        x: read_u32_le(b, p),
        y: read_u32_le(b, p + 4),
        z: read_u32_le(b, p + 8),
        w: read_u32_le(b, p + 12),
    }
}

/// Reads the 32-byte vertex record at `p`.
pub fn read_vertex(b: &[u8], p: usize) -> (v: Vertex)
    requires
        p + 32 <= b.len(),
    ensures
        v == vertex_at(b@, p as int),
{
    Vertex { position: read_float3(b, p), uv: read_float2(b, p + 12), normal: read_float3(b, p + 20) }
}

/// Reads the mesh that starts at `p`, checking every declared count against
/// the bytes that are left before reading the payload it announces.
pub fn read_mesh(b: &[u8], p: usize) -> (r: Option<(MeshRecord, usize)>)
    requires
        p <= b@.len(),
    ensures
        match (parse_mesh(b@, p as int), r) {
            (Some((m, e)), Some((rec, f))) => rec@ == m && f == e,
            (None, None) => true,
            _ => false,
        },
{
    let len = b.len();
    if len - p < 20 {
        return None;
    }
    let diffuse = read_float4(b, p);
    let nv = read_u32_le(b, p + 16) as usize;
    let q = p + 20;
    if len - q < 4 || nv > (len - q - 4) / 32 {
        return None;
    }
    let mut vertices: Vec<Vertex> = Vec::new();
    let mut i: usize = 0;
    while i < nv
        invariant
            i <= nv,
            q + 32 * nv + 4 <= b.len(),
            vertices@ == Seq::new(i as nat, |k: int| vertex_at(b@, q + 32 * k)),
        decreases nv - i,
    {
        vertices.push(read_vertex(b, q + 32 * i));
        assert(vertices@ =~= Seq::new((i + 1) as nat, |k: int| vertex_at(b@, q + 32 * k)));
        i = i + 1;
    }
    let r0 = q + 32 * nv;
    let ni = read_u32_le(b, r0) as usize;
    let s0 = r0 + 4;
    if len - s0 < 4 || ni > (len - s0 - 4) / 2 {
        return None;
    }
    let mut indices: Vec<u16> = Vec::new();
    let mut j: usize = 0;
    while j < ni
        invariant
            j <= ni,
            s0 + 2 * ni + 4 <= b.len(),
            indices@ == Seq::new(j as nat, |k: int| u16_at(b@, s0 + 2 * k)),
        decreases ni - j,
    {
        indices.push(read_u16_le(b, s0 + 2 * j));
        assert(indices@ =~= Seq::new((j + 1) as nat, |k: int| u16_at(b@, s0 + 2 * k)));
        j = j + 1;
    }
    let s = s0 + 2 * ni;
    let nt = read_u32_le(b, s) as usize;
    let u = s + 4;
    if nt > len - u {
        return None;
    }
    let e = u + nt;
    let texture = if nt == 0 {
        None
    } else {
        let mut t: Vec<u8> = Vec::new();
        let mut k: usize = u;
        while k < e
            invariant
                u <= k <= e,
                e <= b@.len(),
                t@ == b@.subrange(u as int, k as int),
            decreases e - k,
        {
            t.push(b[k]);
            assert(t@ =~= b@.subrange(u as int, k + 1));
            k = k + 1;
        }
        Some(t)
    };
    let rec = MeshRecord { diffuse, vertices, indices, texture };
    proof {
        let (m, _) = parse_mesh(b@, p as int)->Some_0;
        assert(rec@.vertices =~= m.vertices);
        assert(rec@.indices =~= m.indices);
    }
    Some((rec, e))
}

proof fn lemma_parse_meshes_stays_none(b: Seq<u8>, p: int, k: nat, n: nat)
    requires
        k <= n,
        parse_meshes(b, p, k) is None,
    ensures
        parse_meshes(b, p, n) is None,
    decreases n - k,
{
    if k < n {
        lemma_parse_meshes_stays_none(b, p, k, (n - 1) as nat);
    }
}

/// Decodes a whole stream into its meshes.
pub fn decode(bytes: &[u8]) -> (r: Result<Vec<MeshRecord>, AssetError>)
    ensures
        decoded_view(r) == decode_spec(bytes@),
{
    if bytes.len() < 4 {
        return Err(AssetError::Io);
    }
    if bytes[0] != 0x4d || bytes[1] != 0x45 || bytes[2] != 0x53 || bytes[3] != 0x48 {
        assert(!has_magic(bytes@)) by {
            if has_magic(bytes@) {
                assert(bytes@[0] == bytes@.subrange(0, 4)[0]);
                assert(bytes@[1] == bytes@.subrange(0, 4)[1]);
                assert(bytes@[2] == bytes@.subrange(0, 4)[2]);
                assert(bytes@[3] == bytes@.subrange(0, 4)[3]);
            }
        }
        return Err(AssetError::Format);
    }
    assert(bytes@.subrange(0, 4) =~= magic());
    if bytes.len() < 8 {
        return Err(AssetError::Io);
    }
    let n = read_u32_le(bytes, 4);
    let mut out: Vec<MeshRecord> = Vec::new();
    let mut pos: usize = 8;
    let mut i: u32 = 0;
    while i < n
        invariant
            i <= n,
            bytes@.len() >= 8,
            has_magic(bytes@),
            n == u32_at(bytes@, 4),
            pos <= bytes@.len(),
            parse_meshes(bytes@, 8, i as nat) == Some((records_view(out@), pos as int)),
        decreases n - i,
    {
        match read_mesh(bytes, pos) {
            Some((rec, e)) => {
                proof {
                    assert(records_view(out@.push(rec)) =~= records_view(out@).push(rec@));
                }
                out.push(rec);
                pos = e;
            },
            None => {
                proof {
                    assert(parse_meshes(bytes@, 8, (i + 1) as nat) is None);
                    lemma_parse_meshes_stays_none(bytes@, 8, (i + 1) as nat, n as nat);
                }
                return Err(AssetError::Io);
            },
        }
        i = i + 1;
    }
    Ok(out)
}

} // verus!
