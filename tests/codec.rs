use mesh_pipeline::bytes::push_u32_le;
use mesh_pipeline::codec::{decode, encode};
use mesh_pipeline::model::{AssetError, Float2, Float3, Float4, MeshRecord, Vertex};

fn f(x: f32) -> u32 {
    x.to_bits()
}

fn vertex(i: u32) -> Vertex {
    let b = i as f32;
    Vertex {
        position: Float3 { x: f(b), y: f(b + 0.5), z: f(-b) },
        uv: Float2 { x: f(0.25), y: f(0.75) },
        normal: Float3 { x: f(0.0), y: f(1.0), z: f(0.0) },
    }
}

fn color(r: f32, g: f32, b: f32, a: f32) -> Float4 {
    Float4 { x: f(r), y: f(g), z: f(b), w: f(a) }
}

fn sample_meshes() -> Vec<MeshRecord> {
    vec![
        MeshRecord {
            diffuse: color(1.0, 0.5, 0.25, 1.0),
            vertices: vec![vertex(0), vertex(1), vertex(2)],
            indices: vec![0, 1, 2],
            texture: Some(vec![9, 8, 7, 6, 5]),
        },
        MeshRecord { diffuse: color(0.0, 0.0, 0.0, 0.0), vertices: vec![], indices: vec![], texture: None },
        MeshRecord {
            diffuse: color(0.1, 0.2, 0.3, 0.4),
            vertices: vec![vertex(7)],
            indices: vec![],
            texture: None,
        },
        MeshRecord {
            diffuse: color(0.9, 0.8, 0.7, 0.6),
            vertices: vec![],
            indices: vec![65535, 0],
            texture: Some(vec![1]),
        },
    ]
}

#[test]
fn round_trip_mixed_meshes() {
    let meshes = sample_meshes();
    let bytes = encode(&meshes);
    assert_eq!(decode(&bytes), Ok(meshes));
}

#[test]
fn round_trip_zero_meshes() {
    let bytes = encode(&[]);
    assert_eq!(bytes, b"MESH\0\0\0\0".to_vec());
    assert_eq!(decode(&bytes), Ok(vec![]));
}

#[test]
fn encode_exact_layout() {
    let mesh = MeshRecord {
        diffuse: Float4 { x: 1, y: 2, z: 3, w: 4 },
        vertices: vec![Vertex {
            position: Float3 { x: 0x0403_0201, y: 0, z: 0 },
            uv: Float2 { x: 0, y: 0 },
            normal: Float3 { x: 0, y: 0, z: 0xdead_beef },
        }],
        indices: vec![0x0102],
        texture: Some(vec![0xaa, 0xbb]),
    };
    let bytes = encode(&[mesh]);
    let mut expected: Vec<u8> = b"MESH".to_vec();
    expected.extend_from_slice(&1u32.to_le_bytes());
    for c in [1u32, 2, 3, 4] {
        expected.extend_from_slice(&c.to_le_bytes());
    }
    expected.extend_from_slice(&1u32.to_le_bytes());
    expected.extend_from_slice(&[1, 2, 3, 4]);
    expected.extend_from_slice(&[0; 24]);
    expected.extend_from_slice(&[0xef, 0xbe, 0xad, 0xde]);
    expected.extend_from_slice(&1u32.to_le_bytes());
    expected.extend_from_slice(&[0x02, 0x01]);
    expected.extend_from_slice(&2u32.to_le_bytes());
    expected.extend_from_slice(&[0xaa, 0xbb]);
    assert_eq!(bytes, expected);
    assert_eq!(bytes.len(), 4 + 4 + 16 + 4 + 32 + 4 + 2 + 4 + 2);
}

#[test]
fn push_u32_le_little_endian() {
    let mut out = vec![7u8];
    push_u32_le(&mut out, 0x1234_5678);
    assert_eq!(out, vec![7, 0x78, 0x56, 0x34, 0x12]);
}

#[test]
fn magic_rejection() {
    let mut bytes = encode(&sample_meshes());
    bytes[3] = b'X';
    assert_eq!(decode(&bytes), Err(AssetError::Format));
    assert_eq!(decode(b"mesh"), Err(AssetError::Format));
    assert_eq!(decode(b"ABCD\x01\x00\x00\x00"), Err(AssetError::Format));
}

#[test]
fn short_magic_is_short_read() {
    assert_eq!(decode(b""), Err(AssetError::Io));
    assert_eq!(decode(b"MES"), Err(AssetError::Io));
    assert_eq!(decode(b"MESH\x01\x00"), Err(AssetError::Io));
}

#[test]
fn truncation_at_every_offset() {
    let bytes = encode(&sample_meshes());
    for k in 0..bytes.len() {
        assert_eq!(decode(&bytes[..k]), Err(AssetError::Io), "cut at {}", k);
    }
}

#[test]
fn huge_declared_count_is_short_read() {
    let mut bytes: Vec<u8> = b"MESH".to_vec();
    bytes.extend_from_slice(&1u32.to_le_bytes());
    bytes.extend_from_slice(&[0; 16]);
    bytes.extend_from_slice(&u32::MAX.to_le_bytes());
    bytes.extend_from_slice(&[0; 64]);
    assert_eq!(decode(&bytes), Err(AssetError::Io));
}

#[test]
fn trailing_bytes_are_ignored() {
    let meshes = sample_meshes();
    let mut bytes = encode(&meshes);
    bytes.extend_from_slice(&[1, 2, 3]);
    assert_eq!(decode(&bytes), Ok(meshes));
}

#[test]
fn empty_texture_reads_back_as_none() {
    let mesh = MeshRecord { diffuse: color(1.0, 1.0, 1.0, 1.0), vertices: vec![], indices: vec![], texture: Some(vec![]) };
    let decoded = decode(&encode(&[mesh])).unwrap();
    assert_eq!(decoded[0].texture, None);
}

#[test]
fn concrete_scenario() {
    let mut bytes: Vec<u8> = b"MESH".to_vec();
    bytes.extend_from_slice(&1u32.to_le_bytes());
    for c in [0.1f32, 0.2, 0.3, 0.4] {
        bytes.extend_from_slice(&c.to_le_bytes());
    }
    bytes.extend_from_slice(&3u32.to_le_bytes());
    for i in 0..3u32 {
        for k in 0..8u32 {
            bytes.extend_from_slice(&((i * 8 + k) as f32).to_le_bytes());
        }
    }
    bytes.extend_from_slice(&3u32.to_le_bytes());
    for i in [0u16, 1, 2] {
        bytes.extend_from_slice(&i.to_le_bytes());
    }
    bytes.extend_from_slice(&0u32.to_le_bytes());
    let meshes = decode(&bytes).unwrap();
    assert_eq!(meshes.len(), 1);
    let m = &meshes[0];
    assert_eq!(m.diffuse, color(0.1, 0.2, 0.3, 0.4));
    assert_eq!(m.vertices.len(), 3);
    assert_eq!(m.indices, vec![0, 1, 2]);
    assert_eq!(m.texture, None);
    assert_eq!(m.vertices[1].position, Float3 { x: f(8.0), y: f(9.0), z: f(10.0) });
    assert_eq!(m.vertices[1].uv, Float2 { x: f(11.0), y: f(12.0) });
    assert_eq!(m.vertices[1].normal, Float3 { x: f(13.0), y: f(14.0), z: f(15.0) });
}
