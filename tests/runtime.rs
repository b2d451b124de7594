use mesh_pipeline::asset::{Material, MeshAsset};
use mesh_pipeline::codec::encode;
use mesh_pipeline::model::{AssetError, Float2, Float3, Float4, MeshRecord, Vertex};
use mesh_pipeline::registry::Registry;
use mesh_pipeline::renderer::{Combiner, DrawKind, FramePhase, Renderer, CLEAR_COLOR};

fn f(x: f32) -> u32 {
    x.to_bits()
}

fn tri() -> Vec<Vertex> {
    (0..3)
        .map(|i| Vertex {
            position: Float3 { x: f(i as f32), y: 0, z: 0 },
            uv: Float2 { x: 0, y: 0 },
            normal: Float3 { x: 0, y: 0, z: f(1.0) },
        })
        .collect()
}

fn plain_asset(n: usize) -> MeshAsset {
    let v = tri();
    MeshAsset::from_data(&v[..n], None, None, Material::default())
}

#[test]
fn default_material_values() {
    let m = Material::default();
    assert_eq!(m.ambient, Float4 { x: f(0.2), y: f(0.2), z: f(0.2), w: f(0.0) });
    assert_eq!(m.diffuse, Float4 { x: f(0.4), y: f(0.4), z: f(0.4), w: f(0.0) });
    assert_eq!(m.specular, Float4 { x: f(0.8), y: f(0.8), z: f(0.8), w: f(0.0) });
    assert_eq!(m.emission, Float4 { x: f(0.0), y: f(0.0), z: f(0.0), w: f(1.0) });
}

#[test]
fn loader_builds_assets_in_order() {
    let diffuse = Float4 { x: f(0.1), y: f(0.2), z: f(0.3), w: f(0.4) };
    let recs = vec![
        MeshRecord { diffuse, vertices: tri(), indices: vec![2, 1, 0], texture: Some(vec![5, 6]) },
        MeshRecord { diffuse: Float4 { x: 0, y: 0, z: 0, w: 0 }, vertices: vec![], indices: vec![], texture: None },
    ];
    let assets = MeshAsset::from_file_data(&encode(&recs)).unwrap();
    assert_eq!(assets.len(), 2);
    assert_eq!(assets[0].material, Material::with_diffuse(diffuse));
    assert_eq!(assets[0].material.ambient, Material::default().ambient);
    assert_eq!(assets[0].material.diffuse, diffuse);
    assert_eq!(assets[0].vertices, tri());
    assert_eq!(assets[0].indices, Some(vec![2, 1, 0]));
    assert_eq!(assets[0].texture, Some(vec![5, 6]));
    assert_eq!(assets[1].indices, Some(vec![]));
    assert_eq!(assets[1].texture, None);
}

#[test]
fn loader_reports_codec_errors() {
    assert_eq!(MeshAsset::from_file_data(b"NOPE\0\0\0\0").err(), Some(AssetError::Format));
    assert_eq!(MeshAsset::from_file_data(b"MESH\x01\0\0\0").err(), Some(AssetError::Io));
}

#[test]
fn from_data_copies() {
    let v = tri();
    let a = MeshAsset::from_data(&v, Some(&[0, 2, 1]), Some(&[1, 2, 3]), Material::default());
    assert_eq!(a.vertices, v);
    assert_eq!(a.indices, Some(vec![0, 2, 1]));
    assert_eq!(a.texture, Some(vec![1, 2, 3]));
    assert!(a.has_texture());
    assert!(!plain_asset(3).has_texture());
}

#[test]
fn handle_stability() {
    let mut reg = Registry::new();
    let ids: Vec<_> = (1..=3).map(|n| reg.register(plain_asset(n))).collect();
    for (k, id) in ids.iter().enumerate() {
        assert_eq!(id.index(), k);
    }
    let more = reg.register_all(vec![plain_asset(2), plain_asset(1)]);
    assert_eq!(more.iter().map(|h| h.index()).collect::<Vec<_>>(), vec![3, 4]);
    assert_eq!(reg.len(), 5);
    for (k, id) in ids.iter().enumerate() {
        assert_eq!(reg.get(*id).vertices.len(), k + 1);
    }
    assert_eq!(reg.get(more[0]).vertices.len(), 2);
    let mut small = Registry::new();
    small.register(plain_asset(1));
    assert!(small.contains(ids[0]));
    assert!(!small.contains(more[1]));
}

#[test]
fn submission_order_preserved() {
    let mut r: Renderer<u32> = Renderer::new();
    let h1 = r.register_mesh(plain_asset(3));
    let h2 = r.register_mesh(plain_asset(2));
    r.please_render(h1, 10);
    r.please_render(h2, 20);
    r.please_render(h1, 30);
    assert_eq!(r.pending(), 3);
    let setup = r.begin_frame();
    assert_eq!(r.phase(), FramePhase::Drawing);
    assert_eq!(setup.clear_color, CLEAR_COLOR);
    assert_eq!(setup.clear_color, 0x68b0d8ff);
    assert_eq!(setup.alpha_threshold, 0x10);
    assert!(!setup.cull_faces);
    let draws = r.draw_commands();
    let order: Vec<(usize, u32)> = draws.iter().map(|d| (d.mesh.index(), d.model_view)).collect();
    assert_eq!(order, vec![(h1.index(), 10), (h2.index(), 20), (h1.index(), 30)]);
    r.end_frame();
    assert_eq!(r.pending(), 0);
    assert_eq!(r.phase(), FramePhase::Idle);
}

#[test]
fn render_plans_and_clears() {
    let mut r: Renderer<[u32; 2]> = Renderer::new();
    let h = r.register_mesh(plain_asset(3));
    r.please_render(h, [1, 2]);
    let (_, draws) = r.render();
    assert_eq!(draws.len(), 1);
    assert_eq!(draws[0].model_view, [1, 2]);
    assert_eq!(r.pending(), 0);
    let (_, none) = r.render();
    assert!(none.is_empty());
}

#[test]
fn combiner_selection() {
    let v = tri();
    let mut r: Renderer<u8> = Renderer::new();
    let textured = r.register_mesh(MeshAsset::from_data(&v, None, Some(&[1, 2]), Material::default()));
    let plain = r.register_mesh(MeshAsset::from_data(&v, Some(&[0, 1, 2, 2]), None, Material::default()));
    r.please_render(plain, 0);
    r.please_render(textured, 1);
    let (_, draws) = r.render();
    assert_eq!(draws[0].combiner, Combiner::Untextured);
    assert_eq!(draws[1].combiner, Combiner::Textured);
    assert_eq!(draws[0].kind, DrawKind::Indexed { count: 4 });
    assert_eq!(draws[1].kind, DrawKind::Arrays { count: 3 });
}

#[test]
fn draw_carries_material() {
    let diffuse = Float4 { x: 1, y: 2, z: 3, w: 4 };
    let mut r: Renderer<()> = Renderer::new();
    let ids = r.register_meshes(vec![plain_asset(1), MeshAsset::from_data(&tri(), None, None, Material::with_diffuse(diffuse))]);
    r.please_render(ids[1], ());
    let (_, draws) = r.render();
    assert_eq!(draws[0].material.diffuse, diffuse);
    assert_eq!(draws[0].material.specular, Material::default().specular);
    assert!(r.contains(ids[1]));
    assert_eq!(r.mesh(ids[0]).vertices.len(), 1);
}
