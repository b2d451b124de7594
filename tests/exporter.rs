use mesh_pipeline::codec::{decode, encode};
use mesh_pipeline::exporter::{export_scene, Attribute, ExportError, SceneNode, ScenePrimitive, Topology};
use mesh_pipeline::model::{Float2, Float3, Float4};

fn p3(x: u32) -> Float3 {
    Float3 { x, y: x + 1, z: x + 2 }
}

fn prim(tag: u32, n: usize) -> ScenePrimitive {
    ScenePrimitive {
        topology: Topology::Triangles,
        positions: Some((0..n as u32).map(|i| p3(tag * 100 + i)).collect()),
        tex_coords: Some((0..n as u32).map(|i| Float2 { x: i, y: tag }).collect()),
        normals: Some((0..n as u32).map(|_| p3(7)).collect()),
        indices: Some((0..n as u32).collect()),
        base_color: Float4 { x: tag, y: 0, z: 0, w: 1 },
        texture: None,
    }
}

fn node(prims: Vec<ScenePrimitive>, children: Vec<SceneNode>) -> SceneNode {
    SceneNode { primitives: prims, children }
}

fn tags(roots: &Vec<SceneNode>) -> Vec<u32> {
    export_scene(roots).unwrap().iter().map(|m| m.diffuse.x).collect()
}

#[test]
fn children_come_before_their_parent() {
    let roots = vec![
        node(vec![prim(1, 3)], vec![node(vec![prim(2, 3)], vec![node(vec![prim(3, 3)], vec![])]), node(vec![prim(4, 3)], vec![])]),
        node(vec![prim(5, 3), prim(6, 3)], vec![]),
    ];
    assert_eq!(tags(&roots), vec![3, 2, 4, 1, 5, 6]);
}

#[test]
fn non_triangle_primitives_are_skipped() {
    let mut strip = prim(2, 3);
    strip.topology = Topology::TriangleStrip;
    let mut lines = prim(3, 3);
    lines.topology = Topology::Lines;
    lines.positions = None;
    let roots = vec![node(vec![prim(1, 3), strip, lines, prim(4, 3)], vec![])];
    assert_eq!(tags(&roots), vec![1, 4]);
}

#[test]
fn record_contents() {
    let mut p = prim(1, 3);
    p.texture = Some(vec![1, 2, 3]);
    p.indices = Some(vec![2, 1, 0, 65535]);
    let out = export_scene(&vec![node(vec![p], vec![])]).unwrap();
    assert_eq!(out.len(), 1);
    let m = &out[0];
    assert_eq!(m.diffuse, Float4 { x: 1, y: 0, z: 0, w: 1 });
    assert_eq!(m.vertices.len(), 3);
    assert_eq!(m.vertices[2].position, p3(102));
    assert_eq!(m.vertices[2].uv, Float2 { x: 2, y: 1 });
    assert_eq!(m.vertices[2].normal, p3(7));
    assert_eq!(m.indices, vec![2, 1, 0, 65535]);
    assert_eq!(m.texture, Some(vec![1, 2, 3]));
    assert_eq!(decode(&encode(&out)), Ok(out.clone()));
}

#[test]
fn streams_are_zipped_to_the_shortest() {
    let mut p = prim(1, 5);
    p.tex_coords = Some(vec![Float2 { x: 0, y: 0 }; 2]);
    let out = export_scene(&vec![node(vec![p], vec![])]).unwrap();
    assert_eq!(out[0].vertices.len(), 2);
}

#[test]
fn missing_streams_stop_the_export() {
    let cases: Vec<(fn(&mut ScenePrimitive), Attribute)> = vec![
        (|p| p.positions = None, Attribute::Positions),
        (|p| p.tex_coords = None, Attribute::TexCoords),
        (|p| p.normals = None, Attribute::Normals),
        (|p| p.indices = None, Attribute::Indices),
    ];
    for (strip, attr) in cases {
        let mut p = prim(2, 3);
        strip(&mut p);
        let roots = vec![node(vec![prim(1, 3)], vec![node(vec![p], vec![])])];
        assert_eq!(export_scene(&roots).err(), Some(ExportError::MissingAttribute(attr)));
    }
}

#[test]
fn wide_index_stops_the_export() {
    let mut p = prim(1, 3);
    p.indices = Some(vec![0, 1, 65536]);
    assert_eq!(export_scene(&vec![node(vec![p], vec![])]).err(), Some(ExportError::IndexOutOfRange));
}

#[test]
fn too_many_vertices_stop_the_export() {
    let ok = prim(1, 65535);
    assert_eq!(export_scene(&vec![node(vec![ok], vec![])]).unwrap()[0].vertices.len(), 65535);
    let big = prim(1, 65536);
    assert_eq!(export_scene(&vec![node(vec![big], vec![])]).err(), Some(ExportError::TooLarge));
}

#[test]
fn empty_scene_exports_nothing() {
    assert_eq!(export_scene(&vec![]).unwrap().len(), 0);
    assert_eq!(export_scene(&vec![node(vec![], vec![node(vec![], vec![])])]).unwrap().len(), 0);
}
