//! Meshes as the runtime holds them, and the loader that builds them from a
//! mesh stream.
use vstd::prelude::*;
use crate::codec::{decode, decode_spec};
use crate::model::{copy_items, opt_seq, records_view, AssetError, Float4, MeshModel, MeshRecord, Vertex};

verus! {

/// Bit pattern of `0.2_f32`.
pub const BITS_0_2: u32 = 0x3e4c_cccd;
/// Bit pattern of `0.4_f32`.
pub const BITS_0_4: u32 = 0x3ecc_cccd;
/// Bit pattern of `0.8_f32`.
pub const BITS_0_8: u32 = 0x3f4c_cccd;
/// Bit pattern of `1.0_f32`.
pub const BITS_1_0: u32 = 0x3f80_0000;

/// The four colour channels of the fixed-function lighting model.
#[derive(Clone, Copy, Debug, PartialEq, Eq, Structural)]
pub struct Material {
    pub ambient: Float4,
    pub diffuse: Float4,
    pub specular: Float4,
    pub emission: Float4,
}

/// The material every mesh starts from: grey ambient, diffuse and specular
/// terms without alpha, and an emission of `(0, 0, 0, 1)`.
pub open spec fn default_material() -> Material {
    Material {
        ambient: Float4 { x: BITS_0_2, y: BITS_0_2, z: BITS_0_2, w: 0 },
        diffuse: Float4 { x: BITS_0_4, y: BITS_0_4, z: BITS_0_4, w: 0 },
        specular: Float4 { x: BITS_0_8, y: BITS_0_8, z: BITS_0_8, w: 0 },
        emission: Float4 { x: 0, y: 0, z: 0, w: BITS_1_0 },
    }
}

impl Default for Material {
    fn default() -> (m: Material)
        ensures
            m == default_material(),
    {
        Material {
            ambient: Float4 { x: BITS_0_2, y: BITS_0_2, z: BITS_0_2, w: 0 },
            diffuse: Float4 { x: BITS_0_4, y: BITS_0_4, z: BITS_0_4, w: 0 },
            specular: Float4 { x: BITS_0_8, y: BITS_0_8, z: BITS_0_8, w: 0 },
            emission: Float4 { x: 0, y: 0, z: 0, w: BITS_1_0 },
        }
    }
}

impl Material {
    /// The default material with the given diffuse colour.
    pub open spec fn with_diffuse_spec(diffuse: Float4) -> Material {
        Material { diffuse, ..default_material() }
    }

    /// The default material with the given diffuse colour.
    pub fn with_diffuse(diffuse: Float4) -> (m: Material)
        ensures
            m == Material::with_diffuse_spec(diffuse),
    {
        Material { diffuse, ..Material::default() }
    }
}

/// A mesh ready to be handed to the hardware: its material, its vertices, an
/// optional index list and an optional compressed texture container.
#[derive(Clone, Debug)]
pub struct MeshAsset {
    pub material: Material,
    pub vertices: Vec<Vertex>,
    pub indices: Option<Vec<u16>>,
    pub texture: Option<Vec<u8>>,
}

/// The mathematical content of a [`MeshAsset`].
pub struct AssetModel {
    pub material: Material,
    pub vertices: Seq<Vertex>,
    pub indices: Option<Seq<u16>>,
    pub texture: Option<Seq<u8>>,
}

impl View for MeshAsset {
    type V = AssetModel;

    open spec fn view(&self) -> AssetModel {
        AssetModel {
            material: self.material,
            vertices: self.vertices@,
            indices: opt_seq(self.indices),
            texture: opt_seq(self.texture),
        }
    }
}

/// The asset a decoded mesh becomes: its colour is the diffuse channel of an
/// otherwise default material, and its index list is always present.
pub open spec fn asset_of_model(m: MeshModel) -> AssetModel {
    AssetModel {
        material: Material::with_diffuse_spec(m.diffuse),
        vertices: m.vertices,
        indices: Some(m.indices),
        texture: m.texture,
    }
}

pub open spec fn assets_view(v: Seq<MeshAsset>) -> Seq<AssetModel> {
    v.map_values(|a: MeshAsset| a@)
}

impl MeshAsset {
    /// Builds an asset from data in memory, copying it.
    pub fn from_data(vertices: &[Vertex], indices: Option<&[u16]>, texture: Option<&[u8]>, material: Material) -> (r: MeshAsset)
        ensures
            r.material == material,
            r.vertices@ == vertices@,
            opt_seq(r.indices) == match indices {
                Some(s) => Some(s@),
                None => None::<Seq<u16>>,
            },
            opt_seq(r.texture) == match texture {
                Some(s) => Some(s@),
                None => None::<Seq<u8>>,
            },
    {
        let indices = match indices {
            Some(s) => Some(copy_items(s)),
            None => None,
        };
        let texture = match texture {
            Some(s) => Some(copy_items(s)),
            None => None,
        };
        MeshAsset { material, vertices: copy_items(vertices), indices, texture }
    }

    /// Builds the asset of a decoded mesh record.
    pub fn from_record(rec: MeshRecord) -> (r: MeshAsset)
        ensures
            r@ == asset_of_model(rec@),
    {
        MeshAsset {
            material: Material::with_diffuse(rec.diffuse),
            vertices: rec.vertices,
            indices: Some(rec.indices),
            texture: rec.texture,
        }
    }

    /// Whether drawing this mesh samples a texture.
    pub fn has_texture(&self) -> (r: bool)
        ensures
            r == self.texture is Some,
    {
        self.texture.is_some()
    }

    /// Reads every mesh of a stream and builds its asset, in stream order.
    /// Nothing is built unless the whole stream reads.
    pub fn from_file_data(bytes: &[u8]) -> (r: Result<Vec<MeshAsset>, AssetError>)
        ensures
            match (r, decode_spec(bytes@)) {
                (Ok(v), Ok(ms)) => assets_view(v@) == ms.map_values(|m: MeshModel| asset_of_model(m)),
                (Err(e), Err(f)) => e == f,
                _ => false,
            },
    {
        let records = match decode(bytes) {
            Ok(v) => v,
            Err(e) => {
                return Err(e);
            },
        };
        let ghost ms = records_view(records@);
        let mut rest = records;
        let mut out: Vec<MeshAsset> = Vec::new();
        let n = rest.len();
        let mut i: usize = 0;
        while i < n
            invariant
                i <= n,
                n == ms.len(),
                rest@.len() == n - i,
                forall|k: int| 0 <= k < rest@.len() ==> #[trigger] rest@[k]@ == ms[i + k],
                assets_view(out@) == ms.take(i as int).map_values(|m: MeshModel| asset_of_model(m)),
            decreases n - i,
        {
            let rec = rest.remove(0);
            proof {
                assert(rec@ == ms[i as int]);
            }
            let ghost before = assets_view(out@);
            let asset = MeshAsset::from_record(rec);
            assert(asset@ == asset_of_model(ms[i as int]));
            out.push(asset);
            assert(assets_view(out@) =~= before.push(asset@));
            assert(ms.take(i + 1).map_values(|m: MeshModel| asset_of_model(m)) =~= ms.take(i as int).map_values(
                |m: MeshModel| asset_of_model(m),
            ).push(asset_of_model(ms[i as int])));
            assert(assets_view(out@) =~= ms.take(i + 1).map_values(|m: MeshModel| asset_of_model(m)));
            i = i + 1;
        }
        assert(ms.take(n as int) =~= ms);
        Ok(out)
    }
}

} // verus!
