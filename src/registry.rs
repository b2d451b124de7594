//! The single owner of every loaded mesh, handing out stable handles.
use vstd::prelude::*;
use crate::asset::MeshAsset;

verus! {

/// A handle to a registered mesh: its position in the registry. Handles are
/// issued in increasing order and never reused or invalidated.
#[derive(Clone, Copy, Debug, PartialEq, Eq, Structural)]
pub struct MeshId {
    index: usize,
}

impl View for MeshId {
    type V = nat;

    closed spec fn view(&self) -> nat {
        self.index as nat
    }
}

impl MeshId {
    /// The position of the mesh in its registry.
    pub fn index(&self) -> (r: usize)
        ensures
            r == self@,
    {
        self.index
    }
}

/// An append-only collection of meshes. An entry is never moved out,
/// replaced or removed, so a handle keeps naming the mesh it was issued for.
#[derive(Debug)]
pub struct Registry {
    assets: Vec<MeshAsset>,
}

impl View for Registry {
    type V = Seq<MeshAsset>;

    closed spec fn view(&self) -> Seq<MeshAsset> {
        self.assets@
    }
}

impl Registry {
    pub fn new() -> (r: Registry)
        ensures
            r@ == Seq::<MeshAsset>::empty(),
    {
        Registry { assets: Vec::new() }
    }

    /// Takes ownership of `asset`; the handle returned is the number of
    /// meshes registered before it.
    pub fn register(&mut self, asset: MeshAsset) -> (id: MeshId)
        ensures
            id@ == old(self)@.len(),
            final(self)@ == old(self)@.push(asset),
    {
        let index = self.assets.len();
        self.assets.push(asset);
        MeshId { index }
    }

    /// Registers each asset in turn.
    pub fn register_all(&mut self, assets: Vec<MeshAsset>) -> (ids: Vec<MeshId>)
        ensures
            final(self)@ == old(self)@ + assets@,
            ids@.len() == assets@.len(),
            forall|k: int| 0 <= k < ids@.len() ==> #[trigger] ids@[k]@ == old(self)@.len() + k,
    {
        let ghost start = self@;
        let mut rest = assets;
        let mut ids: Vec<MeshId> = Vec::new();
        let n = rest.len();
        let mut i: usize = 0;
        while i < n
            invariant
                i <= n,
                n == assets@.len(),
                rest@ == assets@.subrange(i as int, n as int),
                self@ == start + assets@.take(i as int),
                ids@.len() == i,
                forall|k: int| 0 <= k < i ==> #[trigger] ids@[k]@ == start.len() + k,
            decreases n - i,
        {
            let a = rest.remove(0);
            let id = self.register(a);
            ids.push(id);
            assert(rest@ =~= assets@.subrange(i + 1, n as int));
            assert(self@ =~= start + assets@.take(i + 1));
            i = i + 1;
        }
        assert(assets@.take(n as int) =~= assets@);
        ids
    }

    /// How many meshes are registered.
    pub fn len(&self) -> (r: usize)
        ensures
            r == self@.len(),
    {
        self.assets.len()
    }

    /// Whether `id` names a mesh of this registry.
    pub fn contains(&self, id: MeshId) -> (r: bool)
        ensures
            r == (id@ < self@.len()),
    {
        id.index < self.assets.len()
    }

    /// The mesh that `id` was issued for.
    pub fn get(&self, id: MeshId) -> (r: &MeshAsset)
        requires
            id@ < self@.len(),
        ensures
            *r == self@[id@ as int],
    {
        &self.assets[id.index]
    }
}

/// Registering further meshes keeps every earlier handle naming the mesh it
/// was issued for, and the handle issued `k`-th among the new ones names the
/// `k`-th new mesh.
pub proof fn lemma_handles_stable(before: Seq<MeshAsset>, added: Seq<MeshAsset>)
    ensures
        forall|h: int| 0 <= h < before.len() ==> #[trigger] (before + added)[h] == before[h],
        forall|k: int| 0 <= k < added.len() ==> #[trigger] (before + added)[before.len() + k] == added[k],
{
}

} // verus!
