//! Meshes as a model file gives them, and the vertices that they stand for.

use vstd::prelude::*;
use crate::color::Color;
use crate::scalar::{Scalar, ONE_BITS, ZERO_BITS};
use crate::vector::{Vec2, Vec3};
use crate::vertex::Vertex;

verus! {

/// One mesh as flat arrays, the way a parsed model file holds it.
pub struct RawMesh {
    /// Three scalars for each position.
    pub positions: Vec<Scalar>,
    /// Three scalars for each normal; may be empty.
    pub normals: Vec<Scalar>,
    /// Two scalars for each texture coordinate, the second measured from
    /// the top; may be empty.
    pub texcoords: Vec<Scalar>,
    /// The corners of the triangles, three for each, by position.
    pub indices: Vec<u32>,
}

impl RawMesh {
    /// Every array is made of whole triples or pairs.
    pub open spec fn whole(self) -> bool {
        &&& self.positions@.len() % 3 == 0
        &&& self.normals@.len() % 3 == 0
        &&& self.texcoords@.len() % 2 == 0
    }

    /// Whether every array is made of whole triples or pairs.
    pub fn is_whole(&self) -> (whole: bool)
        ensures
            whole == self.whole(),
    {
        self.positions.len() % 3 == 0 && self.normals.len() % 3 == 0 && self.texcoords.len() % 2
            == 0
    }

    /// The mesh that the flat arrays spell.
    pub open spec fn model(self) -> MeshModel {
        MeshModel {
            vertices: triples(self.positions@),
            normals: triples(self.normals@),
            texcoords: pairs(self.texcoords@),
            indices: self.indices@,
        }
    }
}

/// The vectors that a flat array spells three scalars at a time.
pub open spec fn triples(flat: Seq<Scalar>) -> Seq<Vec3> {
    Seq::new(
        flat.len() / 3,
        |i: int| Vec3 { x: flat[3 * i], y: flat[3 * i + 1], z: flat[3 * i + 2] },
    )
}

/// The vectors that a flat array spells two scalars at a time.
pub open spec fn pairs(flat: Seq<Scalar>) -> Seq<Vec2> {
    Seq::new(flat.len() / 2, |i: int| Vec2 { x: flat[2 * i], y: flat[2 * i + 1] })
}

/// What a mesh holds.
pub struct MeshModel {
    pub vertices: Seq<Vec3>,
    pub normals: Seq<Vec3>,
    pub texcoords: Seq<Vec2>,
    pub indices: Seq<u32>,
}

impl MeshModel {
    /// Every index names a position of the mesh.
    pub open spec fn indexable(self) -> bool {
        forall|k: int| 0 <= k < self.indices.len() ==> self.indices[k] < self.vertices.len()
    }

    /// The vertex that an index stands for. A mesh that has no normal for it
    /// gives it the normal that points up; one that has no texture
    /// coordinate gives it the origin. The elevation is the height of the
    /// position.
    pub open spec fn corner(self, index: int) -> Vertex {
        let position = self.vertices[index];
        let normal = if index < self.normals.len() {
            self.normals[index]
        } else {
            Vec3::of_bits(ZERO_BITS, ONE_BITS, ZERO_BITS)
        };
        let tex_coords = if index < self.texcoords.len() {
            self.texcoords[index]
        } else {
            Vec2::of_bits(ZERO_BITS, ZERO_BITS)
        };
        Vertex {
            position,
            normal,
            tex_coords,
            color: Color { r: 0, g: 0, b: 0 },
            transformed_position: position,
            transformed_normal: normal,
            elevation: position.y,
        }
    }

    /// The vertices of the mesh, one for each index, in the order of the
    /// indices.
    pub open spec fn corners(self) -> Seq<Vertex> {
        Seq::new(self.indices.len(), |k: int| self.corner(self.indices[k] as int))
    }
}

/// The vertices of several meshes, mesh after mesh.
pub open spec fn all_corners(meshes: Seq<MeshModel>) -> Seq<Vertex>
    decreases meshes.len(),
{
    if meshes.len() == 0 {
        Seq::empty()
    } else {
        all_corners(meshes.drop_last()) + meshes.last().corners()
    }
}

struct Mesh {
    vertices: Vec<Vec3>,
    normals: Vec<Vec3>,
    texcoords: Vec<Vec2>,
    indices: Vec<u32>,
}

impl Mesh {
    spec fn model(self) -> MeshModel {
        MeshModel {
            vertices: self.vertices@,
            normals: self.normals@,
            texcoords: self.texcoords@,
            indices: self.indices@,
        }
    }
}

/// A 3D object: the meshes of one model file.
pub struct Obj {
    meshes: Vec<Mesh>,
}

impl View for Obj {
    type V = Seq<MeshModel>;

    closed spec fn view(&self) -> Seq<MeshModel> {
        Seq::new(self.meshes@.len(), |i: int| self.meshes@[i].model())
    }
}

fn gather_triples(flat: &Vec<Scalar>) -> (vectors: Vec<Vec3>)
    requires
        flat@.len() % 3 == 0,
    ensures
        vectors@ == triples(flat@),
{
    let count: usize = flat.len() / 3;
    let mut vectors: Vec<Vec3> = Vec::new();
    let mut i: usize = 0;
    while i < count
        invariant
            i <= count,
            count == flat@.len() / 3,
            flat@.len() <= usize::MAX,
            flat@.len() % 3 == 0,
            vectors@.len() == i,
            forall|k: int| 0 <= k < i ==> vectors@[k] == triples(flat@)[k],
        decreases count - i,
    {
        vectors.push(Vec3::new(flat[3 * i], flat[3 * i + 1], flat[3 * i + 2]));
        i += 1;
    }
    assert(vectors@ =~= triples(flat@));
    vectors
}

fn gather_pairs(flat: &Vec<Scalar>) -> (vectors: Vec<Vec2>)
    requires
        flat@.len() % 2 == 0,
    ensures
        vectors@ == pairs(flat@),
{
    let count: usize = flat.len() / 2;
    let mut vectors: Vec<Vec2> = Vec::new();
    let mut i: usize = 0;
    while i < count
        invariant
            i <= count,
            count == flat@.len() / 2,
            flat@.len() <= usize::MAX,
            flat@.len() % 2 == 0,
            vectors@.len() == i,
            forall|k: int| 0 <= k < i ==> vectors@[k] == pairs(flat@)[k],
        decreases count - i,
    {
        vectors.push(Vec2::new(flat[2 * i], flat[2 * i + 1]));
        i += 1;
    }
    assert(vectors@ =~= pairs(flat@));
    vectors
}

/// Every index of every mesh names a position of its mesh.
pub open spec fn all_indexable(meshes: Seq<MeshModel>) -> bool {
    forall|i: int| 0 <= i < meshes.len() ==> (#[trigger] meshes[i]).indexable()
}

impl Obj {
    /// Whether every index of every mesh names a position of its mesh.
    pub fn is_indexable(&self) -> (indexable: bool)
        ensures
            indexable == all_indexable(self@),
    {
        let mut m: usize = 0;
        while m < self.meshes.len()
            invariant
                m <= self.meshes@.len(),
                self@.len() == self.meshes@.len(),
                forall|i: int| 0 <= i < m ==> (#[trigger] self@[i]).indexable(),
            decreases self.meshes@.len() - m,
        {
            let mesh = &self.meshes[m];
            let ghost model = self@[m as int];
            assert(mesh.model() == model);
            let positions: usize = mesh.vertices.len();
            let mut k: usize = 0;
            while k < mesh.indices.len()
                invariant
                    k <= mesh.indices@.len(),
                    m < self@.len(),
                    model == self@[m as int],
                    mesh.model() == model,
                    positions == model.vertices.len(),
                    forall|j: int| 0 <= j < k ==> model.indices[j] < model.vertices.len(),
                decreases mesh.indices@.len() - k,
            {
                if mesh.indices[k] as usize >= positions {
                    assert(model.indices[k as int] >= model.vertices.len());
                    return false;
                }
                k += 1;
            }
            m += 1;
        }
        true
    }

    /// Builds the object from the meshes of a parsed model file.
    pub fn load(models: Vec<RawMesh>) -> (obj: Obj)
        requires
            forall|i: int| 0 <= i < models@.len() ==> (#[trigger] models@[i]).whole(),
        ensures
            obj@.len() == models@.len(),
            forall|i: int| 0 <= i < models@.len() ==> obj@[i] == (#[trigger] models@[i]).model(),
    {
        let mut meshes: Vec<Mesh> = Vec::new();
        let ghost given = models@;
        let total: usize = models.len();
        let mut i: usize = 0;
        while i < total
            invariant
                i <= total,
                total == given.len(),
                models@ == given,
                forall|k: int| 0 <= k < given.len() ==> (#[trigger] given[k]).whole(),
                meshes@.len() == i,
                forall|k: int| 0 <= k < i ==> (#[trigger] meshes@[k]).model() == given[k].model(),
            decreases total - i,
        {
            let raw = &models[i];
            assert(given[i as int].whole());
            let vertices = gather_triples(&raw.positions);
            let normals = gather_triples(&raw.normals);
            let texcoords = gather_pairs(&raw.texcoords);
            let indices = raw.indices.clone();
            assert(indices@ =~= raw.indices@);
            meshes.push(Mesh { vertices, normals, texcoords, indices });
            i += 1;
        }
        let obj = Obj { meshes };
        assert forall|k: int| 0 <= k < given.len() implies obj@[k] == (#[trigger] given[k]).model() by {
            assert(obj.meshes@[k].model() == given[k].model());
        }
        obj
    }

    /// The vertices of the object: for each mesh, one vertex for each index,
    /// in the order of the indices.
    pub fn get_vertex_array(&self) -> (vertices: Vec<Vertex>)
        requires
            all_indexable(self@),
        ensures
            vertices@ == all_corners(self@),
    {
        let mut vertices: Vec<Vertex> = Vec::new();
        let mut m: usize = 0;
        assert(self@.take(0) =~= Seq::empty());
        while m < self.meshes.len()
            invariant
                m <= self.meshes@.len(),
                self@.len() == self.meshes@.len(),
                forall|i: int| 0 <= i < self@.len() ==> (#[trigger] self@[i]).indexable(),
                vertices@ == all_corners(self@.take(m as int)),
            decreases self.meshes@.len() - m,
        {
            let mesh = &self.meshes[m];
            let ghost model = self@[m as int];
            let ghost before = vertices@;
            assert(mesh.model() == model);
            assert(model.indexable());
            let mut k: usize = 0;
            while k < mesh.indices.len()
                invariant
                    k <= mesh.indices@.len(),
                    mesh.model() == model,
                    model.indexable(),
                    vertices@.len() == before.len() + k,
                    forall|j: int| 0 <= j < before.len() ==> vertices@[j] == before[j],
                    forall|j: int|
                        0 <= j < k ==> vertices@[before.len() + j] == model.corner(
                            model.indices[j] as int,
                        ),
                decreases mesh.indices@.len() - k,
            {
                let index: usize = mesh.indices[k] as usize;
                assert(model.indices[k as int] < model.vertices.len());
                let position = mesh.vertices[index];
                let normal = if index < mesh.normals.len() {
                    mesh.normals[index]
                } else {
                    Vec3::from_bits(ZERO_BITS, ONE_BITS, ZERO_BITS)
                };
                let tex_coords = if index < mesh.texcoords.len() {
                    mesh.texcoords[index]
                } else {
                    Vec2::from_bits(ZERO_BITS, ZERO_BITS)
                };
                let elevation = position.y;
                vertices.push(Vertex::new(position, normal, tex_coords, elevation));
                k += 1;
            }
            m += 1;
            proof {
                assert(vertices@ =~= before + model.corners());
                assert(self@.take(m as int).drop_last() =~= self@.take(m as int - 1));
                assert(self@.take(m as int).last() == model);
            }
        }
        assert(self@.take(m as int) =~= self@);
        vertices
    }
}

} // verus!
