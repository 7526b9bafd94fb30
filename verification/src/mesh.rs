//! Indexed triangle meshes and their vertices.
use vstd::prelude::*;
use vstd::std_specs::ops::SubSpec;
use crate::math::vector::{cross_of, cross_of_req, obeys_arithmetic, Field, Vec2, Vec3};

verus! {

/// A vertex that is a position and nothing else.
#[derive(Copy, Clone, Debug)]
pub struct PlainVertex<Scalar: Field> {
    pub position: Vec3<Scalar>,
}

impl<Scalar: Field> PlainVertex<Scalar> {
    /// The vertex at the position with these coordinates.
    pub fn from_array(array: &[Scalar; 3]) -> (vertex: Self)
        ensures
            vertex.position.0@ == array@,
    {
        PlainVertex { position: Vec3::new(array[0], array[1], array[2]) }
    }
}

/// Vertices that have a position and a normal.
pub trait NormalVertex<Scalar: Field> {
    spec fn position_spec(&self) -> Vec3<Scalar>;

    spec fn normal_spec(&self) -> Vec3<Scalar>;

    fn position(&self) -> (position: &Vec3<Scalar>)
        ensures
            *position == self.position_spec(),
    ;

    fn normal(&self) -> (normal: &Vec3<Scalar>)
        ensures
            *normal == self.normal_spec(),
    ;
}

/// A position and the normal of the surface there.
#[derive(Copy, Clone, Debug)]
pub struct Vertex<Scalar: Field> {
    pub position: Vec3<Scalar>,
    pub normal: Vec3<Scalar>,
}

impl<Scalar: Field> NormalVertex<Scalar> for Vertex<Scalar> {
    open spec fn position_spec(&self) -> Vec3<Scalar> {
        self.position
    }

    open spec fn normal_spec(&self) -> Vec3<Scalar> {
        self.normal
    }

    fn position(&self) -> (position: &Vec3<Scalar>) {
        &self.position
    }

    fn normal(&self) -> (normal: &Vec3<Scalar>) {
        &self.normal
    }
}

/// A vertex that also says which corner of its triangle it is: the
/// barycentric coordinates of a corner are one 1 and two 0.
#[derive(Copy, Clone, Debug)]
pub struct BarycentricVertex<Scalar: Field> {
    pub position: Vec3<Scalar>,
    pub normal: Vec3<Scalar>,
    pub bary_coord: Vec3<Scalar>,
}

impl<Scalar: Field> NormalVertex<Scalar> for BarycentricVertex<Scalar> {
    open spec fn position_spec(&self) -> Vec3<Scalar> {
        self.position
    }

    open spec fn normal_spec(&self) -> Vec3<Scalar> {
        self.normal
    }

    fn position(&self) -> (position: &Vec3<Scalar>) {
        &self.position
    }

    fn normal(&self) -> (normal: &Vec3<Scalar>) {
        &self.normal
    }
}

/// A normal of the plane of a triangle: the cross product of the edge from
/// the first corner to the second with the edge from the first corner to the
/// third. Its length is twice the area of the triangle.
#[inline]
pub fn triangle_normal<Scalar: Field>(
    v1: &Vertex<Scalar>,
    v2: &Vertex<Scalar>,
    v3: &Vertex<Scalar>,
) -> (normal: Vec3<Scalar>)
    requires
        obeys_arithmetic::<Scalar>(),
        v2.position.difference_req(v1.position),
        v3.position.difference_req(v1.position),
        cross_of_req(
            v2.position.difference_spec(v1.position),
            v3.position.difference_spec(v1.position),
        ),
    ensures
        normal.0@ == cross_of(
            v2.position.difference_spec(v1.position),
            v3.position.difference_spec(v1.position),
        ),
{
    let first = v2.position.difference(&v1.position);
    let second = v3.position.difference(&v1.position);
    first.cross(&second)
}

/// A texture coordinate.
#[derive(Clone, Debug)]
pub struct TexVertex<Scalar: Field> {
    pub uv: Vec2<Scalar>,
}

/// An indexed triangle list: every three indices name the corners of one
/// triangle among `vertices`.
#[derive(Debug)]
pub struct Mesh<V> {
    pub name: String,
    pub vertices: Vec<V>,
    pub indices: Vec<u32>,
}

/// The barycentric coordinates of corner `corner` of a triangle: the first
/// corner is `(0, 0, 1)`, the second `(0, 1, 0)`, the third `(1, 0, 0)`.
pub open spec fn corner_weights<Scalar>(corner: int, zero: Scalar, one: Scalar) -> Seq<Scalar> {
    if corner == 0 {
        seq![zero, zero, one]
    } else if corner == 1 {
        seq![zero, one, zero]
    } else {
        seq![one, zero, zero]
    }
}

impl<V> Mesh<V> {
    /// The indices come in threes and name vertices of the mesh.
    pub open spec fn wf(&self) -> bool {
        &&& self.indices@.len() % 3 == 0
        &&& forall|i: int|
            0 <= i < self.indices@.len() ==> (#[trigger] self.indices@[i]) < self.vertices@.len()
    }
}

impl<Scalar: Field> Mesh<Vertex<Scalar>> {
    /// The mesh with one vertex for every corner of every triangle, each
    /// with the barycentric coordinates of its corner.
    ///
    /// Corner `i` of the result is the vertex that index `i` of the mesh
    /// names, and its own index is `i`: no two triangles share a vertex any
    /// more. `zero` and `one` are the two values that the coordinates take.
    pub fn with_barycentric_coordinates(self, zero: Scalar, one: Scalar) -> (mesh: Mesh<
        BarycentricVertex<Scalar>,
    >)
        requires
            self.wf(),
            self.indices@.len() <= u32::MAX,
        ensures
            mesh.wf(),
            mesh.name@ == self.name@,
            mesh.vertices@.len() == self.indices@.len(),
            mesh.indices@.len() == self.indices@.len(),
            forall|i: int| 0 <= i < mesh.indices@.len() ==> mesh.indices@[i] == i,
            forall|i: int|
                0 <= i < mesh.vertices@.len() ==> {
                    &&& (#[trigger] mesh.vertices@[i]).position
                        == self.vertices@[self.indices@[i] as int].position
                    &&& mesh.vertices@[i].normal == self.vertices@[self.indices@[i] as int].normal
                    &&& mesh.vertices@[i].bary_coord.0@ == corner_weights(i % 3, zero, one)
                },
    {
        let mut bary_vertices: Vec<BarycentricVertex<Scalar>> = Vec::new();
        let mut bary_indices: Vec<u32> = Vec::new();
        let count = self.indices.len();
        let mut start: usize = 0;
        while start < count
            invariant
                self.wf(),
                count == self.indices@.len(),
                count <= u32::MAX,
                start <= count,
                start % 3 == 0,
                bary_vertices@.len() == start,
                bary_indices@.len() == start,
                forall|i: int| 0 <= i < start ==> bary_indices@[i] == i,
                forall|i: int|
                    0 <= i < start ==> {
                        &&& (#[trigger] bary_vertices@[i]).position
                            == self.vertices@[self.indices@[i] as int].position
                        &&& bary_vertices@[i].normal
                            == self.vertices@[self.indices@[i] as int].normal
                        &&& bary_vertices@[i].bary_coord.0@ == corner_weights(i % 3, zero, one)
                    },
            decreases count - start,
        {
            assert(self.indices@[start as int] < self.vertices@.len());
            assert(self.indices@[start as int + 1] < self.vertices@.len());
            assert(self.indices@[start as int + 2] < self.vertices@.len());
            let a = self.indices[start] as usize;
            let b = self.indices[start + 1] as usize;
            let c = self.indices[start + 2] as usize;
            bary_indices.push(bary_vertices.len() as u32);
            bary_vertices.push(
                BarycentricVertex {
                    position: self.vertices[a].position,
                    normal: self.vertices[a].normal,
                    bary_coord: Vec3::new(zero, zero, one),
                },
            );
            bary_indices.push(bary_vertices.len() as u32);
            bary_vertices.push(
                BarycentricVertex {
                    position: self.vertices[b].position,
                    normal: self.vertices[b].normal,
                    bary_coord: Vec3::new(zero, one, zero),
                },
            );
            bary_indices.push(bary_vertices.len() as u32);
            bary_vertices.push(
                BarycentricVertex {
                    position: self.vertices[c].position,
                    normal: self.vertices[c].normal,
                    bary_coord: Vec3::new(one, zero, zero),
                },
            );
            start += 3;
        }
        Mesh { name: self.name, vertices: bary_vertices, indices: bary_indices }
    }
}

} // verus!
