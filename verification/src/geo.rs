//! Meshes and their composition with the framebuffer: indexed triangles
//! over a shared vertex list, a fixed-point affine transform, and the render
//! pass that draws every triangle of a mesh in mesh order. Visibility comes
//! only from the per-pixel depth test, never from draw order.

use crate::buffer::{BufModel, Buffer};
use crate::color::{material_ok, Material};
use crate::num::{floor_div_i128, lemma_floor_div_bounds, lemma_mul_bounds, mul_wide, COORD_LIMIT};
use crate::poly::{draw_tri, draw_tri_model, spec_illumination, vertex_ok, Tri, Vertex};
use vstd::prelude::*;

verus! {

/// Magnitude cap on the linear part of a transform (entries are in units of
/// 1/256, so this allows scales up to 4096).
pub const MATRIX_LIMIT: i64 = 1048576;

/// Three indices into the owning mesh's vertex list, plus the index of the
/// triangle's material in the mesh's material list.
#[derive(Debug, Clone, Copy)]
pub struct IndexedTriangle {
    pub index: (usize, usize, usize),
    pub material_index: usize,
}

/// An affine transform in fixed point: the linear part in units of 1/256,
/// the translation in subpixel units. Applied as `M * v / 256 + t`,
/// component-wise with flooring division.
#[derive(Debug, Clone, Copy)]
pub struct Affine {
    pub m11: i64,
    pub m12: i64,
    pub m13: i64,
    pub m21: i64,
    pub m22: i64,
    pub m23: i64,
    pub m31: i64,
    pub m32: i64,
    pub m33: i64,
    pub tx: i64,
    pub ty: i64,
    pub tz: i64,
}

impl Affine {
    /// The identity transform.
    pub fn identity() -> (r: Affine)
        ensures
            r.wf(),
            forall|v: Vertex| vertex_ok(v) ==> #[trigger] transform_ok(r, v),
            forall|v: Vertex| vertex_ok(v) ==> #[trigger] spec_transform(r, v) == v,
    {
        let r = Affine {
            m11: 256,
            m12: 0,
            m13: 0,
            m21: 0,
            m22: 256,
            m23: 0,
            m31: 0,
            m32: 0,
            m33: 256,
            tx: 0,
            ty: 0,
            tz: 0,
        };
        proof {
            assert forall|v: Vertex| vertex_ok(v) implies #[trigger] transform_ok(r, v)
                && #[trigger] spec_transform(r, v) == v by {
                lemma_identity_component(v.x as int, v.y as int);
                lemma_identity_component(v.y as int, v.x as int);
                lemma_identity_component(v.z as int, v.x as int);
            }
        }
        r
    }

    pub open spec fn wf(self) -> bool {
        &&& -MATRIX_LIMIT <= self.m11 <= MATRIX_LIMIT
        &&& -MATRIX_LIMIT <= self.m12 <= MATRIX_LIMIT
        &&& -MATRIX_LIMIT <= self.m13 <= MATRIX_LIMIT
        &&& -MATRIX_LIMIT <= self.m21 <= MATRIX_LIMIT
        &&& -MATRIX_LIMIT <= self.m22 <= MATRIX_LIMIT
        &&& -MATRIX_LIMIT <= self.m23 <= MATRIX_LIMIT
        &&& -MATRIX_LIMIT <= self.m31 <= MATRIX_LIMIT
        &&& -MATRIX_LIMIT <= self.m32 <= MATRIX_LIMIT
        &&& -MATRIX_LIMIT <= self.m33 <= MATRIX_LIMIT
        &&& -COORD_LIMIT <= self.tx <= COORD_LIMIT
        &&& -COORD_LIMIT <= self.ty <= COORD_LIMIT
        &&& -COORD_LIMIT <= self.tz <= COORD_LIMIT
    }
}

/// `(256 * v) / 256 + 0 == v`: applying the identity transform to one
/// component gives it back.
proof fn lemma_identity_component(a: int, b: int)
    ensures
        (256 * a + 0 * b + 0 * b) / 256 + 0 == a,
        (0 * b + 256 * a + 0 * b) / 256 + 0 == a,
        (0 * b + 0 * b + 256 * a) / 256 + 0 == a,
{
    assert(256 * a + 0 * b + 0 * b == a * 256) by (nonlinear_arith);
    assert(0 * b + 256 * a + 0 * b == a * 256) by (nonlinear_arith);
    assert(0 * b + 0 * b + 256 * a == a * 256) by (nonlinear_arith);
    vstd::arithmetic::div_mod::lemma_fundamental_div_mod_converse(a * 256, 256, a, 0);
}

/// The x component of `M * v / 256 + t`, exactly.
pub open spec fn tf_x(a: Affine, v: Vertex) -> int {
    (a.m11 * v.x + a.m12 * v.y + a.m13 * v.z) / 256 + a.tx
}

pub open spec fn tf_y(a: Affine, v: Vertex) -> int {
    (a.m21 * v.x + a.m22 * v.y + a.m23 * v.z) / 256 + a.ty
}

pub open spec fn tf_z(a: Affine, v: Vertex) -> int {
    (a.m31 * v.x + a.m32 * v.y + a.m33 * v.z) / 256 + a.tz
}

/// The transformed vertex lands inside the coordinate range the rasterizer
/// admits.
pub open spec fn transform_ok(a: Affine, v: Vertex) -> bool {
    &&& -COORD_LIMIT <= tf_x(a, v) <= COORD_LIMIT
    &&& -COORD_LIMIT <= tf_y(a, v) <= COORD_LIMIT
    &&& -COORD_LIMIT <= tf_z(a, v) <= COORD_LIMIT
}

/// The transformed vertex.
pub open spec fn spec_transform(a: Affine, v: Vertex) -> Vertex {
    Vertex { x: tf_x(a, v) as i64, y: tf_y(a, v) as i64, z: tf_z(a, v) as i64 }
}

/// Apply the affine transform to one vertex, exactly.
pub fn transform_point(a: &Affine, v: Vertex) -> (r: Vertex)
    requires
        a.wf(),
        vertex_ok(v),
        transform_ok(*a, v),
    ensures
        r == spec_transform(*a, v),
        vertex_ok(r),
{
    let px = transform_component(a.m11, a.m12, a.m13, a.tx, v);
    let py = transform_component(a.m21, a.m22, a.m23, a.ty, v);
    let pz = transform_component(a.m31, a.m32, a.m33, a.tz, v);
    Vertex { x: px, y: py, z: pz }
}

/// One component of the affine application: `(c1*x + c2*y + c3*z)/256 + t`.
fn transform_component(c1: i64, c2: i64, c3: i64, t: i64, v: Vertex) -> (r: i64)
    requires
        -MATRIX_LIMIT <= c1 <= MATRIX_LIMIT,
        -MATRIX_LIMIT <= c2 <= MATRIX_LIMIT,
        -MATRIX_LIMIT <= c3 <= MATRIX_LIMIT,
        -COORD_LIMIT <= t <= COORD_LIMIT,
        vertex_ok(v),
        -COORD_LIMIT <= (c1 * v.x + c2 * v.y + c3 * v.z) / 256 + t <= COORD_LIMIT,
    ensures
        r == (c1 * v.x + c2 * v.y + c3 * v.z) / 256 + t,
{
    let p1 = mul_wide(c1, v.x);
    let p2 = mul_wide(c2, v.y);
    let p3 = mul_wide(c3, v.z);
    proof {
        lemma_mul_bounds(c1 as int, v.x as int, MATRIX_LIMIT as int, COORD_LIMIT as int);
        lemma_mul_bounds(c2 as int, v.y as int, MATRIX_LIMIT as int, COORD_LIMIT as int);
        lemma_mul_bounds(c3 as int, v.z as int, MATRIX_LIMIT as int, COORD_LIMIT as int);
    }
    let s = p1 + p2 + p3;
    let q = floor_div_i128(s, 256);
    proof {
        lemma_floor_div_bounds(s as int, 256);
    }
    (q as i64) + t
}

/// A mesh: an ordered vertex list, the indexed triangles over it, and the
/// materials the triangles refer to.
#[derive(Debug)]
pub struct Mesh {
    pub vertices: Vec<Vertex>,
    pub triangles: Vec<IndexedTriangle>,
    pub materials: Vec<Material>,
}

impl Mesh {
    /// Every triangle's vertex and material indices are valid, every vertex
    /// is in range, and every material holds only palette indices.
    pub open spec fn wf(self) -> bool {
        &&& forall|i: int|
            0 <= i < self.triangles@.len() ==> {
                let it = #[trigger] self.triangles@[i];
                &&& it.index.0 < self.vertices@.len()
                &&& it.index.1 < self.vertices@.len()
                &&& it.index.2 < self.vertices@.len()
                &&& it.material_index < self.materials@.len()
            }
        &&& forall|i: int| 0 <= i < self.vertices@.len() ==> vertex_ok(#[trigger] self.vertices@[i])
        &&& forall|i: int|
            0 <= i < self.materials@.len() ==> material_ok(#[trigger] self.materials@[i])
    }

    /// All vertices stay in range under the transform.
    pub open spec fn transform_fits(self, a: Affine) -> bool {
        forall|i: int|
            0 <= i < self.vertices@.len() ==> transform_ok(a, #[trigger] self.vertices@[i])
    }
}

/// The render-time triangle built from triangle `i` of the mesh: its three
/// transformed vertices, its resolved material, and its flat illumination.
pub open spec fn tri_at(m: Mesh, a: Affine, i: int) -> Tri {
    let it = m.triangles@[i];
    let tv1 = spec_transform(a, m.vertices@[it.index.0 as int]);
    let tv2 = spec_transform(a, m.vertices@[it.index.1 as int]);
    let tv3 = spec_transform(a, m.vertices@[it.index.2 as int]);
    Tri {
        v1: tv1,
        v2: tv2,
        v3: tv3,
        base_color: m.materials@[it.material_index as int],
        illumination: spec_illumination(tv1, tv2, tv3) as i64,
    }
}

/// The buffer after the first `i` triangles of the mesh are drawn, in mesh
/// order.
pub open spec fn render_upto(m: Mesh, a: Affine, buf: BufModel, i: int) -> BufModel
    decreases i,
{
    if i <= 0 {
        buf
    } else {
        draw_tri_model(tri_at(m, a, i - 1), render_upto(m, a, buf, i - 1))
    }
}

/// The buffer after the whole mesh is drawn.
pub open spec fn render_model(m: Mesh, a: Affine, buf: BufModel) -> BufModel {
    render_upto(m, a, buf, m.triangles@.len() as int)
}

impl Mesh {
    /// Apply the transform to every vertex, then rasterize every indexed
    /// triangle in mesh order with its resolved material. Depth correctness
    /// relies only on the per-pixel depth test, not on draw order.
    pub fn render(&self, buffer: &mut Buffer, transform: &Affine)
        requires
            old(buffer)@.wf(),
            self.wf(),
            transform.wf(),
            self.transform_fits(*transform),
        ensures
            final(buffer)@.wf(),
            final(buffer)@ == render_model(*self, *transform, old(buffer)@),
    {
        let mut transformed_verts: Vec<Vertex> = Vec::new();
        let n = self.vertices.len();
        let mut i: usize = 0;
        while i < n
            invariant
                self.wf(),
                transform.wf(),
                self.transform_fits(*transform),
                n == self.vertices@.len(),
                i <= n,
                transformed_verts@.len() == i,
                forall|j: int|
                    0 <= j < i ==> #[trigger] transformed_verts@[j] == spec_transform(
                        *transform,
                        self.vertices@[j],
                    ),
            decreases n - i,
        {
            let tv = transform_point(transform, self.vertices[i]);
            transformed_verts.push(tv);
            i = i + 1;
        }
        let nt = self.triangles.len();
        let mut j: usize = 0;
        while j < nt
            invariant
                buffer@ == render_upto(*self, *transform, old(buffer)@, j as int),
                buffer@.wf(),
                old(buffer)@.wf(),
                self.wf(),
                transform.wf(),
                self.transform_fits(*transform),
                nt == self.triangles@.len(),
                j <= nt,
                transformed_verts@.len() == self.vertices@.len(),
                forall|k: int|
                    0 <= k < transformed_verts@.len() ==> #[trigger] transformed_verts@[k]
                        == spec_transform(*transform, self.vertices@[k]),
            decreases nt - j,
        {
            let it = self.triangles[j];
            let (t1, t2, t3) = it.index;
            let vert_tri = Tri::new(
                transformed_verts[t1],
                transformed_verts[t2],
                transformed_verts[t3],
                self.materials[it.material_index],
            );
            draw_tri(buffer, &vert_tri);
            proof {
                assert(vert_tri == tri_at(*self, *transform, j as int));
            }
            j = j + 1;
        }
    }
}

/// A renderable scene node: one mesh with its current transform.
pub struct Geo {
    pub shape: Mesh,
    pub transform: Affine,
}

impl Geo {
    pub fn new(shape: Mesh, transform: Affine) -> (r: Geo)
        ensures
            r.shape == shape,
            r.transform == transform,
    {
        Geo { shape, transform }
    }

    /// Render the node's mesh with its current transform.
    pub fn render(&self, buffer: &mut Buffer)
        requires
            old(buffer)@.wf(),
            self.shape.wf(),
            self.transform.wf(),
            self.shape.transform_fits(self.transform),
        ensures
            final(buffer)@.wf(),
            final(buffer)@ == render_model(self.shape, self.transform, old(buffer)@),
    {
        self.shape.render(buffer, &self.transform);
    }
}

} // verus!
