//! Triangle meshes, their bounding boxes, and the routines that turn a mesh into
//! triangles on the screen.

use crate::camera::Camera;
use crate::math::angle::Rotation;
use crate::math::mat::{lemma_dot_respects_equal, lemma_identity_mult_mat4, Mat4};
use crate::math::transform::{
    compute_model_to_clip_matrix, compute_model_to_clip_matrix_spec, compute_model_to_view_matrix,
    compute_model_to_view_matrix_spec, compute_view_matrix_spec, finite3, in_depth_range,
    lemma_unturned_view_agrees, lemma_unturned_view_matrix, transform_vertex,
    transform_vertex_spec, triangle_camera_to_screen_space, triangle_world_to_camera_space_clipped,
    triangle_world_to_camera_space_clipped_spec, triangle_world_to_screen_space_clipped,
    triangle_world_to_screen_space_clipped_spec, unturned, vertex_camera_to_clip_space,
    vertex_camera_to_clip_space_spec, vertex_camera_to_screen_space_spec, vertex_world_to_camera_space_clipped,
    vertex_world_to_camera_space_spec,
};
use crate::math::vec::{Vec2, Vec3, Vec4};
use crate::raster::{box_triangle_indices, box_triangles, Fill, LinearRgb, Srgb, Triangle};
use crate::single::{F32, NEG_ONE_BITS, ONE_BITS, TWO_BITS};
use crate::single_laws::{
    lemma_add_zero, lemma_from_nat_order, lemma_mul_respects_equal, lemma_order, lemma_product_within_one,
    lemma_quotient_within_one, lemma_total_order_refines,
};
use vstd::prelude::*;

verus! {

/// The shade by which the matrix path darkens from the first face to the last: the bits
/// of 0.8.
pub const SHADE_SPAN_BITS: u32 = 0x3f4c_cccd;

/// A triangle mesh. `faces` holds three vertex indices for each face. A textured mesh
/// holds, for each of those, the index of a texture coordinate and of a texture.
pub struct Model {
    pub faces: Vec<usize>,
    /// (index of the texture coordinate, index of the texture)
    pub face_textures: Vec<(usize, usize)>,
    pub verts: Vec<Vec3>,
    pub uvs: Vec<Vec2>,
    /// (width, height, pixels)
    pub textures: Vec<(usize, usize, Vec<Srgb>)>,
}

/// What a mesh holds.
pub struct ModelView {
    pub faces: Seq<usize>,
    pub face_textures: Seq<(usize, usize)>,
    pub verts: Seq<Vec3>,
    pub uvs: Seq<Vec2>,
    pub textures: Seq<(usize, usize, Seq<Srgb>)>,
}

impl View for Model {
    type V = ModelView;

    open spec fn view(&self) -> ModelView {
        ModelView {
            faces: self.faces@,
            face_textures: self.face_textures@,
            verts: self.verts@,
            uvs: self.uvs@,
            textures: Seq::new(
                self.textures@.len(),
                |i: int| (self.textures@[i].0, self.textures@[i].1, self.textures@[i].2@),
            ),
        }
    }
}

/// A box along the axes of the model, from its least corner to its greatest.
#[derive(Clone, Copy, Debug)]
pub struct Obb {
    pub min: Vec3,
    pub max: Vec3,
}

/// What is wrong with a mesh.
#[derive(Clone, Copy, Debug, PartialEq, Eq, Structural)]
pub enum ModelError {
    /// There is no vertex.
    NoVertices,
    /// There is no face.
    NoFaces,
    /// The vertex indices do not come in threes.
    RaggedFaces,
    /// The texture bindings do not come in threes.
    RaggedBindings,
    /// Of bindings, texture coordinates and textures, some are there and some are not.
    TexturesIncomplete,
    /// There are bindings, but not one for each vertex index.
    BindingCountMismatch,
    /// A face names a vertex that is not there.
    VertexOutOfRange,
    /// A binding names a texture coordinate or a texture that is not there.
    BindingOutOfRange,
    /// The three bindings of a face name different textures.
    MixedFace,
}

/// One of the three axes.
#[derive(Clone, Copy, Debug, PartialEq, Eq, Structural)]
pub enum Axis {
    X,
    Y,
    Z,
}

impl Axis {
    /// The component of `v` along the axis.
    pub open spec fn of_spec(self, v: Vec3) -> F32 {
        match self {
            Axis::X => v.x,
            Axis::Y => v.y,
            Axis::Z => v.z,
        }
    }

    /// The component of `v` along the axis.
    pub fn of(self, v: Vec3) -> (r: F32)
        ensures
            r == self.of_spec(v),
    {
        match self {
            Axis::X => v.x,
            Axis::Y => v.y,
            Axis::Z => v.z,
        }
    }
}

impl Model {
    /// The counts are in order: there are vertices and faces, indices and bindings come
    /// in threes, and a textured mesh has bindings, coordinates and textures, with one
    /// binding for each vertex index.
    pub open spec fn well_formed(&self) -> bool {
        &&& self.verts.len() > 0
        &&& self.faces.len() > 0
        &&& self.faces.len() % 3 == 0
        &&& self.face_textures.len() % 3 == 0
        &&& (self.face_textures.len() == 0) == (self.uvs.len() == 0)
        &&& (self.uvs.len() == 0) == (self.textures.len() == 0)
        &&& (self.face_textures.len() > 0 ==> self.faces.len() == self.face_textures.len())
    }

    /// Every face names vertices that are there.
    pub open spec fn faces_in_range(&self) -> bool {
        forall|i: int| 0 <= i < self.faces.len() ==> #[trigger] self.faces[i] < self.verts.len()
    }

    /// Every binding names a texture coordinate and a texture that are there.
    pub open spec fn bindings_in_range(&self) -> bool {
        forall|i: int|
            0 <= i < self.face_textures.len() ==> (#[trigger] self.face_textures[i]).0 < self.uvs.len()
                && self.face_textures[i].1 < self.textures.len()
    }

    /// The three bindings of every face name one texture.
    pub open spec fn faces_unmixed(&self) -> bool {
        forall|i: int|
            0 <= i < self.face_textures.len() ==> (#[trigger] self.face_textures[i]).1
                == self.face_textures[i - i % 3].1
    }

    /// The mesh can be drawn: the counts are in order and every index is in range.
    pub open spec fn valid(&self) -> bool {
        &&& self.well_formed()
        &&& self.faces_in_range()
        &&& self.bindings_in_range()
        &&& self.faces_unmixed()
    }

    /// The first thing that is wrong with the mesh, in the order of `ModelError`.
    pub open spec fn validate_spec(&self) -> Result<(), ModelError> {
        if self.verts.len() == 0 {
            Err(ModelError::NoVertices)
        } else if self.faces.len() == 0 {
            Err(ModelError::NoFaces)
        } else if self.faces.len() % 3 != 0 {
            Err(ModelError::RaggedFaces)
        } else if self.face_textures.len() % 3 != 0 {
            Err(ModelError::RaggedBindings)
        } else if (self.face_textures.len() == 0) != (self.uvs.len() == 0) || (self.uvs.len() == 0) != (
        self.textures.len() == 0) {
            Err(ModelError::TexturesIncomplete)
        } else if self.face_textures.len() > 0 && self.faces.len() != self.face_textures.len() {
            Err(ModelError::BindingCountMismatch)
        } else if !self.faces_in_range() {
            Err(ModelError::VertexOutOfRange)
        } else if !self.bindings_in_range() {
            Err(ModelError::BindingOutOfRange)
        } else if !self.faces_unmixed() {
            Err(ModelError::MixedFace)
        } else {
            Ok(())
        }
    }

    /// Checks a mesh before it is drawn: `Ok` exactly for a valid mesh, and else the
    /// first thing that is wrong.
    #[verifier::loop_isolation(false)]
    pub fn validate(&self) -> (r: Result<(), ModelError>)
        ensures
            r == self.validate_spec(),
            r is Ok <==> self.valid(),
    {
        if self.verts.len() == 0 {
            return Err(ModelError::NoVertices);
        }
        if self.faces.len() == 0 {
            return Err(ModelError::NoFaces);
        }
        if self.faces.len() % 3 != 0 {
            return Err(ModelError::RaggedFaces);
        }
        if self.face_textures.len() % 3 != 0 {
            return Err(ModelError::RaggedBindings);
        }
        if (self.face_textures.len() == 0) != (self.uvs.len() == 0) || (self.uvs.len() == 0) != (
        self.textures.len() == 0) {
            return Err(ModelError::TexturesIncomplete);
        }
        if self.face_textures.len() > 0 && self.faces.len() != self.face_textures.len() {
            return Err(ModelError::BindingCountMismatch);
        }
        let mut i: usize = 0;
        while i < self.faces.len()
            invariant
                i <= self.faces.len(),
                forall|j: int| 0 <= j < i ==> #[trigger] self.faces[j] < self.verts.len(),
            decreases self.faces.len() - i,
        {
            if self.faces[i] >= self.verts.len() {
                return Err(ModelError::VertexOutOfRange);
            }
            i = i + 1;
        }
        let mut i: usize = 0;
        while i < self.face_textures.len()
            invariant
                i <= self.face_textures.len(),
                forall|j: int|
                    0 <= j < i ==> (#[trigger] self.face_textures[j]).0 < self.uvs.len()
                        && self.face_textures[j].1 < self.textures.len(),
            decreases self.face_textures.len() - i,
        {
            if self.face_textures[i].0 >= self.uvs.len() || self.face_textures[i].1 >= self.textures.len() {
                return Err(ModelError::BindingOutOfRange);
            }
            i = i + 1;
        }
        let mut i: usize = 0;
        while i < self.face_textures.len()
            invariant
                i <= self.face_textures.len(),
                forall|j: int|
                    0 <= j < i ==> (#[trigger] self.face_textures[j]).1 == self.face_textures[j - j % 3].1,
            decreases self.face_textures.len() - i,
        {
            if self.face_textures[i].1 != self.face_textures[i - i % 3].1 {
                return Err(ModelError::MixedFace);
            }
            i = i + 1;
        }
        Ok(())
    }

    /// The components of the vertices along one axis.
    pub open spec fn components(&self, axis: Axis) -> Seq<F32> {
        Seq::new(self.verts.len() as nat, |i: int| axis.of_spec(self.verts[i]))
    }
}

impl Default for Model {
    fn default() -> (r: Model)
        ensures
            r.faces.len() == 0,
            r.face_textures.len() == 0,
            r.verts.len() == 0,
            r.uvs.len() == 0,
            r.textures.len() == 0,
    {
        Model {
            faces: Vec::new(),
            face_textures: Vec::new(),
            verts: Vec::new(),
            uvs: Vec::new(),
            textures: Vec::new(),
        }
    }
}

impl Default for Obb {
    /// The box that is the origin alone.
    fn default() -> (r: Obb)
        ensures
            r == (Obb { min: Vec3::zero_spec(), max: Vec3::zero_spec() }),
    {
        Obb { min: Vec3::zero(), max: Vec3::zero() }
    }
}

/// Whether `lo` and `hi` are the least and the greatest of `s` in the total order: both
/// occur in `s`, and nothing in `s` stands before `lo` or after `hi`.
pub open spec fn is_extent(lo: F32, hi: F32, s: Seq<F32>) -> bool {
    &&& exists|i: int| 0 <= i < s.len() && #[trigger] s[i] == lo
    &&& exists|i: int| 0 <= i < s.len() && #[trigger] s[i] == hi
    &&& forall|i: int|
        0 <= i < s.len() ==> lo.total_place() <= (#[trigger] s[i]).total_place() <= hi.total_place()
}

/// The least of a list without a NaN is at most its greatest, as numbers: the box round
/// vertices without a NaN is valid.
pub proof fn lemma_extent_is_ordered(lo: F32, hi: F32, s: Seq<F32>)
    requires
        is_extent(lo, hi, s),
        forall|i: int| 0 <= i < s.len() ==> !(#[trigger] s[i]).nan(),
    ensures
        lo.le_spec(hi),
{
    let i = choose|i: int| 0 <= i < s.len() && #[trigger] s[i] == lo;
    let j = choose|j: int| 0 <= j < s.len() && #[trigger] s[j] == hi;
    assert(!s[i].nan() && !s[j].nan());
    lemma_total_order_refines(lo, s[j]);
}

/// The box round vertices without a NaN holds them: each component lies between the
/// least and the greatest, as numbers.
pub proof fn lemma_extent_holds_all(lo: F32, hi: F32, s: Seq<F32>, i: int)
    requires
        is_extent(lo, hi, s),
        forall|k: int| 0 <= k < s.len() ==> !(#[trigger] s[k]).nan(),
        0 <= i < s.len(),
    ensures
        lo.le_spec(s[i]),
        s[i].le_spec(hi),
{
    let a = choose|a: int| 0 <= a < s.len() && #[trigger] s[a] == lo;
    let b = choose|b: int| 0 <= b < s.len() && #[trigger] s[b] == hi;
    assert(!s[a].nan() && !s[b].nan() && !s[i].nan());
    lemma_total_order_refines(lo, s[i]);
    lemma_total_order_refines(s[i], hi);
}

impl Obb {
    /// The least corner is at most the greatest, axis by axis. A box with a NaN is not
    /// valid.
    pub open spec fn valid(self) -> bool {
        &&& self.min.x.le_spec(self.max.x)
        &&& self.min.y.le_spec(self.max.y)
        &&& self.min.z.le_spec(self.max.z)
    }

    /// Whether the box is valid.
    pub fn is_valid(self) -> (r: bool)
        ensures
            r == self.valid(),
    {
        self.min.x.le(self.max.x) && self.min.y.le(self.max.y) && self.min.z.le(self.max.z)
    }

    /// The eight corners of the box before any transform: round the face at the least
    /// z from the least corner, then round the face at the greatest z.
    pub open spec fn corner_spec(self, k: int) -> Vec3 {
        Vec3 {
            x: if k == 0 || k == 3 || k == 4 || k == 7 {
                self.min.x
            } else {
                self.max.x
            },
            y: if k == 0 || k == 1 || k == 4 || k == 5 {
                self.min.y
            } else {
                self.max.y
            },
            z: if k < 4 {
                self.min.z
            } else {
                self.max.z
            },
        }
    }
}

/// The least and the greatest component of the vertices along one axis.
fn min_max(model: &Model, axis: Axis) -> (r: (F32, F32))
    requires
        model.verts.len() > 0,
    ensures
        is_extent(r.0, r.1, model.components(axis)),
{
    let ghost s = model.components(axis);
    let mut lo: F32 = axis.of(model.verts[0]);
    let mut hi: F32 = lo;
    let mut i: usize = 1;
    assert(s[0] == lo);
    while i < model.verts.len()
        invariant
            1 <= i <= model.verts.len(),
            s == model.components(axis),
            exists|k: int| 0 <= k < i && #[trigger] s[k] == lo,
            exists|k: int| 0 <= k < i && #[trigger] s[k] == hi,
            forall|k: int|
                0 <= k < i ==> lo.total_place() <= (#[trigger] s[k]).total_place() <= hi.total_place(),
        decreases model.verts.len() - i,
    {
        let c: F32 = axis.of(model.verts[i]);
        assert(s[i as int] == c);
        if c.total_lt(lo) {
            lo = c;
        }
        if !c.total_lt(hi) {
            hi = c;
        }
        i = i + 1;
    }
    (lo, hi)
}

/// The box round a mesh: along each axis the least and the greatest component of its
/// vertices, in the total order of bit patterns.
pub fn compute_obb(model: &Model) -> (r: Obb)
    requires
        model.well_formed(),
    ensures
        is_extent(r.min.x, r.max.x, model.components(Axis::X)),
        is_extent(r.min.y, r.max.y, model.components(Axis::Y)),
        is_extent(r.min.z, r.max.z, model.components(Axis::Z)),
{
    let (minx, maxx) = min_max(model, Axis::X);
    let (miny, maxy) = min_max(model, Axis::Y);
    let (minz, maxz) = min_max(model, Axis::Z);
    Obb { min: Vec3::new(minx, miny, minz), max: Vec3::new(maxx, maxy, maxz) }
}

/// Corner `k` of a box placed in the world.
pub open spec fn obb_corner_spec(obb: Obb, translation: Vec3, pitch_yaw_roll: Rotation, k: int) -> Vec3 {
    transform_vertex_spec(translation, pitch_yaw_roll, obb.corner_spec(k))
}

/// The eight corners of a box, placed in the world as the model is: turned, then moved.
pub fn obb_corners(obb: Obb, translation: Vec3, pitch_yaw_roll: Rotation) -> (r: [Vec3; 8])
    requires
        obb.valid(),
    ensures
        forall|k: int| 0 <= k < 8 ==> r[k] == #[trigger] obb_corner_spec(obb, translation, pitch_yaw_roll, k),
{
    let min = obb.min;
    let max = obb.max;
    let r = [
        transform_vertex(translation, pitch_yaw_roll, Vec3::new(min.x, min.y, min.z)),
        transform_vertex(translation, pitch_yaw_roll, Vec3::new(max.x, min.y, min.z)),
        transform_vertex(translation, pitch_yaw_roll, Vec3::new(max.x, max.y, min.z)),
        transform_vertex(translation, pitch_yaw_roll, Vec3::new(min.x, max.y, min.z)),
        transform_vertex(translation, pitch_yaw_roll, Vec3::new(min.x, min.y, max.z)),
        transform_vertex(translation, pitch_yaw_roll, Vec3::new(max.x, min.y, max.z)),
        transform_vertex(translation, pitch_yaw_roll, Vec3::new(max.x, max.y, max.z)),
        transform_vertex(translation, pitch_yaw_roll, Vec3::new(min.x, max.y, max.z)),
    ];
    assert(obb.corner_spec(0) == Vec3 { x: min.x, y: min.y, z: min.z });
    assert(obb.corner_spec(1) == Vec3 { x: max.x, y: min.y, z: min.z });
    assert(obb.corner_spec(2) == Vec3 { x: max.x, y: max.y, z: min.z });
    assert(obb.corner_spec(3) == Vec3 { x: min.x, y: max.y, z: min.z });
    assert(obb.corner_spec(4) == Vec3 { x: min.x, y: min.y, z: max.z });
    assert(obb.corner_spec(5) == Vec3 { x: max.x, y: min.y, z: max.z });
    assert(obb.corner_spec(6) == Vec3 { x: max.x, y: max.y, z: max.z });
    assert(obb.corner_spec(7) == Vec3 { x: min.x, y: max.y, z: max.z });
    r
}

/// Whether a point of the world is seen: it lies in the depth range, and on the clip
/// square its x and y both lie from -1 to 1.
pub open spec fn point_visible(width: usize, height: usize, camera: Camera, v: Vec3) -> bool {
    let c = vertex_world_to_camera_space_spec(camera, v);
    let p = vertex_camera_to_clip_space_spec(width, height, camera, c);
    let one = F32 { bits: ONE_BITS };
    let neg_one = F32 { bits: NEG_ONE_BITS };
    &&& in_depth_range(camera, c)
    &&& neg_one.le_spec(p.x)
    &&& p.x.le_spec(one)
    &&& neg_one.le_spec(p.y)
    &&& p.y.le_spec(one)
}

/// Whether a box is taken as seen: one of its corners is.
pub open spec fn obb_visible_spec(
    width: usize,
    height: usize,
    camera: Camera,
    obb: Obb,
    translation: Vec3,
    pitch_yaw_roll: Rotation,
) -> bool {
    exists|k: int|
        0 <= k < 8 && point_visible(
            width,
            height,
            camera,
            #[trigger] obb_corner_spec(obb, translation, pitch_yaw_roll, k),
        )
}

/// Whether a point of camera space lies in the pyramid of the view: its depth is a finite
/// number and not zero, and its x and its y, each times `1 / tan(fov / 2)`, are no farther
/// from zero than its depth.
pub open spec fn in_view_pyramid(camera: Camera, c: Vec3) -> bool {
    let scale = (F32 { bits: ONE_BITS }).div_spec(camera.trig.half_fov_tan);
    &&& c.z.finite() && !c.z.zero()
    &&& c.x.mul_spec(scale).magnitude() <= c.z.magnitude()
    &&& c.y.mul_spec(scale).magnitude() <= c.z.magnitude()
}

/// What lies before the camera within its field of view is seen: a point of the world
/// whose place in camera space lies in the depth range and in the pyramid of the view is
/// seen, on a screen that is not higher than wide.
pub proof fn lemma_point_in_view_is_seen(width: usize, height: usize, camera: Camera, v: Vec3)
    requires
        0 < height <= width,
        in_depth_range(camera, vertex_world_to_camera_space_spec(camera, v)),
        in_view_pyramid(camera, vertex_world_to_camera_space_spec(camera, v)),
    ensures
        point_visible(width, height, camera, v),
{
    let c = vertex_world_to_camera_space_spec(camera, v);
    let scale = (F32 { bits: ONE_BITS }).div_spec(camera.trig.half_fov_tan);
    let aspect = F32::from_nat_spec(height as nat).div_spec(F32::from_nat_spec(width as nat));
    lemma_from_nat_order(height as nat, width as nat);
    lemma_quotient_within_one(F32::from_nat_spec(height as nat), F32::from_nat_spec(width as nat));
    lemma_quotient_within_one(c.x.mul_spec(scale), c.z);
    lemma_quotient_within_one(c.y.mul_spec(scale), c.z);
    lemma_product_within_one(c.x.mul_spec(scale).div_spec(c.z), aspect);
}

/// A box with a corner before the camera within its field of view is taken as seen, on
/// a screen that is not higher than wide: corner `k`, placed in the world, lies in the
/// depth range and in the pyramid of the view.
pub proof fn lemma_box_with_a_corner_in_view_is_seen(
    width: usize,
    height: usize,
    camera: Camera,
    obb: Obb,
    translation: Vec3,
    pitch_yaw_roll: Rotation,
    k: int,
)
    requires
        0 < height <= width,
        0 <= k < 8,
        in_depth_range(
            camera,
            vertex_world_to_camera_space_spec(camera, obb_corner_spec(obb, translation, pitch_yaw_roll, k)),
        ),
        in_view_pyramid(
            camera,
            vertex_world_to_camera_space_spec(camera, obb_corner_spec(obb, translation, pitch_yaw_roll, k)),
        ),
    ensures
        obb_visible_spec(width, height, camera, obb, translation, pitch_yaw_roll),
{
    lemma_point_in_view_is_seen(width, height, camera, obb_corner_spec(obb, translation, pitch_yaw_roll, k));
}

/// A box faced head-on is taken as seen: for a camera that is not turned, on a screen
/// that is not higher than wide, a box with a corner that lies, seen from the camera's
/// position, in the depth range and in the pyramid of the view. The corner, the camera's
/// position, their difference and the scale of the field of view are of finite numbers.
pub proof fn lemma_box_faced_head_on_is_seen(
    width: usize,
    height: usize,
    camera: Camera,
    obb: Obb,
    translation: Vec3,
    pitch_yaw_roll: Rotation,
    k: int,
)
    requires
        0 < height <= width,
        0 <= k < 8,
        unturned(camera.trig.neg_yaw),
        unturned(camera.trig.neg_pitch),
        finite3(camera.translation),
        finite3(obb_corner_spec(obb, translation, pitch_yaw_roll, k)),
        finite3(obb_corner_spec(obb, translation, pitch_yaw_roll, k).sub_spec(camera.translation)),
        (F32 { bits: ONE_BITS }).div_spec(camera.trig.half_fov_tan).finite(),
        in_depth_range(camera, obb_corner_spec(obb, translation, pitch_yaw_roll, k).sub_spec(camera.translation)),
        in_view_pyramid(
            camera,
            obb_corner_spec(obb, translation, pitch_yaw_roll, k).sub_spec(camera.translation),
        ),
    ensures
        obb_visible_spec(width, height, camera, obb, translation, pitch_yaw_roll),
{
    let corner = obb_corner_spec(obb, translation, pitch_yaw_roll, k);
    let c = vertex_world_to_camera_space_spec(camera, corner);
    let d = corner.sub_spec(camera.translation);
    let scale = (F32 { bits: ONE_BITS }).div_spec(camera.trig.half_fov_tan);
    lemma_unturned_view_agrees(camera, corner);
    lemma_mul_respects_equal(c.x, d.x, scale, scale);
    lemma_mul_respects_equal(c.y, d.y, scale, scale);
    lemma_box_with_a_corner_in_view_is_seen(width, height, camera, obb, translation, pitch_yaw_roll, k);
}

/// A box outside the depth range is not taken as seen: one whose eight corners all lie
/// before the near plane or behind the far one, as a box behind the camera does.
pub proof fn lemma_box_out_of_depth_is_not_seen(
    width: usize,
    height: usize,
    camera: Camera,
    obb: Obb,
    translation: Vec3,
    pitch_yaw_roll: Rotation,
)
    requires
        forall|k: int|
            0 <= k < 8 ==> !in_depth_range(
                camera,
                vertex_world_to_camera_space_spec(
                    camera,
                    #[trigger] obb_corner_spec(obb, translation, pitch_yaw_roll, k),
                ),
            ),
    ensures
        !obb_visible_spec(width, height, camera, obb, translation, pitch_yaw_roll),
{
}

/// Whether a box is taken as seen: one of its corners is. A box that crosses the view
/// with no corner in it is not.
pub fn obb_visible(
    width: usize,
    height: usize,
    camera: &Camera,
    obb: Obb,
    translation: Vec3,
    pitch_yaw_roll: Rotation,
) -> (r: bool)
    requires
        camera.trig_matches(),
        obb.valid(),
    ensures
        r == obb_visible_spec(width, height, *camera, obb, translation, pitch_yaw_roll),
{
    let corners = obb_corners(obb, translation, pitch_yaw_roll);
    let one = F32 { bits: ONE_BITS };
    let neg_one = F32 { bits: NEG_ONE_BITS };
    let mut i: usize = 0;
    while i < 8
        invariant
            i <= 8,
            camera.trig_matches(),
            one.bits == ONE_BITS,
            neg_one.bits == NEG_ONE_BITS,
            forall|k: int|
                0 <= k < 8 ==> corners[k] == #[trigger] obb_corner_spec(obb, translation, pitch_yaw_roll, k),
            forall|k: int|
                0 <= k < i ==> !point_visible(
                    width,
                    height,
                    *camera,
                    #[trigger] obb_corner_spec(obb, translation, pitch_yaw_roll, k),
                ),
        decreases 8 - i,
    {
        match vertex_world_to_camera_space_clipped(camera, corners[i]) {
            Some(c) => {
                let p = vertex_camera_to_clip_space(width, height, camera, c);
                if p.x.ge(neg_one) && p.x.le(one) && p.y.ge(neg_one) && p.y.le(one) {
                    assert(point_visible(
                        width,
                        height,
                        *camera,
                        obb_corner_spec(obb, translation, pitch_yaw_roll, i as int),
                    ));
                    return true;
                }
            },
            None => {},
        }
        i = i + 1;
    }
    false
}

/// The vertex that corner `k` of face `f` names.
pub open spec fn face_vertex(model: Model, f: int, k: int) -> Vec3 {
    model.verts[model.faces[3 * f + k] as int]
}

/// Whether a triangle of camera space shows its back: with the normal
/// `(v3 - v1) x (v2 - v1)`, the dot product of `v1` and the normal is below zero.
pub open spec fn is_backface(c: (Vec3, Vec3, Vec3)) -> bool {
    c.0.dot_spec(c.2.sub_spec(c.0).cross_spec(c.1.sub_spec(c.0))).lt_spec(F32 { bits: 0 })
}

/// How face `f` is filled: red, green and blue at its corners where the mesh has no
/// texture, and else the texture of its first binding between the coordinates of all
/// three.
pub open spec fn face_fill(model: Model, f: int) -> Fill {
    if model.textures.len() == 0 {
        let one = F32 { bits: ONE_BITS };
        let zero = F32 { bits: 0 };
        Fill::Shaded(
            LinearRgb { r: one, g: zero, b: zero },
            LinearRgb { r: zero, g: one, b: zero },
            LinearRgb { r: zero, g: zero, b: one },
        )
    } else {
        Fill::Textured {
            texture: model.face_textures[3 * f].1,
            uv1: model.uvs[model.face_textures[3 * f].0 as int],
            uv2: model.uvs[model.face_textures[3 * f + 1].0 as int],
            uv3: model.uvs[model.face_textures[3 * f + 2].0 as int],
        }
    }
}

/// What face `f` gives the rasterizer: nothing where one of its vertices lies outside
/// the depth range, nothing where backs are dropped and it shows its back, and else
/// its triangle on the screen.
pub open spec fn draw_face_spec(
    width: usize,
    height: usize,
    camera: Camera,
    model: Model,
    translation: Vec3,
    pitch_yaw_roll: Rotation,
    backface: bool,
    f: int,
) -> Option<Triangle> {
    let v1 = transform_vertex_spec(translation, pitch_yaw_roll, face_vertex(model, f, 0));
    let v2 = transform_vertex_spec(translation, pitch_yaw_roll, face_vertex(model, f, 1));
    let v3 = transform_vertex_spec(translation, pitch_yaw_roll, face_vertex(model, f, 2));
    match triangle_world_to_camera_space_clipped_spec(camera, v1, v2, v3) {
        None => None,
        Some(c) => if backface && is_backface(c) {
            None
        } else {
            Some(
                Triangle::from_screen_spec(
                    (
                        vertex_camera_to_screen_space_spec(width, height, camera, c.0),
                        vertex_camera_to_screen_space_spec(width, height, camera, c.1),
                        vertex_camera_to_screen_space_spec(width, height, camera, c.2),
                    ),
                    face_fill(model, f),
                ),
            )
        },
    }
}

/// What the first `n` faces give the rasterizer, in the order of the faces.
pub open spec fn draw_faces_spec(
    width: usize,
    height: usize,
    camera: Camera,
    model: Model,
    translation: Vec3,
    pitch_yaw_roll: Rotation,
    backface: bool,
    n: nat,
) -> Seq<Triangle>
    decreases n,
{
    if n == 0 {
        Seq::empty()
    } else {
        let before = draw_faces_spec(
            width,
            height,
            camera,
            model,
            translation,
            pitch_yaw_roll,
            backface,
            (n - 1) as nat,
        );
        match draw_face_spec(width, height, camera, model, translation, pitch_yaw_roll, backface, n - 1) {
            Some(t) => before.push(t),
            None => before,
        }
    }
}

/// What one face gives the rasterizer.
fn draw_face(
    width: usize,
    height: usize,
    camera: &Camera,
    model: &Model,
    translation: Vec3,
    pitch_yaw_roll: Rotation,
    backface: bool,
    f: usize,
) -> (r: Option<Triangle>)
    requires
        camera.trig_matches(),
        model.valid(),
        f < model.faces.len() / 3,
    ensures
        r == draw_face_spec(width, height, *camera, *model, translation, pitch_yaw_roll, backface, f as int),
{
    let one = F32 { bits: ONE_BITS };
    let zero = F32 { bits: 0 };
    let i: usize = 3 * f;
    assert(model.faces[i as int] < model.verts.len());
    assert(model.faces[i + 1] < model.verts.len());
    assert(model.faces[i + 2] < model.verts.len());
    let v1 = transform_vertex(translation, pitch_yaw_roll, model.verts[model.faces[i]]);
    let v2 = transform_vertex(translation, pitch_yaw_roll, model.verts[model.faces[i + 1]]);
    let v3 = transform_vertex(translation, pitch_yaw_roll, model.verts[model.faces[i + 2]]);
    match triangle_world_to_camera_space_clipped(camera, v1, v2, v3) {
        Some(c) => {
            let culled = backface && c.0.dot(c.2.sub(c.0).cross(c.1.sub(c.0))).lt(zero);
            if culled {
                None
            } else {
                let fill = if model.textures.len() > 0 {
                    assert(model.face_textures[i as int].0 < model.uvs.len());
                    assert(model.face_textures[i + 1].0 < model.uvs.len());
                    assert(model.face_textures[i + 2].0 < model.uvs.len());
                    Fill::Textured {
                        texture: model.face_textures[i].1,
                        uv1: model.uvs[model.face_textures[i].0],
                        uv2: model.uvs[model.face_textures[i + 1].0],
                        uv3: model.uvs[model.face_textures[i + 2].0],
                    }
                } else {
                    Fill::Shaded(
                        LinearRgb { r: one, g: zero, b: zero },
                        LinearRgb { r: zero, g: one, b: zero },
                        LinearRgb { r: zero, g: zero, b: one },
                    )
                };
                let s = triangle_camera_to_screen_space(width, height, camera, c.0, c.1, c.2);
                Some(Triangle::from_screen(s, fill))
            }
        },
        None => None,
    }
}

fn draw_model_inner(
    width: usize,
    height: usize,
    camera: &Camera,
    model: &Model,
    translation: Vec3,
    pitch_yaw_roll: Rotation,
    backface: bool,
) -> (r: Vec<Triangle>)
    requires
        camera.trig_matches(),
        model.valid(),
    ensures
        r@ == draw_faces_spec(
            width,
            height,
            *camera,
            *model,
            translation,
            pitch_yaw_roll,
            backface,
            (model.faces.len() / 3) as nat,
        ),
{
    let mut out: Vec<Triangle> = Vec::new();
    let count: usize = model.faces.len() / 3;
    let mut f: usize = 0;
    while f < count
        invariant
            f <= count,
            count == model.faces.len() / 3,
            model.valid(),
            camera.trig_matches(),
            out@ == draw_faces_spec(
                width,
                height,
                *camera,
                *model,
                translation,
                pitch_yaw_roll,
                backface,
                f as nat,
            ),
        decreases count - f,
    {
        match draw_face(width, height, camera, model, translation, pitch_yaw_roll, backface, f) {
            Some(t) => {
                out.push(t);
            },
            None => {},
        }
        f = f + 1;
    }
    out
}

/// The triangles of a mesh on the screen, in the order of its faces: each face placed in
/// the world, taken into camera space, dropped where a vertex lies outside the depth
/// range, and else filled with vertex colours or with its texture.
pub fn draw_model(
    width: usize,
    height: usize,
    camera: &Camera,
    model: &Model,
    translation: Vec3,
    pitch_yaw_roll: Rotation,
) -> (r: Vec<Triangle>)
    requires
        camera.trig_matches(),
        model.valid(),
    ensures
        r@ == draw_faces_spec(
            width,
            height,
            *camera,
            *model,
            translation,
            pitch_yaw_roll,
            false,
            (model.faces.len() / 3) as nat,
        ),
{
    draw_model_inner(width, height, camera, model, translation, pitch_yaw_roll, false)
}

/// As `draw_model`, and faces that show their back are dropped too.
pub fn draw_model_backface_culled(
    width: usize,
    height: usize,
    camera: &Camera,
    model: &Model,
    translation: Vec3,
    pitch_yaw_roll: Rotation,
) -> (r: Vec<Triangle>)
    requires
        camera.trig_matches(),
        model.valid(),
    ensures
        r@ == draw_faces_spec(
            width,
            height,
            *camera,
            *model,
            translation,
            pitch_yaw_roll,
            true,
            (model.faces.len() / 3) as nat,
        ),
{
    draw_model_inner(width, height, camera, model, translation, pitch_yaw_roll, true)
}

/// Whether all three vertices of face `f`, placed in the world and taken into camera
/// space, lie in the depth range.
pub open spec fn face_in_depth(
    camera: Camera,
    model: Model,
    translation: Vec3,
    pitch_yaw_roll: Rotation,
    f: int,
) -> bool {
    triangle_world_to_camera_space_clipped_spec(
        camera,
        transform_vertex_spec(translation, pitch_yaw_roll, face_vertex(model, f, 0)),
        transform_vertex_spec(translation, pitch_yaw_roll, face_vertex(model, f, 1)),
        transform_vertex_spec(translation, pitch_yaw_roll, face_vertex(model, f, 2)),
    ) is Some
}

/// Nothing is drawn of faces that leave the depth range: where each of the first `n`
/// faces has a vertex before the near plane or behind the far one, the rasterizer gets
/// no triangle.
pub proof fn lemma_clipped_faces_draw_nothing(
    width: usize,
    height: usize,
    camera: Camera,
    model: Model,
    translation: Vec3,
    pitch_yaw_roll: Rotation,
    backface: bool,
    n: nat,
)
    requires
        forall|f: int| 0 <= f < n ==> !#[trigger] face_in_depth(camera, model, translation, pitch_yaw_roll, f),
    ensures
        draw_faces_spec(width, height, camera, model, translation, pitch_yaw_roll, backface, n).len() == 0,
    decreases n,
{
    if n > 0 {
        lemma_clipped_faces_draw_nothing(
            width,
            height,
            camera,
            model,
            translation,
            pitch_yaw_roll,
            backface,
            (n - 1) as nat,
        );
        assert(!face_in_depth(camera, model, translation, pitch_yaw_roll, n - 1));
    }
}

/// Every face in the depth range is drawn where backs are kept: where each of the first
/// `n` faces has its three vertices in the depth range, the rasterizer gets `n`
/// triangles. No more than one triangle a face is drawn in any case.
pub proof fn lemma_faces_in_depth_are_drawn(
    width: usize,
    height: usize,
    camera: Camera,
    model: Model,
    translation: Vec3,
    pitch_yaw_roll: Rotation,
    backface: bool,
    n: nat,
)
    ensures
        draw_faces_spec(width, height, camera, model, translation, pitch_yaw_roll, backface, n).len() <= n,
        !backface && (forall|f: int|
            0 <= f < n ==> #[trigger] face_in_depth(camera, model, translation, pitch_yaw_roll, f))
            ==> draw_faces_spec(width, height, camera, model, translation, pitch_yaw_roll, backface, n).len()
            == n,
    decreases n,
{
    if n > 0 {
        lemma_faces_in_depth_are_drawn(
            width,
            height,
            camera,
            model,
            translation,
            pitch_yaw_roll,
            backface,
            (n - 1) as nat,
        );
        if !backface && (forall|f: int|
            0 <= f < n ==> #[trigger] face_in_depth(camera, model, translation, pitch_yaw_roll, f)) {
            assert(face_in_depth(camera, model, translation, pitch_yaw_roll, n - 1));
        }
    }
}

/// The components along one axis of the eight corners of a box placed in the world.
pub open spec fn corner_components(obb: Obb, translation: Vec3, pitch_yaw_roll: Rotation, axis: Axis) -> Seq<F32> {
    Seq::new(8, |k: int| axis.of_spec(obb_corner_spec(obb, translation, pitch_yaw_roll, k)))
}

/// The corners of a box give the box back: with no turn and no move, the least and the
/// greatest of the eight corners along each axis equal the box's own.
pub proof fn lemma_corners_keep_the_box(obb: Obb, translation: Vec3, pitch_yaw_roll: Rotation, found: Obb)
    requires
        obb.valid(),
        translation.x.zero() && translation.y.zero() && translation.z.zero(),
        pitch_yaw_roll.x.radians.zero() && pitch_yaw_roll.y.radians.zero() && pitch_yaw_roll.z.radians.zero(),
        is_extent(found.min.x, found.max.x, corner_components(obb, translation, pitch_yaw_roll, Axis::X)),
        is_extent(found.min.y, found.max.y, corner_components(obb, translation, pitch_yaw_roll, Axis::Y)),
        is_extent(found.min.z, found.max.z, corner_components(obb, translation, pitch_yaw_roll, Axis::Z)),
    ensures
        found.min.equal(obb.min),
        found.max.equal(obb.max),
{
    lemma_axis_keeps_the_box(obb, translation, pitch_yaw_roll, Axis::X, found.min.x, found.max.x);
    lemma_axis_keeps_the_box(obb, translation, pitch_yaw_roll, Axis::Y, found.min.y, found.max.y);
    lemma_axis_keeps_the_box(obb, translation, pitch_yaw_roll, Axis::Z, found.min.z, found.max.z);
}

proof fn lemma_axis_keeps_the_box(
    obb: Obb,
    translation: Vec3,
    pitch_yaw_roll: Rotation,
    axis: Axis,
    lo: F32,
    hi: F32,
)
    requires
        obb.valid(),
        translation.x.zero() && translation.y.zero() && translation.z.zero(),
        pitch_yaw_roll.x.radians.zero() && pitch_yaw_roll.y.radians.zero() && pitch_yaw_roll.z.radians.zero(),
        is_extent(lo, hi, corner_components(obb, translation, pitch_yaw_roll, axis)),
    ensures
        lo.equal(axis.of_spec(obb.min)),
        hi.equal(axis.of_spec(obb.max)),
{
    let s = corner_components(obb, translation, pitch_yaw_roll, axis);
    let least = axis.of_spec(obb.min);
    let most = axis.of_spec(obb.max);
    let t = axis.of_spec(translation);
    assert(least.le_spec(most));
    lemma_add_zero(least, t);
    lemma_add_zero(most, t);
    assert forall|k: int| 0 <= k < 8 implies (#[trigger] s[k]).equal(least) || s[k].equal(most) by {
        let c = obb.corner_spec(k);
        assert(obb_corner_spec(obb, translation, pitch_yaw_roll, k) == c.add_spec(translation));
        assert(s[k] == axis.of_spec(c).add_spec(t));
        assert(axis.of_spec(c) == least || axis.of_spec(c) == most);
    }
    // corner 0 holds the least along every axis, corner 6 the greatest
    assert(s[0].equal(least)) by {
        assert(obb_corner_spec(obb, translation, pitch_yaw_roll, 0) == obb.corner_spec(0).add_spec(
            translation,
        ));
    }
    assert(s[6].equal(most)) by {
        assert(obb_corner_spec(obb, translation, pitch_yaw_roll, 6) == obb.corner_spec(6).add_spec(
            translation,
        ));
    }
    let i = choose|i: int| 0 <= i < s.len() && #[trigger] s[i] == lo;
    let j = choose|j: int| 0 <= j < s.len() && #[trigger] s[j] == hi;
    assert(s[i].equal(least) || s[i].equal(most));
    assert(s[j].equal(least) || s[j].equal(most));
    lemma_total_order_refines(lo, s[0]);
    lemma_total_order_refines(s[6], hi);
}

/// A point in homogeneous clip coordinates on the screen: x, y and z divided by w, then
/// `x = (x + 1) / 2 * width` and `y = (1 - (y + 1) / 2) * height`.
pub open spec fn clip_to_screen_spec(width: usize, height: usize, v: Vec4) -> Vec3 {
    let one = F32 { bits: ONE_BITS };
    let two = F32 { bits: TWO_BITS };
    Vec3 {
        x: v.x.div_spec(v.w).add_spec(one).div_spec(two).mul_spec(F32::from_nat_spec(width as nat)),
        y: one.sub_spec(v.y.div_spec(v.w).add_spec(one).div_spec(two)).mul_spec(
            F32::from_nat_spec(height as nat),
        ),
        z: v.z.div_spec(v.w),
    }
}

/// A point in homogeneous clip coordinates on the screen, after the perspective divide.
pub fn clip_to_screen(width: usize, height: usize, v: Vec4) -> (r: Vec3)
    ensures
        r == clip_to_screen_spec(width, height, v),
{
    let one = F32 { bits: ONE_BITS };
    let two = F32 { bits: TWO_BITS };
    Vec3 {
        x: v.x.div(v.w).add(one).div(two).mul(F32::from_usize(width)),
        y: one.sub(v.y.div(v.w).add(one).div(two)).mul(F32::from_usize(height)),
        z: v.z.div(v.w),
    }
}

/// The grey of face `f` on the matrix path: 1 for the first face, and `step` less for
/// each face after it.
pub open spec fn shade_spec(step: F32, f: nat) -> F32
    decreases f,
{
    if f == 0 {
        F32 { bits: ONE_BITS }
    } else {
        shade_spec(step, (f - 1) as nat).sub_spec(step)
    }
}

/// The step between the greys of two faces: 0.8 over the number of faces.
pub open spec fn shade_step_spec(model: Model) -> F32 {
    (F32 { bits: SHADE_SPAN_BITS }).div_spec(F32::from_nat_spec((model.faces.len() / 3) as nat))
}

/// A point with 1 as its fourth coordinate.
pub open spec fn extend_one(v: Vec3) -> Vec4 {
    Vec4 { x: v.x, y: v.y, z: v.z, w: F32 { bits: ONE_BITS } }
}

/// The depth of a vertex of a model on the matrix path: the z that the matrix into
/// camera space gives it.
pub open spec fn matrix_depth(camera: Camera, model_matrix: Mat4, v: Vec3) -> F32 {
    compute_model_to_view_matrix_spec(camera, model_matrix).mult_vec4_spec(extend_one(v)).z
}

/// Whether a vertex of a model lies in the depth range on the matrix path: its depth lies
/// between the near and the far plane, both counted in.
pub open spec fn matrix_vertex_in_depth(camera: Camera, model_matrix: Mat4, v: Vec3) -> bool {
    camera.nearz.le_spec(matrix_depth(camera, model_matrix, v)) && matrix_depth(camera, model_matrix, v).le_spec(
        camera.farz,
    )
}

/// Whether all three vertices of face `f` lie in the depth range on the matrix path.
pub open spec fn matrix_face_in_depth(camera: Camera, model: Model, model_matrix: Mat4, f: int) -> bool {
    &&& matrix_vertex_in_depth(camera, model_matrix, face_vertex(model, f, 0))
    &&& matrix_vertex_in_depth(camera, model_matrix, face_vertex(model, f, 1))
    &&& matrix_vertex_in_depth(camera, model_matrix, face_vertex(model, f, 2))
}

/// Where a vertex of a model lands on the screen on the matrix path: the vertex, with 1
/// for w, times the matrix from the model to clip coordinates, then onto the screen.
pub open spec fn matrix_vertex_on_screen(
    width: usize,
    height: usize,
    camera: Camera,
    model_matrix: Mat4,
    v: Vec3,
) -> Vec3 {
    clip_to_screen_spec(
        width,
        height,
        compute_model_to_clip_matrix_spec(camera, width, height, model_matrix).mult_vec4_spec(extend_one(v)),
    )
}

/// What face `f` gives the rasterizer on the matrix path: nothing where one of its
/// vertices lies outside the depth range, and else its triangle on the screen in the
/// grey of the face.
pub open spec fn matrix_face_spec(
    width: usize,
    height: usize,
    camera: Camera,
    model: Model,
    model_matrix: Mat4,
    f: int,
) -> Option<Triangle> {
    if matrix_face_in_depth(camera, model, model_matrix, f) {
        let c = shade_spec(shade_step_spec(model), f as nat);
        let grey = LinearRgb { r: c, g: c, b: c };
        Some(
            Triangle::from_screen_spec(
                (
                    matrix_vertex_on_screen(width, height, camera, model_matrix, face_vertex(model, f, 0)),
                    matrix_vertex_on_screen(width, height, camera, model_matrix, face_vertex(model, f, 1)),
                    matrix_vertex_on_screen(width, height, camera, model_matrix, face_vertex(model, f, 2)),
                ),
                Fill::Shaded(grey, grey, grey),
            ),
        )
    } else {
        None
    }
}

/// What the first `n` faces give the rasterizer on the matrix path, in the order of the
/// faces.
pub open spec fn matrix_faces_spec(
    width: usize,
    height: usize,
    camera: Camera,
    model: Model,
    model_matrix: Mat4,
    n: nat,
) -> Seq<Triangle>
    decreases n,
{
    if n == 0 {
        Seq::empty()
    } else {
        let before = matrix_faces_spec(width, height, camera, model, model_matrix, (n - 1) as nat);
        match matrix_face_spec(width, height, camera, model, model_matrix, n - 1) {
            Some(t) => before.push(t),
            None => before,
        }
    }
}

/// The triangles of an untextured mesh on the screen through matrices, in the order of
/// its faces. The model matrix places the mesh in the world. A face is dropped where one
/// of its vertices, taken into camera space by `view * model`, lies outside the depth
/// range; the others go to the screen by `projection * view * model` and the perspective
/// divide. The greys run from white towards a dark grey, one step a face, dropped or
/// not. No face is culled for showing its back.
pub fn draw_model_matrix(
    width: usize,
    height: usize,
    camera: &Camera,
    model: &Model,
    model_matrix: &Mat4,
) -> (r: Vec<Triangle>)
    requires
        camera.trig_matches(),
        model.valid(),
        model.textures.len() == 0,
    ensures
        r@ == matrix_faces_spec(width, height, *camera, *model, *model_matrix, (model.faces.len() / 3) as nat),
{
    let mut out: Vec<Triangle> = Vec::new();
    let count: usize = model.faces.len() / 3;
    let one = F32 { bits: ONE_BITS };
    let to_view = compute_model_to_view_matrix(camera, model_matrix);
    let to_clip = compute_model_to_clip_matrix(camera, width, height, model_matrix);
    let step = (F32 { bits: SHADE_SPAN_BITS }).div(F32::from_usize(count));
    let mut c = one;
    let mut f: usize = 0;
    while f < count
        invariant
            f <= count,
            count == model.faces.len() / 3,
            model.valid(),
            one.bits == ONE_BITS,
            to_view == compute_model_to_view_matrix_spec(*camera, *model_matrix),
            to_clip == compute_model_to_clip_matrix_spec(*camera, width, height, *model_matrix),
            step == shade_step_spec(*model),
            c == shade_spec(step, f as nat),
            out@ == matrix_faces_spec(width, height, *camera, *model, *model_matrix, f as nat),
        decreases count - f,
    {
        let i: usize = 3 * f;
        assert(model.faces[i as int] < model.verts.len());
        assert(model.faces[i + 1] < model.verts.len());
        assert(model.faces[i + 2] < model.verts.len());
        let p1 = model.verts[model.faces[i]].extend(one);
        let p2 = model.verts[model.faces[i + 1]].extend(one);
        let p3 = model.verts[model.faces[i + 2]].extend(one);
        assert(p1 == extend_one(face_vertex(*model, f as int, 0)));
        assert(p2 == extend_one(face_vertex(*model, f as int, 1)));
        assert(p3 == extend_one(face_vertex(*model, f as int, 2)));
        let z1 = to_view.mult_vec4(p1).z;
        let z2 = to_view.mult_vec4(p2).z;
        let z3 = to_view.mult_vec4(p3).z;
        let kept = z1.ge(camera.nearz) && z1.le(camera.farz) && z2.ge(camera.nearz) && z2.le(camera.farz) && z3.ge(
            camera.nearz,
        ) && z3.le(camera.farz);
        if kept {
            let s = (
                clip_to_screen(width, height, to_clip.mult_vec4(p1)),
                clip_to_screen(width, height, to_clip.mult_vec4(p2)),
                clip_to_screen(width, height, to_clip.mult_vec4(p3)),
            );
            let grey = LinearRgb { r: c, g: c, b: c };
            out.push(Triangle::from_screen(s, Fill::Shaded(grey, grey, grey)));
        }
        c = c.sub(step);
        f = f + 1;
    }
    out
}

/// The two paths agree on the depth for a camera that is not turned and a mesh that is
/// not placed: with the identity for the model matrix, the depth of a vertex on the matrix
/// path equals its z less the camera's, as on the way of `vertex_world_to_camera_space`,
/// so that both paths keep and drop the same vertices. The vertex, the camera's position
/// and their difference are of finite numbers.
pub proof fn lemma_unturned_matrix_depth(camera: Camera, v: Vec3)
    requires
        unturned(camera.trig.neg_yaw),
        unturned(camera.trig.neg_pitch),
        finite3(camera.translation),
        finite3(v),
        finite3(v.sub_spec(camera.translation)),
    ensures
        matrix_depth(camera, Mat4::identity_spec(), v).equal(v.z.sub_spec(camera.translation.z)),
        matrix_depth(camera, Mat4::identity_spec(), v).equal(vertex_world_to_camera_space_spec(camera, v).z),
        matrix_vertex_in_depth(camera, Mat4::identity_spec(), v) == in_depth_range(
            camera,
            vertex_world_to_camera_space_spec(camera, v),
        ),
{
    let t = camera.translation;
    let view = compute_view_matrix_spec(t, camera.trig.neg_yaw, camera.trig.neg_pitch);
    let placed = view.mult_mat4_spec(Mat4::identity_spec());
    let p = extend_one(v);
    lemma_unturned_view_matrix(t, camera.trig.neg_yaw, camera.trig.neg_pitch);
    lemma_unturned_view_agrees(camera, v);
    lemma_identity_mult_mat4(view);
    lemma_order(view.r3.dot_spec(p), vertex_world_to_camera_space_spec(camera, v).z, v.z.sub_spec(t.z));
    lemma_dot_respects_equal(placed.r3, view.r3, p);
    lemma_order(placed.r3.dot_spec(p), view.r3.dot_spec(p), v.z.sub_spec(t.z));
    lemma_order(camera.nearz, placed.r3.dot_spec(p), vertex_world_to_camera_space_spec(camera, v).z);
    lemma_order(placed.r3.dot_spec(p), vertex_world_to_camera_space_spec(camera, v).z, camera.farz);
}

/// Nothing is drawn on the matrix path of faces that leave the depth range: where each
/// of the first `n` faces has a vertex before the near plane or behind the far one, as
/// every face of a mesh behind the camera has, the rasterizer gets no triangle.
pub proof fn lemma_clipped_matrix_faces_draw_nothing(
    width: usize,
    height: usize,
    camera: Camera,
    model: Model,
    model_matrix: Mat4,
    n: nat,
)
    requires
        forall|f: int| 0 <= f < n ==> !#[trigger] matrix_face_in_depth(camera, model, model_matrix, f),
    ensures
        matrix_faces_spec(width, height, camera, model, model_matrix, n).len() == 0,
    decreases n,
{
    if n > 0 {
        lemma_clipped_matrix_faces_draw_nothing(width, height, camera, model, model_matrix, (n - 1) as nat);
        assert(!matrix_face_in_depth(camera, model, model_matrix, n - 1));
    }
}

/// Every face in the depth range is drawn on the matrix path: no more than one triangle
/// a face is drawn, and where each of the first `n` faces has its three vertices in the
/// depth range, the rasterizer gets `n` triangles, the triangle of face `f` at place `f`.
pub proof fn lemma_matrix_faces_in_depth_are_drawn(
    width: usize,
    height: usize,
    camera: Camera,
    model: Model,
    model_matrix: Mat4,
    n: nat,
)
    ensures
        matrix_faces_spec(width, height, camera, model, model_matrix, n).len() <= n,
        (forall|f: int| 0 <= f < n ==> #[trigger] matrix_face_in_depth(camera, model, model_matrix, f)) ==> {
            &&& matrix_faces_spec(width, height, camera, model, model_matrix, n).len() == n
            &&& forall|f: int|
                0 <= f < n ==> Some(matrix_faces_spec(width, height, camera, model, model_matrix, n)[f])
                    == #[trigger] matrix_face_spec(width, height, camera, model, model_matrix, f)
        },
    decreases n,
{
    if n > 0 {
        lemma_matrix_faces_in_depth_are_drawn(width, height, camera, model, model_matrix, (n - 1) as nat);
        if forall|f: int| 0 <= f < n ==> #[trigger] matrix_face_in_depth(camera, model, model_matrix, f) {
            assert(matrix_face_in_depth(camera, model, model_matrix, n - 1));
            let before = matrix_faces_spec(width, height, camera, model, model_matrix, (n - 1) as nat);
            assert forall|f: int| 0 <= f < n implies Some(
                matrix_faces_spec(width, height, camera, model, model_matrix, n)[f],
            ) == #[trigger] matrix_face_spec(width, height, camera, model, model_matrix, f) by {
                if f < n - 1 {
                    assert(matrix_face_in_depth(camera, model, model_matrix, f));
                    assert(Some(before[f]) == matrix_face_spec(width, height, camera, model, model_matrix, f));
                }
            }
        }
    }
}

/// What triangle `t` of a list of vertices gives the rasterizer as a wireframe: nothing
/// where one of its vertices lies outside the depth range.
pub open spec fn wire_triangle_spec(
    width: usize,
    height: usize,
    camera: Camera,
    vertices: Seq<Vec3>,
    color: Srgb,
    t: int,
) -> Option<Triangle> {
    match triangle_world_to_screen_space_clipped_spec(
        width,
        height,
        camera,
        vertices[3 * t],
        vertices[3 * t + 1],
        vertices[3 * t + 2],
    ) {
        Some(s) => Some(Triangle::from_screen_spec(s, Fill::Wire(color))),
        None => None,
    }
}

/// What the first `n` triangles of a list of vertices give the rasterizer as wireframes.
pub open spec fn wire_triangles_spec(
    width: usize,
    height: usize,
    camera: Camera,
    vertices: Seq<Vec3>,
    color: Srgb,
    n: nat,
) -> Seq<Triangle>
    decreases n,
{
    if n == 0 {
        Seq::empty()
    } else {
        let before = wire_triangles_spec(width, height, camera, vertices, color, (n - 1) as nat);
        match wire_triangle_spec(width, height, camera, vertices, color, n - 1) {
            Some(t) => before.push(t),
            None => before,
        }
    }
}

/// The twelve triangles of a box of the world as wireframes, without those that leave
/// the depth range.
pub fn draw_wire_box(width: usize, height: usize, camera: &Camera, corners: &[Vec3; 8], color: Srgb) -> (r: Vec<
    Triangle,
>)
    requires
        camera.trig_matches(),
    ensures
        r@ == wire_triangles_spec(
            width,
            height,
            *camera,
            Seq::new(36, |k: int| corners[box_triangle_indices()[k]]),
            color,
            12,
        ),
{
    let vertices = box_triangles(corners);
    let ghost vs = Seq::new(36, |k: int| corners[box_triangle_indices()[k]]);
    assert(vs =~= vertices@);
    let mut out: Vec<Triangle> = Vec::new();
    let mut t: usize = 0;
    while t < 12
        invariant
            t <= 12,
            camera.trig_matches(),
            vs == vertices@,
            out@ == wire_triangles_spec(width, height, *camera, vs, color, t as nat),
        decreases 12 - t,
    {
        let i: usize = 3 * t;
        match triangle_world_to_screen_space_clipped(
            width,
            height,
            camera,
            vertices[i],
            vertices[i + 1],
            vertices[i + 2],
        ) {
            Some(s) => {
                out.push(Triangle::from_screen(s, Fill::Wire(color)));
            },
            None => {},
        }
        t = t + 1;
    }
    out
}

/// The box of a model as a wireframe, placed in the world as the model is.
pub fn debug_draw_obb(
    width: usize,
    height: usize,
    camera: &Camera,
    obb: Obb,
    translation: Vec3,
    pitch_yaw_roll: Rotation,
    color: Srgb,
) -> (r: Vec<Triangle>)
    requires
        camera.trig_matches(),
        obb.valid(),
    ensures
        r@ == wire_triangles_spec(
            width,
            height,
            *camera,
            Seq::new(
                36,
                |k: int| obb_corner_spec(obb, translation, pitch_yaw_roll, box_triangle_indices()[k]),
            ),
            color,
            12,
        ),
{
    let corners = obb_corners(obb, translation, pitch_yaw_roll);
    assert(Seq::new(36, |k: int| corners[box_triangle_indices()[k]]) =~= Seq::new(
        36,
        |k: int| obb_corner_spec(obb, translation, pitch_yaw_roll, box_triangle_indices()[k]),
    ));
    draw_wire_box(width, height, camera, &corners, color)
}

} // verus!
