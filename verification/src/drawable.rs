//! Drawables: an immutable vertex/index buffer pair, a per-instance uniform
//! buffer carrying the world transform, and a material.

use vstd::prelude::*;

use crate::backend::D3D11Backend;
use crate::commands::RenderCommand;
use crate::error::DxError;
use crate::geometry::Vertex;
use crate::material::Material;
use crate::math::Mat4;

verus! {

/// Bytes of a 4x4 transform uniform: sixteen 8-byte entries.
pub const MAT4_BYTES: u32 = 128;

/// Bytes of one vertex: fourteen 8-byte components.
pub const VERTEX_BYTES: u32 = 112;

/// Classification of a drawable, and the filter of a draw traversal.
#[derive(Clone, Copy, Debug, PartialEq, Eq, Structural)]
pub enum ObjType {
    Opaque,
    Transparent,
    /// Only a draw-call filter matching every object; never assigned to an
    /// object.
    Any,
}

/// Whether an object of class `class` is matched by the filter `filter`.
pub open spec fn class_matches(class: ObjType, filter: ObjType) -> bool {
    filter == ObjType::Any || class == filter
}

impl ObjType {
    /// Decides `class_matches`.
    pub fn matches_filter(self, filter: ObjType) -> (r: bool)
        ensures
            r == class_matches(self, filter),
    {
        match (self, filter) {
            (_, ObjType::Any) => true,
            (ObjType::Opaque, ObjType::Opaque) => true,
            (ObjType::Transparent, ObjType::Transparent) => true,
            _ => false,
        }
    }
}

/// The commands binding a material's textures, in slot order.
pub open spec fn material_bind_cmds(m: &Material) -> Seq<RenderCommand> {
    Seq::new(
        m.bindings().len(),
        |i: int|
            RenderCommand::BindTexture {
                slot: m.bindings()[i].slot,
                texture: m.bindings()[i].texture,
            },
    )
}

/// Emits the commands binding every texture of `m`, in slot order.
pub fn bind_material(m: &Material, cmds: &mut Vec<RenderCommand>)
    ensures
        final(cmds)@ == old(cmds)@ + material_bind_cmds(m),
{
    let ghost base = cmds@;
    let n = m.bindings_len();
    let mut i: usize = 0;
    while i < n
        invariant
            n == m.bindings().len(),
            0 <= i <= n,
            cmds@ =~= base + material_bind_cmds(m).take(i as int),
        decreases n - i,
    {
        let b = m.binding_at(i);
        cmds.push(RenderCommand::BindTexture { slot: b.slot, texture: b.texture });
        proof {
            assert(cmds@ =~= base + material_bind_cmds(m).take(i as int + 1));
        }
        i += 1;
    }
    proof {
        assert(material_bind_cmds(m).take(n as int) =~= material_bind_cmds(m));
    }
}

/// Two drawables that differ at most in their staged world transform.
pub open spec fn same_but_model(a: DxDrawable, b: DxDrawable) -> bool {
    &&& b.spec_id() == a.spec_id()
    &&& b.spec_vertex_buffer() == a.spec_vertex_buffer()
    &&& b.spec_index_buffer() == a.spec_index_buffer()
    &&& b.spec_index_count() == a.spec_index_count()
    &&& b.spec_model_buffer() == a.spec_model_buffer()
    &&& b.spec_material() == a.spec_material()
    &&& b.spec_object_type() == a.spec_object_type()
}

/// A drawable mesh instance.
#[derive(Clone, Debug)]
pub struct DxDrawable {
    id: u64,
    vertex_buffer: u64,
    index_buffer: u64,
    index_count: u32,
    model_buffer: u64,
    model: Mat4,
    material: Material,
    object_type: ObjType,
}

/// The command sequence of one draw call: bind the per-instance transform,
/// rebind the material when asked to, draw the indexed mesh.
pub open spec fn draw_cmds(d: &DxDrawable, bind: bool) -> Seq<RenderCommand> {
    seq![RenderCommand::BindUniform { slot: 1, buffer: d.spec_model_buffer() }] + (if bind {
        material_bind_cmds(&d.spec_material())
    } else {
        Seq::empty()
    }) + seq![
        RenderCommand::DrawIndexed {
            vertex_buffer: d.spec_vertex_buffer(),
            index_buffer: d.spec_index_buffer(),
            index_count: d.spec_index_count(),
        },
    ]
}

impl DxDrawable {
    pub closed spec fn spec_id(&self) -> u64 {
        self.id
    }

    pub closed spec fn spec_vertex_buffer(&self) -> u64 {
        self.vertex_buffer
    }

    pub closed spec fn spec_index_buffer(&self) -> u64 {
        self.index_buffer
    }

    pub closed spec fn spec_index_count(&self) -> u32 {
        self.index_count
    }

    pub closed spec fn spec_model_buffer(&self) -> u64 {
        self.model_buffer
    }

    pub closed spec fn spec_model(&self) -> Mat4 {
        self.model
    }

    pub closed spec fn spec_material(&self) -> Material {
        self.material
    }

    pub closed spec fn spec_object_type(&self) -> ObjType {
        self.object_type
    }

    /// Uploads mesh data to fresh GPU buffers and pairs them with an
    /// identity-transform instance buffer and an empty material.
    pub fn from_verts(
        backend: &mut D3D11Backend,
        vertices: &Vec<Vertex>,
        indices: &Vec<u32>,
        object_type: ObjType,
    ) -> (r: Result<DxDrawable, DxError>)
        requires
            old(backend).ids_ok(),
            vertices@.len() <= u32::MAX,
            indices@.len() <= u32::MAX,
            object_type != ObjType::Any,
        ensures
            final(backend).ids_ok(),
            r is Ok <==> old(backend).spec_next_id() <= u64::MAX - 3,
            r is Err ==> *final(backend) == *old(backend),
            r is Ok ==> {
                &&& r.unwrap().spec_object_type() == object_type
                &&& r.unwrap().spec_index_count() == indices@.len()
                &&& r.unwrap().spec_material().bindings() == Seq::<
                    crate::material::MaterialSlot,
                >::empty()
                &&& r.unwrap().spec_material().wf()
                &&& r.unwrap().spec_model() == crate::math::mat4_identity_val()
                &&& r.unwrap().spec_model().wf()
                &&& final(backend).live_resource(r.unwrap().spec_vertex_buffer())
                &&& final(backend).live_resource(r.unwrap().spec_index_buffer())
                &&& final(backend).live_resource(r.unwrap().spec_model_buffer())
                &&& final(backend).spec_next_id() == old(backend).spec_next_id() + 3
                &&& forall|g: crate::backend::GpuResource|
                    #[trigger] old(backend).spec_resources().contains(g)
                        ==> final(backend).spec_resources().contains(g)
                &&& crate::backend::unchanged_but_registry(old(backend), final(backend))
                &&& r.unwrap().spec_id() == r.unwrap().spec_vertex_buffer()
            },
    {
        if backend.peek_next_id() > u64::MAX - 3 {
            return Err(
                DxError::new(
                    "Vertex Buffer creation failed!",
                    crate::error::DxErrorType::ResourceCreation,
                ),
            );
        }
        let vb = match backend.create_buffer(vertices.len() as u32) {
            Ok(id) => id,
            Err(e) => { return Err(e); },
        };
        let ib = match backend.create_buffer(indices.len() as u32) {
            Ok(id) => id,
            Err(e) => { return Err(e); },
        };
        let mb = match backend.create_buffer(MAT4_BYTES) {
            Ok(id) => id,
            Err(e) => { return Err(e); },
        };
        proof {
            let res = backend.spec_resources();
            let n = res.len() as int;
            assert(res[n - 3].id == vb && res[n - 3].generation == backend.spec_generation());
            assert(res[n - 2].id == ib && res[n - 2].generation == backend.spec_generation());
            assert(res[n - 1].id == mb && res[n - 1].generation == backend.spec_generation());
        }
        Ok(
            DxDrawable {
                id: vb,
                vertex_buffer: vb,
                index_buffer: ib,
                index_count: indices.len() as u32,
                model_buffer: mb,
                model: Mat4::identity(),
                material: Material::new(),
                object_type,
            },
        )
    }

    /// Stages a new world transform into the per-instance uniform buffer and
    /// uploads it.
    pub fn update_model(&mut self, model: &Mat4, cmds: &mut Vec<RenderCommand>)
        ensures
            final(self).spec_model() == *model,
            final(self).spec_id() == old(self).spec_id(),
            final(self).spec_vertex_buffer() == old(self).spec_vertex_buffer(),
            final(self).spec_index_buffer() == old(self).spec_index_buffer(),
            final(self).spec_index_count() == old(self).spec_index_count(),
            final(self).spec_model_buffer() == old(self).spec_model_buffer(),
            final(self).spec_material() == old(self).spec_material(),
            final(self).spec_object_type() == old(self).spec_object_type(),
            final(cmds)@ == old(cmds)@ + seq![
                RenderCommand::UploadBuffer { buffer: old(self).spec_model_buffer() },
            ],
    {
        self.model = *model;
        cmds.push(RenderCommand::UploadBuffer { buffer: self.model_buffer });
    }

    /// Emits this drawable's draw call, rebinding the material only when the
    /// previous draw used a different one.
    pub fn draw(&self, bind_material_now: bool, cmds: &mut Vec<RenderCommand>)
        ensures
            final(cmds)@ == old(cmds)@ + draw_cmds(self, bind_material_now),
    {
        cmds.push(RenderCommand::BindUniform { slot: 1, buffer: self.model_buffer });
        if bind_material_now {
            bind_material(&self.material, cmds);
        }
        cmds.push(
            RenderCommand::DrawIndexed {
                vertex_buffer: self.vertex_buffer,
                index_buffer: self.index_buffer,
                index_count: self.index_count,
            },
        );
        proof {
            assert(cmds@ =~= old(cmds)@ + draw_cmds(self, bind_material_now));
        }
    }

    pub fn material(&self) -> (r: &Material)
        ensures
            *r == self.spec_material(),
    {
        &self.material
    }

    pub fn object_type(&self) -> (r: ObjType)
        ensures
            r == self.spec_object_type(),
    {
        self.object_type
    }

    pub fn id(&self) -> (r: u64)
        ensures
            r == self.spec_id(),
    {
        self.id
    }

    pub fn model(&self) -> (r: &Mat4)
        ensures
            *r == self.spec_model(),
    {
        &self.model
    }

    /// Binds `texture` to `slot` of this drawable's material.
    pub fn add_texture(&mut self, slot: u32, texture: u64)
        requires
            old(self).spec_material().wf(),
        ensures
            final(self).spec_material().wf(),
            final(self).spec_material().slot_map() == old(self).spec_material().slot_map().insert(
                slot,
                texture,
            ),
            final(self).spec_id() == old(self).spec_id(),
            final(self).spec_vertex_buffer() == old(self).spec_vertex_buffer(),
            final(self).spec_index_buffer() == old(self).spec_index_buffer(),
            final(self).spec_index_count() == old(self).spec_index_count(),
            final(self).spec_model_buffer() == old(self).spec_model_buffer(),
            final(self).spec_model() == old(self).spec_model(),
            final(self).spec_object_type() == old(self).spec_object_type(),
    {
        self.material.add_texture(slot, texture);
    }
}

/// The full-screen quad drawn by the deferred lighting, ambient-occlusion
/// and composition passes.
#[derive(Clone, Copy, Debug)]
pub struct ScreenQuad {
    vertex_buffer: u64,
    index_buffer: u64,
    index_count: u32,
}

impl ScreenQuad {
    pub closed spec fn spec_vertex_buffer(&self) -> u64 {
        self.vertex_buffer
    }

    pub closed spec fn spec_index_buffer(&self) -> u64 {
        self.index_buffer
    }

    pub closed spec fn spec_index_count(&self) -> u32 {
        self.index_count
    }

    /// Uploads the two-triangle unit quad.
    pub fn create(backend: &mut D3D11Backend) -> (r: Result<ScreenQuad, DxError>)
        requires
            old(backend).ids_ok(),
        ensures
            final(backend).ids_ok(),
            r is Ok <==> old(backend).spec_next_id() <= u64::MAX - 2,
            r is Err ==> *final(backend) == *old(backend),
            r is Ok ==> {
                &&& r.unwrap().spec_index_count() == 6
                &&& final(backend).live_resource(r.unwrap().spec_vertex_buffer())
                &&& final(backend).live_resource(r.unwrap().spec_index_buffer())
                &&& final(backend).spec_next_id() == old(backend).spec_next_id() + 2
                &&& forall|g: crate::backend::GpuResource|
                    #[trigger] old(backend).spec_resources().contains(g)
                        ==> final(backend).spec_resources().contains(g)
                &&& crate::backend::unchanged_but_registry(old(backend), final(backend))
            },
    {
        if backend.peek_next_id() > u64::MAX - 2 {
            return Err(
                DxError::new(
                    "Vertex Buffer creation failed!",
                    crate::error::DxErrorType::ResourceCreation,
                ),
            );
        }
        let vb = match backend.create_buffer(4 * VERTEX_BYTES) {
            Ok(id) => id,
            Err(e) => { return Err(e); },
        };
        let ib = match backend.create_buffer(6 * 4) {
            Ok(id) => id,
            Err(e) => { return Err(e); },
        };
        proof {
            let res = backend.spec_resources();
            let n = res.len() as int;
            assert(res[n - 2].id == vb && res[n - 2].generation == backend.spec_generation());
            assert(res[n - 1].id == ib && res[n - 1].generation == backend.spec_generation());
        }
        Ok(ScreenQuad { vertex_buffer: vb, index_buffer: ib, index_count: 6 })
    }

    /// Draws the quad.
    pub fn draw(&self, cmds: &mut Vec<RenderCommand>)
        ensures
            final(cmds)@ == old(cmds)@ + seq![
                RenderCommand::DrawIndexed {
                    vertex_buffer: self.spec_vertex_buffer(),
                    index_buffer: self.spec_index_buffer(),
                    index_count: self.spec_index_count(),
                },
            ],
    {
        cmds.push(
            RenderCommand::DrawIndexed {
                vertex_buffer: self.vertex_buffer,
                index_buffer: self.index_buffer,
                index_count: self.index_count,
            },
        );
    }
}

/// Builds the sky cube: the unit cube drawn around the viewer by the sky
/// pass, with its per-instance transform left at the identity.
pub fn create_skybox(backend: &mut D3D11Backend) -> (r: Result<DxDrawable, DxError>)
    requires
        old(backend).ids_ok(),
    ensures
        final(backend).ids_ok(),
        r is Ok <==> old(backend).spec_next_id() <= u64::MAX - 3,
        r is Err ==> *final(backend) == *old(backend),
        r is Ok ==> {
            &&& r.unwrap().spec_index_count() == 36
            &&& r.unwrap().spec_model() == crate::math::mat4_identity_val()
            &&& r.unwrap().spec_object_type() == ObjType::Opaque
            &&& final(backend).spec_next_id() == old(backend).spec_next_id() + 3
            &&& forall|g: crate::backend::GpuResource|
                #[trigger] old(backend).spec_resources().contains(g)
                    ==> final(backend).spec_resources().contains(g)
            &&& crate::backend::unchanged_but_registry(old(backend), final(backend))
        },
{
    let mut vertices: Vec<Vertex> = Vec::new();
    let mut f: usize = 0;
    while f < 6
        invariant
            0 <= f <= 6,
            vertices@.len() == 4 * f,
        decreases 6 - f,
    {
        let axis = f / 2;
        let sign: i64 = if f % 2 == 0 {
            1
        } else {
            -1
        };
        let mut c: usize = 0;
        while c < 4
            invariant
                0 <= c <= 4,
                vertices@.len() == 4 * f + c,
            decreases 4 - c,
        {
            let u: i64 = if c == 1 || c == 2 {
                1
            } else {
                -1
            };
            let v: i64 = if c >= 2 {
                1
            } else {
                -1
            };
            let position = if axis == 0 {
                crate::math::Vec3i::new(sign, u, v)
            } else if axis == 1 {
                crate::math::Vec3i::new(u, sign, v)
            } else {
                crate::math::Vec3i::new(u, v, sign)
            };
            vertices.push(
                Vertex::new(
                    position,
                    crate::math::Vec3i::zero(),
                    crate::math::Vec2i::new(if u > 0 { 1 } else { 0 }, if v > 0 { 1 } else { 0 }),
                ),
            );
            c += 1;
        }
        f += 1;
    }
    let mut indices: Vec<u32> = Vec::new();
    let mut f2: usize = 0;
    while f2 < 6
        invariant
            0 <= f2 <= 6,
            indices@.len() == 6 * f2,
        decreases 6 - f2,
    {
        let base = (4 * f2) as u32;
        indices.push(base);
        indices.push(base + 2);
        indices.push(base + 1);
        indices.push(base);
        indices.push(base + 3);
        indices.push(base + 2);
        f2 += 1;
    }
    DxDrawable::from_verts(backend, &vertices, &indices, ObjType::Opaque)
}

} // verus!
