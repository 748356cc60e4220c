//! The fixed rendering passes: each owns its shader program, uniform
//! buffers and, where it renders off-screen, its render targets. Setters
//! stage uniform data; `update` uploads it; `prepare_draw` activates the
//! pass's program and bindings.

use vstd::prelude::*;

use crate::backend::{unchanged_but_registry, D3D11Backend, GpuResource, ResourceKind};
use crate::cbuffer::CBuffer;
use crate::commands::RenderCommand;
use crate::error::DxError;
use crate::geometry::{Light, LightType};
use crate::math::{Mat4, Vec3i};

verus! {

/// Side length of the square shadow map.
pub const SHADOW_MAP_SIZE: u32 = 4096;

/// View and projection matrices, as the vertex stages consume them.
#[derive(Clone, Copy, Debug, PartialEq, Eq, Structural)]
pub struct ConstantsVtx {
    pub view: Mat4,
    pub proj: Mat4,
}

/// Camera position and the ambient-occlusion toggle, for lighting stages.
#[derive(Clone, Copy, Debug, PartialEq, Eq, Structural)]
pub struct ConstantsLight {
    pub camera_pos: Vec3i,
    pub ssao: u32,
}

/// Camera near and far planes, for G-buffer packing.
#[derive(Clone, Copy, Debug, PartialEq, Eq, Structural)]
pub struct ConstantsPlanes {
    pub near_plane: i64,
    pub far_plane: i64,
}

/// A light as the shaders consume it.
#[derive(Clone, Copy, Debug, PartialEq, Eq, Structural)]
pub struct DxLight {
    pub position: Vec3i,
    pub t: u32,
    pub color: Vec3i,
    pub radius: i64,
    pub light_space: Mat4,
}

/// The shader layout of a scene light: the classification becomes its
/// numeric tag.
pub open spec fn dx_light_of(light: Light) -> DxLight {
    DxLight {
        position: light.position,
        t: match light.t {
            LightType::Ambient => 0u32,
            LightType::Directional => 1u32,
            LightType::Area => 2u32,
        },
        color: light.color,
        radius: light.radius,
        light_space: light.light_proj,
    }
}

impl DxLight {
    /// Translates a scene light into shader layout.
    pub fn from_sparkle_light(light: &Light) -> (r: DxLight)
        ensures
            r == dx_light_of(*light),
    {
        let t: u32 = match light.t {
            LightType::Ambient => 0,
            LightType::Directional => 1,
            LightType::Area => 2,
        };
        DxLight {
            position: light.position,
            t,
            color: light.color,
            radius: light.radius,
            light_space: light.light_proj,
        }
    }
}

/// The forward (transparency) pass.
pub struct ForwardPass {
    pub program: u64,
    pub vertex_shader_uniforms: CBuffer<ConstantsVtx>,
    pub pixel_shader_uniforms: CBuffer<ConstantsLight>,
    pub light_buffer: CBuffer<DxLight>,
    pub render_target: u64,
}

/// Commands activating the forward pass.
pub open spec fn forward_prepare_cmds(p: &ForwardPass) -> Seq<RenderCommand> {
    seq![
        RenderCommand::BindProgram { program: p.spec_program() },
        RenderCommand::BindUniform { slot: 0, buffer: p.vertex_shader_uniforms.spec_buffer() },
        RenderCommand::BindUniform { slot: 2, buffer: p.pixel_shader_uniforms.spec_buffer() },
        RenderCommand::BindUniform { slot: 3, buffer: p.light_buffer.spec_buffer() },
    ]
}

impl ForwardPass {
    pub closed spec fn spec_program(&self) -> u64 {
        self.program
    }

    pub closed spec fn spec_render_target(&self) -> u64 {
        self.render_target
    }

    /// Creates the pass: program, uniform buffers, and an off-screen
    /// accumulation target at the output resolution.
    pub fn create(resolution: (u32, u32), backend: &mut D3D11Backend) -> (r: Result<
        ForwardPass,
        DxError,
    >)
        requires
            old(backend).ids_ok(),
        ensures
            final(backend).ids_ok(),
            r is Ok <==> old(backend).spec_next_id() <= u64::MAX - 5,
            r is Err ==> *final(backend) == *old(backend),
            r is Ok ==> {
                &&& final(backend).live_resource(r.unwrap().spec_program())
                &&& final(backend).live_resource(r.unwrap().spec_render_target())
                &&& final(backend).live_resource(r.unwrap().vertex_shader_uniforms.spec_buffer())
                &&& final(backend).live_resource(r.unwrap().pixel_shader_uniforms.spec_buffer())
                &&& final(backend).live_resource(r.unwrap().light_buffer.spec_buffer())
                &&& final(backend).spec_next_id() == old(backend).spec_next_id() + 5
                &&& final(backend).spec_resources().contains(
                    GpuResource {
                        id: r.unwrap().spec_program(),
                        kind: ResourceKind::ShaderProgram,
                        generation: old(backend).spec_generation(),
                    },
                )
                &&& final(backend).spec_resources().contains(
                    GpuResource {
                        id: r.unwrap().spec_render_target(),
                        kind: ResourceKind::RenderTarget { width: resolution.0, height: resolution.1 },
                        generation: old(backend).spec_generation(),
                    },
                )
                &&& forall|g: GpuResource|
                    #[trigger] old(backend).spec_resources().contains(g)
                        ==> final(backend).spec_resources().contains(g)
                &&& unchanged_but_registry(old(backend), final(backend))
                &&& r.unwrap().vertex_shader_uniforms.data == (ConstantsVtx {
                    view: crate::math::mat4_identity_val(),
                    proj: crate::math::mat4_identity_val(),
                })
                &&& r.unwrap().pixel_shader_uniforms.data == (ConstantsLight {
                    camera_pos: Vec3i { x: 0i64, y: 0i64, z: 0i64 },
                    ssao: 1u32,
                })
            },
    {
        if backend.peek_next_id() > u64::MAX - 5 {
            return Err(
                DxError::new(
                    "Shader program creation failed",
                    crate::error::DxErrorType::ResourceCreation,
                ),
            );
        }
        let program = match backend.create_program() {
            Ok(id) => id,
            Err(e) => { return Err(e); },
        };
        let vtx = match CBuffer::create(
            ConstantsVtx { view: Mat4::identity(), proj: Mat4::identity() },
            backend,
        ) {
            Ok(b) => b,
            Err(e) => { return Err(e); },
        };
        let pxl = match CBuffer::create(
            ConstantsLight { camera_pos: Vec3i::zero(), ssao: 1 },
            backend,
        ) {
            Ok(b) => b,
            Err(e) => { return Err(e); },
        };
        let light = match CBuffer::create(
            DxLight {
                position: Vec3i::zero(),
                t: 0,
                color: Vec3i::zero(),
                radius: 0,
                light_space: Mat4::identity(),
            },
            backend,
        ) {
            Ok(b) => b,
            Err(e) => { return Err(e); },
        };
        let target = match backend.create_render_target(resolution.0, resolution.1) {
            Ok(id) => id,
            Err(e) => { return Err(e); },
        };
        proof {
            let res = backend.spec_resources();
            let n = res.len() as int;
            assert(res[n - 5].generation == backend.spec_generation());
            assert(res[n - 4].generation == backend.spec_generation());
            assert(res[n - 3].generation == backend.spec_generation());
            assert(res[n - 2].generation == backend.spec_generation());
            assert(res[n - 1].generation == backend.spec_generation());
        }
        Ok(
            ForwardPass {
                program,
                vertex_shader_uniforms: vtx,
                pixel_shader_uniforms: pxl,
                light_buffer: light,
                render_target: target,
            },
        )
    }

    pub fn get_render_target_view(&self) -> (r: u64)
        ensures
            r == self.spec_render_target(),
    {
        self.render_target
    }

    /// Activates the program and binds the pass's uniform buffers.
    pub fn prepare_draw(&self, cmds: &mut Vec<RenderCommand>)
        ensures
            final(cmds)@ == old(cmds)@ + forward_prepare_cmds(self),
    {
        cmds.push(RenderCommand::BindProgram { program: self.program });
        cmds.push(
            RenderCommand::BindUniform { slot: 0, buffer: self.vertex_shader_uniforms.buffer_ptr() },
        );
        cmds.push(
            RenderCommand::BindUniform { slot: 2, buffer: self.pixel_shader_uniforms.buffer_ptr() },
        );
        cmds.push(RenderCommand::BindUniform { slot: 3, buffer: self.light_buffer.buffer_ptr() });
        proof {
            assert(cmds@ =~= old(cmds)@ + forward_prepare_cmds(self));
        }
    }

    /// Uploads every staged uniform block.
    pub fn update(&self, cmds: &mut Vec<RenderCommand>)
        ensures
            final(cmds)@ == old(cmds)@ + seq![
                RenderCommand::UploadBuffer { buffer: self.vertex_shader_uniforms.spec_buffer() },
                RenderCommand::UploadBuffer { buffer: self.pixel_shader_uniforms.spec_buffer() },
                RenderCommand::UploadBuffer { buffer: self.light_buffer.spec_buffer() },
            ],
    {
        self.vertex_shader_uniforms.update(cmds);
        self.pixel_shader_uniforms.update(cmds);
        self.light_buffer.update(cmds);
        proof {
            assert(cmds@ =~= old(cmds)@ + seq![
                RenderCommand::UploadBuffer { buffer: self.vertex_shader_uniforms.spec_buffer() },
                RenderCommand::UploadBuffer { buffer: self.pixel_shader_uniforms.spec_buffer() },
                RenderCommand::UploadBuffer { buffer: self.light_buffer.spec_buffer() },
            ]);
        }
    }

    /// Stages the view matrix.
    pub fn set_view(&mut self, view: Mat4)
        ensures
            final(self).vertex_shader_uniforms.data == (ConstantsVtx {
                view,
                ..old(self).vertex_shader_uniforms.data
            }),
            unchanged_forward_but_vtx(old(self), final(self)),
    {
        self.vertex_shader_uniforms.data.view = view;
    }

    /// Stages the projection matrix.
    pub fn set_proj(&mut self, proj: Mat4)
        ensures
            final(self).vertex_shader_uniforms.data == (ConstantsVtx {
                proj,
                ..old(self).vertex_shader_uniforms.data
            }),
            unchanged_forward_but_vtx(old(self), final(self)),
    {
        self.vertex_shader_uniforms.data.proj = proj;
    }

    /// Stages the current light.
    pub fn set_light(&mut self, light: &Light)
        ensures
            final(self).light_buffer.data == dx_light_of(*light),
            final(self).spec_program() == old(self).spec_program(),
            final(self).spec_render_target() == old(self).spec_render_target(),
            final(self).vertex_shader_uniforms == old(self).vertex_shader_uniforms,
            final(self).pixel_shader_uniforms == old(self).pixel_shader_uniforms,
            final(self).light_buffer.spec_buffer() == old(self).light_buffer.spec_buffer(),
    {
        self.light_buffer.data = DxLight::from_sparkle_light(light);
    }

    /// Stages the camera position.
    pub fn set_camera_pos(&mut self, cpos: Vec3i)
        ensures
            final(self).pixel_shader_uniforms.data == (ConstantsLight {
                camera_pos: cpos,
                ..old(self).pixel_shader_uniforms.data
            }),
            unchanged_forward_but_pxl(old(self), final(self)),
    {
        self.pixel_shader_uniforms.data.camera_pos = cpos;
    }

    /// Stages the ambient-occlusion toggle.
    pub fn set_ssao(&mut self, ssao: u32)
        ensures
            final(self).pixel_shader_uniforms.data == (ConstantsLight {
                ssao,
                ..old(self).pixel_shader_uniforms.data
            }),
            unchanged_forward_but_pxl(old(self), final(self)),
    {
        self.pixel_shader_uniforms.data.ssao = ssao;
    }
}

/// Only the staged vertex-stage uniforms changed.
pub open spec fn unchanged_forward_but_vtx(a: &ForwardPass, b: &ForwardPass) -> bool {
    &&& b.spec_program() == a.spec_program()
    &&& b.spec_render_target() == a.spec_render_target()
    &&& b.vertex_shader_uniforms.spec_buffer() == a.vertex_shader_uniforms.spec_buffer()
    &&& b.pixel_shader_uniforms == a.pixel_shader_uniforms
    &&& b.light_buffer == a.light_buffer
}

/// Only the staged pixel-stage uniforms changed.
pub open spec fn unchanged_forward_but_pxl(a: &ForwardPass, b: &ForwardPass) -> bool {
    &&& b.spec_program() == a.spec_program()
    &&& b.spec_render_target() == a.spec_render_target()
    &&& b.vertex_shader_uniforms == a.vertex_shader_uniforms
    &&& b.pixel_shader_uniforms.spec_buffer() == a.pixel_shader_uniforms.spec_buffer()
    &&& b.light_buffer == a.light_buffer
}

/// The deferred geometry (G-buffer) pass: writes world-space positions and
/// packed albedo into two off-screen targets.
pub struct DeferredPassPre {
    pub program: u64,
    pub vertex_shader_uniforms: CBuffer<ConstantsVtx>,
    pub pixel_shader_uniforms: CBuffer<ConstantsPlanes>,
    pub positions: u64,
    pub albedo: u64,
}

/// Commands activating the G-buffer pass.
pub open spec fn deferred_pre_prepare_cmds(p: &DeferredPassPre) -> Seq<RenderCommand> {
    seq![
        RenderCommand::BindProgram { program: p.spec_program() },
        RenderCommand::BindUniform { slot: 0, buffer: p.vertex_shader_uniforms.spec_buffer() },
        RenderCommand::BindUniform { slot: 2, buffer: p.pixel_shader_uniforms.spec_buffer() },
    ]
}

impl DeferredPassPre {
    pub closed spec fn spec_program(&self) -> u64 {
        self.program
    }

    pub closed spec fn spec_positions(&self) -> u64 {
        self.positions
    }

    pub closed spec fn spec_albedo(&self) -> u64 {
        self.albedo
    }

    /// Creates the pass: program, uniforms, and the two G-buffer targets at
    /// the output resolution.
    pub fn create(resolution: (u32, u32), backend: &mut D3D11Backend) -> (r: Result<
        DeferredPassPre,
        DxError,
    >)
        requires
            old(backend).ids_ok(),
        ensures
            final(backend).ids_ok(),
            r is Ok <==> old(backend).spec_next_id() <= u64::MAX - 5,
            r is Err ==> *final(backend) == *old(backend),
            r is Ok ==> {
                &&& final(backend).live_resource(r.unwrap().spec_program())
                &&& final(backend).live_resource(r.unwrap().spec_positions())
                &&& final(backend).live_resource(r.unwrap().spec_albedo())
                &&& r.unwrap().spec_positions() != r.unwrap().spec_albedo()
                &&& final(backend).spec_next_id() == old(backend).spec_next_id() + 5
                &&& final(backend).spec_resources().contains(
                    GpuResource {
                        id: r.unwrap().spec_program(),
                        kind: ResourceKind::ShaderProgram,
                        generation: old(backend).spec_generation(),
                    },
                )
                &&& final(backend).spec_resources().contains(
                    GpuResource {
                        id: r.unwrap().spec_positions(),
                        kind: ResourceKind::RenderTarget { width: resolution.0, height: resolution.1 },
                        generation: old(backend).spec_generation(),
                    },
                )
                &&& final(backend).spec_resources().contains(
                    GpuResource {
                        id: r.unwrap().spec_albedo(),
                        kind: ResourceKind::RenderTarget { width: resolution.0, height: resolution.1 },
                        generation: old(backend).spec_generation(),
                    },
                )
                &&& forall|g: GpuResource|
                    #[trigger] old(backend).spec_resources().contains(g)
                        ==> final(backend).spec_resources().contains(g)
                &&& unchanged_but_registry(old(backend), final(backend))
            },
    {
        if backend.peek_next_id() > u64::MAX - 5 {
            return Err(
                DxError::new(
                    "Shader program creation failed",
                    crate::error::DxErrorType::ResourceCreation,
                ),
            );
        }
        let program = match backend.create_program() {
            Ok(id) => id,
            Err(e) => { return Err(e); },
        };
        let vtx = match CBuffer::create(
            ConstantsVtx { view: Mat4::identity(), proj: Mat4::identity() },
            backend,
        ) {
            Ok(b) => b,
            Err(e) => { return Err(e); },
        };
        let pxl = match CBuffer::create(ConstantsPlanes { near_plane: 0, far_plane: 0 }, backend) {
            Ok(b) => b,
            Err(e) => { return Err(e); },
        };
        let positions = match backend.create_render_target(resolution.0, resolution.1) {
            Ok(id) => id,
            Err(e) => { return Err(e); },
        };
        let albedo = match backend.create_render_target(resolution.0, resolution.1) {
            Ok(id) => id,
            Err(e) => { return Err(e); },
        };
        proof {
            let res = backend.spec_resources();
            let n = res.len() as int;
            assert(res[n - 5].generation == backend.spec_generation());
            assert(res[n - 4].generation == backend.spec_generation());
            assert(res[n - 3].generation == backend.spec_generation());
            assert(res[n - 2].generation == backend.spec_generation());
            assert(res[n - 1].generation == backend.spec_generation());
        }
        Ok(
            DeferredPassPre {
                program,
                vertex_shader_uniforms: vtx,
                pixel_shader_uniforms: pxl,
                positions,
                albedo,
            },
        )
    }

    /// The two G-buffer render targets: positions, then albedo.
    pub fn get_render_targets(&self) -> (r: (u64, u64))
        ensures
            r.0 == self.spec_positions(),
            r.1 == self.spec_albedo(),
    {
        (self.positions, self.albedo)
    }

    pub fn positions(&self) -> (r: u64)
        ensures
            r == self.spec_positions(),
    {
        self.positions
    }

    pub fn albedo(&self) -> (r: u64)
        ensures
            r == self.spec_albedo(),
    {
        self.albedo
    }

    /// Activates the program and binds the pass's uniform buffers.
    pub fn prepare_draw(&self, cmds: &mut Vec<RenderCommand>)
        ensures
            final(cmds)@ == old(cmds)@ + deferred_pre_prepare_cmds(self),
    {
        cmds.push(RenderCommand::BindProgram { program: self.program });
        cmds.push(
            RenderCommand::BindUniform { slot: 0, buffer: self.vertex_shader_uniforms.buffer_ptr() },
        );
        cmds.push(
            RenderCommand::BindUniform { slot: 2, buffer: self.pixel_shader_uniforms.buffer_ptr() },
        );
        proof {
            assert(cmds@ =~= old(cmds)@ + deferred_pre_prepare_cmds(self));
        }
    }

    /// Uploads every staged uniform block.
    pub fn update(&self, cmds: &mut Vec<RenderCommand>)
        ensures
            final(cmds)@ == old(cmds)@ + seq![
                RenderCommand::UploadBuffer { buffer: self.vertex_shader_uniforms.spec_buffer() },
                RenderCommand::UploadBuffer { buffer: self.pixel_shader_uniforms.spec_buffer() },
            ],
    {
        self.vertex_shader_uniforms.update(cmds);
        self.pixel_shader_uniforms.update(cmds);
        proof {
            assert(cmds@ =~= old(cmds)@ + seq![
                RenderCommand::UploadBuffer { buffer: self.vertex_shader_uniforms.spec_buffer() },
                RenderCommand::UploadBuffer { buffer: self.pixel_shader_uniforms.spec_buffer() },
            ]);
        }
    }

    /// Stages the view matrix.
    pub fn set_view(&mut self, view: Mat4)
        ensures
            final(self).vertex_shader_uniforms.data == (ConstantsVtx {
                view,
                ..old(self).vertex_shader_uniforms.data
            }),
            final(self).vertex_shader_uniforms.spec_buffer() == old(
                self,
            ).vertex_shader_uniforms.spec_buffer(),
            final(self).spec_program() == old(self).spec_program(),
            final(self).spec_positions() == old(self).spec_positions(),
            final(self).spec_albedo() == old(self).spec_albedo(),
            final(self).pixel_shader_uniforms == old(self).pixel_shader_uniforms,
    {
        self.vertex_shader_uniforms.data.view = view;
    }

    /// Stages the projection matrix.
    pub fn set_proj(&mut self, proj: Mat4)
        ensures
            final(self).vertex_shader_uniforms.data == (ConstantsVtx {
                proj,
                ..old(self).vertex_shader_uniforms.data
            }),
            final(self).vertex_shader_uniforms.spec_buffer() == old(
                self,
            ).vertex_shader_uniforms.spec_buffer(),
            final(self).spec_program() == old(self).spec_program(),
            final(self).spec_positions() == old(self).spec_positions(),
            final(self).spec_albedo() == old(self).spec_albedo(),
            final(self).pixel_shader_uniforms == old(self).pixel_shader_uniforms,
    {
        self.vertex_shader_uniforms.data.proj = proj;
    }

    /// Stages the camera near and far planes.
    pub fn set_camera_planes(&mut self, near: i64, far: i64)
        ensures
            final(self).pixel_shader_uniforms.data == (ConstantsPlanes {
                near_plane: near,
                far_plane: far,
            }),
            final(self).pixel_shader_uniforms.spec_buffer() == old(
                self,
            ).pixel_shader_uniforms.spec_buffer(),
            final(self).spec_program() == old(self).spec_program(),
            final(self).spec_positions() == old(self).spec_positions(),
            final(self).spec_albedo() == old(self).spec_albedo(),
            final(self).vertex_shader_uniforms == old(self).vertex_shader_uniforms,
    {
        self.pixel_shader_uniforms.data.near_plane = near;
        self.pixel_shader_uniforms.data.far_plane = far;
    }
}

/// The deferred lighting pass: reads the G-buffer and the current light's
/// shadow map, accumulates into its light-accumulation target.
pub struct DeferredPassLight {
    pub program: u64,
    pub pixel_shader_uniforms: CBuffer<ConstantsLight>,
    pub light_buffer: CBuffer<DxLight>,
    pub render_target: u64,
}

/// Commands activating the deferred lighting pass.
pub open spec fn deferred_light_prepare_cmds(p: &DeferredPassLight) -> Seq<RenderCommand> {
    seq![
        RenderCommand::BindProgram { program: p.spec_program() },
        RenderCommand::BindUniform { slot: 2, buffer: p.pixel_shader_uniforms.spec_buffer() },
        RenderCommand::BindUniform { slot: 3, buffer: p.light_buffer.spec_buffer() },
    ]
}

impl DeferredPassLight {
    pub closed spec fn spec_program(&self) -> u64 {
        self.program
    }

    pub closed spec fn spec_render_target(&self) -> u64 {
        self.render_target
    }

    /// Creates the pass: program, uniforms, and the light-accumulation
    /// target at the output resolution.
    pub fn create(resolution: (u32, u32), backend: &mut D3D11Backend) -> (r: Result<
        DeferredPassLight,
        DxError,
    >)
        requires
            old(backend).ids_ok(),
        ensures
            final(backend).ids_ok(),
            r is Ok <==> old(backend).spec_next_id() <= u64::MAX - 4,
            r is Err ==> *final(backend) == *old(backend),
            r is Ok ==> {
                &&& final(backend).live_resource(r.unwrap().spec_program())
                &&& final(backend).live_resource(r.unwrap().spec_render_target())
                &&& final(backend).spec_next_id() == old(backend).spec_next_id() + 4
                &&& final(backend).spec_resources().contains(
                    GpuResource {
                        id: r.unwrap().spec_program(),
                        kind: ResourceKind::ShaderProgram,
                        generation: old(backend).spec_generation(),
                    },
                )
                &&& final(backend).spec_resources().contains(
                    GpuResource {
                        id: r.unwrap().spec_render_target(),
                        kind: ResourceKind::RenderTarget { width: resolution.0, height: resolution.1 },
                        generation: old(backend).spec_generation(),
                    },
                )
                &&& forall|g: GpuResource|
                    #[trigger] old(backend).spec_resources().contains(g)
                        ==> final(backend).spec_resources().contains(g)
                &&& unchanged_but_registry(old(backend), final(backend))
            },
    {
        if backend.peek_next_id() > u64::MAX - 4 {
            return Err(
                DxError::new(
                    "Shader program creation failed",
                    crate::error::DxErrorType::ResourceCreation,
                ),
            );
        }
        let program = match backend.create_program() {
            Ok(id) => id,
            Err(e) => { return Err(e); },
        };
        let pxl = match CBuffer::create(
            ConstantsLight { camera_pos: Vec3i::zero(), ssao: 1 },
            backend,
        ) {
            Ok(b) => b,
            Err(e) => { return Err(e); },
        };
        let light = match CBuffer::create(
            DxLight {
                position: Vec3i::zero(),
                t: 0,
                color: Vec3i::zero(),
                radius: 0,
                light_space: Mat4::identity(),
            },
            backend,
        ) {
            Ok(b) => b,
            Err(e) => { return Err(e); },
        };
        let target = match backend.create_render_target(resolution.0, resolution.1) {
            Ok(id) => id,
            Err(e) => { return Err(e); },
        };
        proof {
            let res = backend.spec_resources();
            let n = res.len() as int;
            assert(res[n - 4].generation == backend.spec_generation());
            assert(res[n - 3].generation == backend.spec_generation());
            assert(res[n - 2].generation == backend.spec_generation());
            assert(res[n - 1].generation == backend.spec_generation());
        }
        Ok(
            DeferredPassLight {
                program,
                pixel_shader_uniforms: pxl,
                light_buffer: light,
                render_target: target,
            },
        )
    }

    pub fn get_render_target_view(&self) -> (r: u64)
        ensures
            r == self.spec_render_target(),
    {
        self.render_target
    }

    /// Activates the program and binds the pass's uniform buffers.
    pub fn prepare_draw(&self, cmds: &mut Vec<RenderCommand>)
        ensures
            final(cmds)@ == old(cmds)@ + deferred_light_prepare_cmds(self),
    {
        cmds.push(RenderCommand::BindProgram { program: self.program });
        cmds.push(
            RenderCommand::BindUniform { slot: 2, buffer: self.pixel_shader_uniforms.buffer_ptr() },
        );
        cmds.push(RenderCommand::BindUniform { slot: 3, buffer: self.light_buffer.buffer_ptr() });
        proof {
            assert(cmds@ =~= old(cmds)@ + deferred_light_prepare_cmds(self));
        }
    }

    /// Uploads every staged uniform block.
    pub fn update(&self, cmds: &mut Vec<RenderCommand>)
        ensures
            final(cmds)@ == old(cmds)@ + seq![
                RenderCommand::UploadBuffer { buffer: self.pixel_shader_uniforms.spec_buffer() },
                RenderCommand::UploadBuffer { buffer: self.light_buffer.spec_buffer() },
            ],
    {
        self.pixel_shader_uniforms.update(cmds);
        self.light_buffer.update(cmds);
        proof {
            assert(cmds@ =~= old(cmds)@ + seq![
                RenderCommand::UploadBuffer { buffer: self.pixel_shader_uniforms.spec_buffer() },
                RenderCommand::UploadBuffer { buffer: self.light_buffer.spec_buffer() },
            ]);
        }
    }

    /// Stages the current light.
    pub fn set_light(&mut self, light: &Light)
        ensures
            final(self).light_buffer.data == dx_light_of(*light),
            final(self).light_buffer.spec_buffer() == old(self).light_buffer.spec_buffer(),
            final(self).spec_program() == old(self).spec_program(),
            final(self).spec_render_target() == old(self).spec_render_target(),
            final(self).pixel_shader_uniforms == old(self).pixel_shader_uniforms,
    {
        self.light_buffer.data = DxLight::from_sparkle_light(light);
    }

    /// Stages the camera position.
    pub fn set_camera_pos(&mut self, cpos: Vec3i)
        ensures
            final(self).pixel_shader_uniforms.data == (ConstantsLight {
                camera_pos: cpos,
                ..old(self).pixel_shader_uniforms.data
            }),
            final(self).pixel_shader_uniforms.spec_buffer() == old(
                self,
            ).pixel_shader_uniforms.spec_buffer(),
            final(self).spec_program() == old(self).spec_program(),
            final(self).spec_render_target() == old(self).spec_render_target(),
            final(self).light_buffer == old(self).light_buffer,
    {
        self.pixel_shader_uniforms.data.camera_pos = cpos;
    }

    /// Stages the ambient-occlusion toggle.
    pub fn set_ssao(&mut self, ssao: u32)
        ensures
            final(self).pixel_shader_uniforms.data == (ConstantsLight {
                ssao,
                ..old(self).pixel_shader_uniforms.data
            }),
            final(self).pixel_shader_uniforms.spec_buffer() == old(
                self,
            ).pixel_shader_uniforms.spec_buffer(),
            final(self).spec_program() == old(self).spec_program(),
            final(self).spec_render_target() == old(self).spec_render_target(),
            final(self).light_buffer == old(self).light_buffer,
    {
        self.pixel_shader_uniforms.data.ssao = ssao;
    }
}

/// The shadow pass: renders scene depth from the light's point of view
/// into a dedicated depth-only target.
pub struct ShadowPass {
    pub program: u64,
    pub vertex_shader_uniforms: CBuffer<ShadowConstants>,
    pub shadow_map: u64,
}

/// The light-space matrix the shadow vertex stage consumes.
#[derive(Clone, Copy, Debug, PartialEq, Eq, Structural)]
pub struct ShadowConstants {
    pub light_space_matrix: Mat4,
}

/// Commands activating the shadow pass.
pub open spec fn shadow_prepare_cmds(p: &ShadowPass) -> Seq<RenderCommand> {
    seq![
        RenderCommand::BindProgram { program: p.spec_program() },
        RenderCommand::BindUniform { slot: 0, buffer: p.vertex_shader_uniforms.spec_buffer() },
    ]
}

impl ShadowPass {
    pub closed spec fn spec_program(&self) -> u64 {
        self.program
    }

    pub closed spec fn spec_shadow_map(&self) -> u64 {
        self.shadow_map
    }

    /// Creates the pass: program, light-space uniform, and the square
    /// depth-only shadow map.
    pub fn create_simple(backend: &mut D3D11Backend) -> (r: Result<ShadowPass, DxError>)
        requires
            old(backend).ids_ok(),
        ensures
            final(backend).ids_ok(),
            r is Ok <==> old(backend).spec_next_id() <= u64::MAX - 3,
            r is Err ==> *final(backend) == *old(backend),
            r is Ok ==> {
                &&& final(backend).live_resource(r.unwrap().spec_program())
                &&& final(backend).live_resource(r.unwrap().spec_shadow_map())
                &&& final(backend).spec_next_id() == old(backend).spec_next_id() + 3
                &&& final(backend).spec_resources().contains(
                    GpuResource {
                        id: r.unwrap().spec_program(),
                        kind: ResourceKind::ShaderProgram,
                        generation: old(backend).spec_generation(),
                    },
                )
                &&& final(backend).spec_resources().contains(
                    GpuResource {
                        id: r.unwrap().spec_shadow_map(),
                        kind: ResourceKind::DepthTarget { width: SHADOW_MAP_SIZE, height: SHADOW_MAP_SIZE },
                        generation: old(backend).spec_generation(),
                    },
                )
                &&& forall|g: GpuResource|
                    #[trigger] old(backend).spec_resources().contains(g)
                        ==> final(backend).spec_resources().contains(g)
                &&& r.unwrap().vertex_shader_uniforms.data == (ShadowConstants {
                    light_space_matrix: crate::math::mat4_identity_val(),
                })
                &&& unchanged_but_registry(old(backend), final(backend))
            },
    {
        if backend.peek_next_id() > u64::MAX - 3 {
            return Err(
                DxError::new(
                    "Shader program creation failed",
                    crate::error::DxErrorType::ResourceCreation,
                ),
            );
        }
        let program = match backend.create_program() {
            Ok(id) => id,
            Err(e) => { return Err(e); },
        };
        let vtx = match CBuffer::create(
            ShadowConstants { light_space_matrix: Mat4::identity() },
            backend,
        ) {
            Ok(b) => b,
            Err(e) => { return Err(e); },
        };
        let map = match backend.create_depth_target(SHADOW_MAP_SIZE, SHADOW_MAP_SIZE) {
            Ok(id) => id,
            Err(e) => { return Err(e); },
        };
        proof {
            let res = backend.spec_resources();
            let n = res.len() as int;
            assert(res[n - 3].generation == backend.spec_generation());
            assert(res[n - 2].generation == backend.spec_generation());
            assert(res[n - 1].generation == backend.spec_generation());
        }
        Ok(ShadowPass { program, vertex_shader_uniforms: vtx, shadow_map: map })
    }

    pub fn get_shadow_map(&self) -> (r: u64)
        ensures
            r == self.spec_shadow_map(),
    {
        self.shadow_map
    }

    /// The shadow map's viewport: the full square map.
    pub fn get_shadow_map_viewport(&self) -> (r: (u32, u32))
        ensures
            r == (SHADOW_MAP_SIZE, SHADOW_MAP_SIZE),
    {
        (SHADOW_MAP_SIZE, SHADOW_MAP_SIZE)
    }

    /// Activates the program and binds the light-space uniform.
    pub fn prepare_draw(&self, cmds: &mut Vec<RenderCommand>)
        ensures
            final(cmds)@ == old(cmds)@ + shadow_prepare_cmds(self),
    {
        cmds.push(RenderCommand::BindProgram { program: self.program });
        cmds.push(
            RenderCommand::BindUniform { slot: 0, buffer: self.vertex_shader_uniforms.buffer_ptr() },
        );
        proof {
            assert(cmds@ =~= old(cmds)@ + shadow_prepare_cmds(self));
        }
    }

    /// Uploads the staged light-space matrix.
    pub fn update(&self, cmds: &mut Vec<RenderCommand>)
        ensures
            final(cmds)@ == old(cmds)@ + seq![
                RenderCommand::UploadBuffer { buffer: self.vertex_shader_uniforms.spec_buffer() },
            ],
    {
        self.vertex_shader_uniforms.update(cmds);
    }

    /// Stages the light-space matrix.
    pub fn set_light_space(&mut self, light_space_matrix: Mat4)
        ensures
            final(self).vertex_shader_uniforms.data == (ShadowConstants { light_space_matrix }),
            final(self).vertex_shader_uniforms.spec_buffer() == old(
                self,
            ).vertex_shader_uniforms.spec_buffer(),
            final(self).spec_program() == old(self).spec_program(),
            final(self).spec_shadow_map() == old(self).spec_shadow_map(),
    {
        self.vertex_shader_uniforms.data.light_space_matrix = light_space_matrix;
    }
}

/// The sky pass: draws the sky last among 3D content, using only the
/// rotational part of the view so the sky appears infinitely distant.
pub struct SkyBoxPass {
    pub program: u64,
    pub vertex_shader_uniforms: CBuffer<ConstantsVtx>,
}

/// Commands activating the sky pass.
pub open spec fn skybox_prepare_cmds(p: &SkyBoxPass) -> Seq<RenderCommand> {
    seq![
        RenderCommand::BindProgram { program: p.spec_program() },
        RenderCommand::BindUniform { slot: 0, buffer: p.vertex_shader_uniforms.spec_buffer() },
    ]
}

impl SkyBoxPass {
    pub closed spec fn spec_program(&self) -> u64 {
        self.program
    }

    /// Creates the pass: program and view/projection uniform.
    pub fn create(backend: &mut D3D11Backend) -> (r: Result<SkyBoxPass, DxError>)
        requires
            old(backend).ids_ok(),
        ensures
            final(backend).ids_ok(),
            r is Ok <==> old(backend).spec_next_id() <= u64::MAX - 2,
            r is Err ==> *final(backend) == *old(backend),
            r is Ok ==> {
                &&& final(backend).live_resource(r.unwrap().spec_program())
                &&& final(backend).spec_next_id() == old(backend).spec_next_id() + 2
                &&& final(backend).spec_resources().contains(
                    GpuResource {
                        id: r.unwrap().spec_program(),
                        kind: ResourceKind::ShaderProgram,
                        generation: old(backend).spec_generation(),
                    },
                )
                &&& forall|g: GpuResource|
                    #[trigger] old(backend).spec_resources().contains(g)
                        ==> final(backend).spec_resources().contains(g)
                &&& r.unwrap().vertex_shader_uniforms.data == (ConstantsVtx {
                    view: crate::math::mat4_identity_val(),
                    proj: crate::math::mat4_identity_val(),
                })
                &&& unchanged_but_registry(old(backend), final(backend))
            },
    {
        if backend.peek_next_id() > u64::MAX - 2 {
            return Err(
                DxError::new(
                    "Shader program creation failed",
                    crate::error::DxErrorType::ResourceCreation,
                ),
            );
        }
        let program = match backend.create_program() {
            Ok(id) => id,
            Err(e) => { return Err(e); },
        };
        let vtx = match CBuffer::create(
            ConstantsVtx { view: Mat4::identity(), proj: Mat4::identity() },
            backend,
        ) {
            Ok(b) => b,
            Err(e) => { return Err(e); },
        };
        proof {
            let res = backend.spec_resources();
            let n = res.len() as int;
            assert(res[n - 2].generation == backend.spec_generation());
            assert(res[n - 1].generation == backend.spec_generation());
        }
        Ok(SkyBoxPass { program, vertex_shader_uniforms: vtx })
    }

    /// Activates the program and binds the view/projection uniform.
    pub fn prepare_draw(&self, cmds: &mut Vec<RenderCommand>)
        ensures
            final(cmds)@ == old(cmds)@ + skybox_prepare_cmds(self),
    {
        cmds.push(RenderCommand::BindProgram { program: self.program });
        cmds.push(
            RenderCommand::BindUniform { slot: 0, buffer: self.vertex_shader_uniforms.buffer_ptr() },
        );
        proof {
            assert(cmds@ =~= old(cmds)@ + skybox_prepare_cmds(self));
        }
    }

    /// Uploads the staged matrices.
    pub fn update(&self, cmds: &mut Vec<RenderCommand>)
        ensures
            final(cmds)@ == old(cmds)@ + seq![
                RenderCommand::UploadBuffer { buffer: self.vertex_shader_uniforms.spec_buffer() },
            ],
    {
        self.vertex_shader_uniforms.update(cmds);
    }

    /// Stages the view matrix (callers pass its rotation-only part).
    pub fn set_view(&mut self, view: Mat4)
        ensures
            final(self).vertex_shader_uniforms.data == (ConstantsVtx {
                view,
                ..old(self).vertex_shader_uniforms.data
            }),
            final(self).vertex_shader_uniforms.spec_buffer() == old(
                self,
            ).vertex_shader_uniforms.spec_buffer(),
            final(self).spec_program() == old(self).spec_program(),
    {
        self.vertex_shader_uniforms.data.view = view;
    }

    /// Stages the projection matrix.
    pub fn set_proj(&mut self, proj: Mat4)
        ensures
            final(self).vertex_shader_uniforms.data == (ConstantsVtx {
                proj,
                ..old(self).vertex_shader_uniforms.data
            }),
            final(self).vertex_shader_uniforms.spec_buffer() == old(
                self,
            ).vertex_shader_uniforms.spec_buffer(),
            final(self).spec_program() == old(self).spec_program(),
    {
        self.vertex_shader_uniforms.data.proj = proj;
    }
}

/// The composition pass: blends the deferred-light and forward
/// accumulation targets into the backbuffer.
pub struct OutputPass {
    pub program: u64,
}

impl OutputPass {
    pub closed spec fn spec_program(&self) -> u64 {
        self.program
    }

    /// Creates the pass: the blending program alone.
    pub fn create(backend: &mut D3D11Backend) -> (r: Result<OutputPass, DxError>)
        requires
            old(backend).ids_ok(),
        ensures
            final(backend).ids_ok(),
            r is Ok <==> old(backend).spec_next_id() < u64::MAX,
            r is Err ==> *final(backend) == *old(backend),
            r is Ok ==> {
                &&& final(backend).live_resource(r.unwrap().spec_program())
                &&& final(backend).spec_next_id() == old(backend).spec_next_id() + 1
                &&& final(backend).spec_resources().contains(
                    GpuResource {
                        id: r.unwrap().spec_program(),
                        kind: ResourceKind::ShaderProgram,
                        generation: old(backend).spec_generation(),
                    },
                )
                &&& forall|g: GpuResource|
                    #[trigger] old(backend).spec_resources().contains(g)
                        ==> final(backend).spec_resources().contains(g)
                &&& unchanged_but_registry(old(backend), final(backend))
            },
    {
        let program = match backend.create_program() {
            Ok(id) => id,
            Err(e) => { return Err(e); },
        };
        proof {
            let res = backend.spec_resources();
            let n = res.len() as int;
            assert(res[n - 1].generation == backend.spec_generation());
        }
        Ok(OutputPass { program })
    }

    /// Activates the composition program.
    pub fn prepare_draw(&self, cmds: &mut Vec<RenderCommand>)
        ensures
            final(cmds)@ == old(cmds)@ + seq![
                RenderCommand::BindProgram { program: self.spec_program() },
            ],
    {
        cmds.push(RenderCommand::BindProgram { program: self.program });
    }
}

/// The ambient-occlusion pass: consumes scene depth and the projection,
/// writes an occlusion factor target.
pub struct SSAO {
    pub program: u64,
    pub cbuffer: CBuffer<SsaoConstants>,
    pub noise: u64,
    pub render_target: u64,
}

/// The projection and output resolution the occlusion shader consumes.
#[derive(Clone, Copy, Debug, PartialEq, Eq, Structural)]
pub struct SsaoConstants {
    pub proj: Mat4,
    pub res_x: u32,
    pub res_y: u32,
}

impl SSAO {
    pub closed spec fn spec_program(&self) -> u64 {
        self.program
    }

    pub closed spec fn spec_noise(&self) -> u64 {
        self.noise
    }

    pub closed spec fn spec_render_target(&self) -> u64 {
        self.render_target
    }

    /// Creates the pass: program, uniforms, the sampling-noise texture and
    /// the occlusion target at the output resolution.
    pub fn new(resolution: (u32, u32), backend: &mut D3D11Backend) -> (r: Result<SSAO, DxError>)
        requires
            old(backend).ids_ok(),
        ensures
            final(backend).ids_ok(),
            r is Ok <==> old(backend).spec_next_id() <= u64::MAX - 4,
            r is Err ==> *final(backend) == *old(backend),
            r is Ok ==> {
                &&& final(backend).live_resource(r.unwrap().spec_program())
                &&& final(backend).live_resource(r.unwrap().spec_render_target())
                &&& final(backend).live_resource(r.unwrap().spec_noise())
                &&& final(backend).spec_next_id() == old(backend).spec_next_id() + 4
                &&& final(backend).spec_resources().contains(
                    GpuResource {
                        id: r.unwrap().spec_program(),
                        kind: ResourceKind::ShaderProgram,
                        generation: old(backend).spec_generation(),
                    },
                )
                &&& final(backend).spec_resources().contains(
                    GpuResource {
                        id: r.unwrap().spec_render_target(),
                        kind: ResourceKind::RenderTarget { width: resolution.0, height: resolution.1 },
                        generation: old(backend).spec_generation(),
                    },
                )
                &&& final(backend).spec_resources().contains(
                    GpuResource {
                        id: r.unwrap().spec_noise(),
                        kind: ResourceKind::Texture { width: 8, height: 8 },
                        generation: old(backend).spec_generation(),
                    },
                )
                &&& forall|g: GpuResource|
                    #[trigger] old(backend).spec_resources().contains(g)
                        ==> final(backend).spec_resources().contains(g)
                &&& unchanged_but_registry(old(backend), final(backend))
            },
    {
        if backend.peek_next_id() > u64::MAX - 4 {
            return Err(
                DxError::new(
                    "Shader program creation failed",
                    crate::error::DxErrorType::ResourceCreation,
                ),
            );
        }
        let program = match backend.create_program() {
            Ok(id) => id,
            Err(e) => { return Err(e); },
        };
        let cbuf = match CBuffer::create(
            SsaoConstants { proj: Mat4::identity(), res_x: resolution.0, res_y: resolution.1 },
            backend,
        ) {
            Ok(b) => b,
            Err(e) => { return Err(e); },
        };
        let noise = match backend.create_texture(8, 8) {
            Ok(id) => id,
            Err(e) => { return Err(e); },
        };
        let target = match backend.create_render_target(resolution.0, resolution.1) {
            Ok(id) => id,
            Err(e) => { return Err(e); },
        };
        proof {
            let res = backend.spec_resources();
            let n = res.len() as int;
            assert(res[n - 4].generation == backend.spec_generation());
            assert(res[n - 3].generation == backend.spec_generation());
            assert(res[n - 2].generation == backend.spec_generation());
            assert(res[n - 1].generation == backend.spec_generation());
        }
        Ok(SSAO { program, cbuffer: cbuf, noise, render_target: target })
    }

    pub fn get_render_target_view(&self) -> (r: u64)
        ensures
            r == self.spec_render_target(),
    {
        self.render_target
    }

    pub fn get_render_target(&self) -> (r: u64)
        ensures
            r == self.spec_render_target(),
    {
        self.render_target
    }

    /// Stages the projection matrix.
    pub fn set_proj(&mut self, proj: Mat4)
        ensures
            final(self).cbuffer.data == (SsaoConstants { proj, ..old(self).cbuffer.data }),
            final(self).cbuffer.spec_buffer() == old(self).cbuffer.spec_buffer(),
            final(self).spec_program() == old(self).spec_program(),
            final(self).spec_noise() == old(self).spec_noise(),
            final(self).spec_render_target() == old(self).spec_render_target(),
    {
        self.cbuffer.data.proj = proj;
    }

    /// Uploads the staged uniforms.
    pub fn update(&self, cmds: &mut Vec<RenderCommand>)
        ensures
            final(cmds)@ == old(cmds)@ + seq![
                RenderCommand::UploadBuffer { buffer: self.cbuffer.spec_buffer() },
            ],
    {
        self.cbuffer.update(cmds);
    }

    /// Activates the occlusion program, binds its inputs, and draws the
    /// full-screen quad.
    pub fn render(&self, quad: &crate::drawable::ScreenQuad, cmds: &mut Vec<RenderCommand>)
        ensures
            final(cmds)@ == old(cmds)@ + ssao_render_cmds(self, quad),
    {
        cmds.push(RenderCommand::BindProgram { program: self.program });
        cmds.push(RenderCommand::BindUniform { slot: 2, buffer: self.cbuffer.buffer_ptr() });
        cmds.push(RenderCommand::BindTexture { slot: 6, texture: self.noise });
        quad.draw(cmds);
        proof {
            assert(cmds@ =~= old(cmds)@ + ssao_render_cmds(self, quad));
        }
    }
}

/// The occlusion pass's command stream.
pub open spec fn ssao_render_cmds(p: &SSAO, quad: &crate::drawable::ScreenQuad) -> Seq<
    RenderCommand,
> {
    seq![
        RenderCommand::BindProgram { program: p.spec_program() },
        RenderCommand::BindUniform { slot: 2, buffer: p.cbuffer.spec_buffer() },
        RenderCommand::BindTexture { slot: 6, texture: p.spec_noise() },
        RenderCommand::DrawIndexed {
            vertex_buffer: quad.spec_vertex_buffer(),
            index_buffer: quad.spec_index_buffer(),
            index_count: quad.spec_index_count(),
        },
    ]
}

} // verus!

