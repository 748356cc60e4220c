//! The frame orchestrator: owns the backend, the scene and every pass, and
//! executes the fixed per-frame pass sequence — G-buffer, optional ambient
//! occlusion, then per light shadow + deferred lighting + forward
//! transparency, then sky, composition and present.

use vstd::prelude::*;

use crate::backend::{
    lemma_contains_to_live, lemma_live_to_contains, Adapter, BackendStatus, D3D11Backend,
    GpuResource, ResourceKind,
};
use crate::commands::{BlendMode, CullMode, PresentOutcome, RenderCommand};
use crate::draw_programs::{
    ConstantsLight, ConstantsPlanes, ConstantsVtx, DeferredPassLight, DeferredPassPre,
    ForwardPass, OutputPass, ShadowPass, SkyBoxPass, SHADOW_MAP_SIZE, SSAO,
};
use crate::drawable::{DxDrawable, ObjType, ScreenQuad};
use crate::error::DxError;
use crate::geometry::{Light, LightType};
use crate::math::{entry_ok, gmat_mul, gmat_ok, GMat4, Mat4, Vec3i, ENTRY_LIMIT};
use crate::scenegraph::draw::{emit_cmds, submission_list_ok, DrawSubmission};
use crate::scenegraph::node::Node;
use crate::scenegraph::{SceneRecord, Scenegraph};
use crate::settings::Settings;

verus! {

/// The camera state the pipeline consumes: plain values handed in by the
/// input collaborator.
#[derive(Clone, Copy, Debug, PartialEq, Eq, Structural)]
pub struct CameraState {
    pub view: Mat4,
    pub proj: Mat4,
    pub position: Vec3i,
    pub near: i64,
    pub far: i64,
}

impl CameraState {
    pub open spec fn wf(&self) -> bool {
        self.view.wf() && self.proj.wf()
    }
}

/// A coordinate clamped into the representable matrix entry range.
pub open spec fn spec_clamped(v: i64) -> i64 {
    if v > ENTRY_LIMIT {
        ENTRY_LIMIT
    } else if v < (-ENTRY_LIMIT) as i64 {
        (-ENTRY_LIMIT) as i64
    } else {
        v
    }
}

/// Clamps a coordinate into the representable matrix entry range.
pub fn clamped(v: i64) -> (r: i64)
    ensures
        r == spec_clamped(v),
        entry_ok(r as int),
{
    if v > ENTRY_LIMIT {
        ENTRY_LIMIT
    } else if v < -ENTRY_LIMIT {
        -ENTRY_LIMIT
    } else {
        v
    }
}

/// The light-space matrix used for one shadow pass: the light's shadow
/// projection re-centered on the viewer. Where the product leaves the
/// representable range the projection is used alone.
pub open spec fn light_space_spec(light: Light, cam: Vec3i) -> GMat4 {
    let recenter = GMat4 {
        m03: -spec_clamped(cam.x) as int,
        m13: -spec_clamped(cam.y) as int,
        m23: -spec_clamped(cam.z) as int,
        ..crate::math::gmat_identity()
    };
    if gmat_ok(gmat_mul(light.light_proj@, recenter)) {
        gmat_mul(light.light_proj@, recenter)
    } else {
        light.light_proj@
    }
}

/// Computes the shadow light-space matrix for one light.
pub fn light_space_for(light: &Light, cam: Vec3i) -> (r: Mat4)
    requires
        light.light_proj.wf(),
    ensures
        r@ == light_space_spec(*light, cam),
        r.wf(),
{
    let cx = clamped(cam.x);
    let cy = clamped(cam.y);
    let cz = clamped(cam.z);
    let recenter = Mat4::translation(-cx, -cy, -cz);
    match light.light_proj.multiply(&recenter) {
        Some(m) => m,
        None => light.light_proj,
    }
}

/// The renderer: the backend, the scene, and one instance of every pass.
pub struct Renderer {
    pub settings: Settings,
    pub scene: Scenegraph,
    pub skybox: Option<DxDrawable>,
    pub shadow_dist: i64,
    pub screen_quad: ScreenQuad,
    pub forward_program: ForwardPass,
    pub deferred_program_pre: DeferredPassPre,
    pub deferred_program_light: DeferredPassLight,
    pub shadow_program: ShadowPass,
    pub skybox_program: SkyBoxPass,
    pub ssao_program: SSAO,
    pub output_program: OutputPass,
    pub camera: CameraState,
    pub backend: D3D11Backend,
}

/// Clearing the frame: backbuffer, G-buffer, depth, occlusion and the two
/// accumulation targets.
pub open spec fn clear_cmds(r: &Renderer) -> Seq<RenderCommand> {
    seq![
        RenderCommand::ClearColor { target: r.backend.spec_render_target() },
        RenderCommand::ClearColor { target: r.deferred_program_pre.spec_positions() },
        RenderCommand::ClearColor { target: r.deferred_program_pre.spec_albedo() },
        RenderCommand::ClearDepth { target: r.backend.spec_depth_stencil() },
        RenderCommand::ClearColor { target: r.ssao_program.spec_render_target() },
        RenderCommand::ClearColor { target: r.deferred_program_light.spec_render_target() },
        RenderCommand::ClearColor { target: r.forward_program.spec_render_target() },
    ]
}

/// The deferred geometry phase: bind and clear state, then draw every
/// opaque submission into the G-buffer.
pub open spec fn gbuffer_cmds(r: &Renderer, o_subs: Seq<DrawSubmission>) -> Seq<RenderCommand> {
    seq![
        RenderCommand::SetBlend { blend: BlendMode::Disabled },
        RenderCommand::SetViewport {
            width: r.backend.spec_width(),
            height: r.backend.spec_height(),
        },
    ] + crate::draw_programs::deferred_pre_prepare_cmds(&r.deferred_program_pre) + seq![
        RenderCommand::UnbindTexture { slot: 0 },
        RenderCommand::UnbindTexture { slot: 1 },
        RenderCommand::SetRenderTargets {
            color0: Some(r.deferred_program_pre.spec_positions()),
            color1: Some(r.deferred_program_pre.spec_albedo()),
            depth: Some(r.backend.spec_depth_stencil()),
        },
    ] + emit_cmds(&r.scene, o_subs)
}

/// The optional ambient-occlusion phase.
pub open spec fn ssao_cmds(r: &Renderer) -> Seq<RenderCommand> {
    if r.settings.ssao {
        seq![
            RenderCommand::UnbindTexture { slot: 4 },
            RenderCommand::SetRenderTargets {
                color0: Some(r.ssao_program.spec_render_target()),
                color1: None,
                depth: None,
            },
        ] + crate::draw_programs::ssao_render_cmds(&r.ssao_program, &r.screen_quad)
    } else {
        Seq::empty()
    }
}

/// The shadow phase of one non-ambient light: recompute and upload its
/// light-space matrix, then render `Any`-classified geometry depth-only
/// with front-face culling.
pub open spec fn shadow_cmds(r: &Renderer, a_subs: Seq<DrawSubmission>) -> Seq<RenderCommand> {
    seq![
        RenderCommand::ClearDepth { target: r.shadow_program.spec_shadow_map() },
        RenderCommand::UploadBuffer {
            buffer: r.shadow_program.vertex_shader_uniforms.spec_buffer(),
        },
        RenderCommand::SetCull { cull: CullMode::Front },
        RenderCommand::SetViewport { width: SHADOW_MAP_SIZE, height: SHADOW_MAP_SIZE },
        RenderCommand::UnbindTexture { slot: 5 },
        RenderCommand::SetRenderTargets {
            color0: None,
            color1: None,
            depth: Some(r.shadow_program.spec_shadow_map()),
        },
    ] + crate::draw_programs::shadow_prepare_cmds(&r.shadow_program) + emit_cmds(&r.scene, a_subs)
        + seq![RenderCommand::SetCull { cull: CullMode::Back }]
}

/// The deferred lighting phase of one light: additive accumulation fed by
/// the G-buffer, the occlusion texture and the light's shadow map.
pub open spec fn lighting_cmds(r: &Renderer) -> Seq<RenderCommand> {
    seq![
        RenderCommand::SetViewport {
            width: r.backend.spec_width(),
            height: r.backend.spec_height(),
        },
        RenderCommand::SetRenderTargets {
            color0: Some(r.deferred_program_light.spec_render_target()),
            color1: None,
            depth: None,
        },
        RenderCommand::UploadBuffer {
            buffer: r.deferred_program_light.pixel_shader_uniforms.spec_buffer(),
        },
        RenderCommand::UploadBuffer { buffer: r.deferred_program_light.light_buffer.spec_buffer() },
    ] + crate::draw_programs::deferred_light_prepare_cmds(&r.deferred_program_light) + seq![
        RenderCommand::BindTexture { slot: 5, texture: r.shadow_program.spec_shadow_map() },
        RenderCommand::BindTexture { slot: 4, texture: r.ssao_program.spec_render_target() },
        RenderCommand::BindTexture { slot: 0, texture: r.deferred_program_pre.spec_positions() },
        RenderCommand::BindTexture { slot: 1, texture: r.deferred_program_pre.spec_albedo() },
        RenderCommand::DrawIndexed {
            vertex_buffer: r.screen_quad.spec_vertex_buffer(),
            index_buffer: r.screen_quad.spec_index_buffer(),
            index_count: r.screen_quad.spec_index_count(),
        },
    ]
}

/// The forward transparency phase of one light: alpha-blended geometry
/// consuming the same shadow map.
pub open spec fn forward_cmds(r: &Renderer, t_subs: Seq<DrawSubmission>) -> Seq<RenderCommand> {
    seq![
        RenderCommand::SetBlend { blend: BlendMode::Alpha },
        RenderCommand::UploadBuffer {
            buffer: r.forward_program.vertex_shader_uniforms.spec_buffer(),
        },
        RenderCommand::UploadBuffer {
            buffer: r.forward_program.pixel_shader_uniforms.spec_buffer(),
        },
        RenderCommand::UploadBuffer { buffer: r.forward_program.light_buffer.spec_buffer() },
        RenderCommand::SetRenderTargets {
            color0: Some(r.forward_program.spec_render_target()),
            color1: None,
            depth: Some(r.backend.spec_depth_stencil()),
        },
    ] + crate::draw_programs::forward_prepare_cmds(&r.forward_program) + emit_cmds(
        &r.scene,
        t_subs,
    )
}

/// The work of one light: shadows (for shadow-casting classes), additive
/// lighting accumulation, then forward transparency with the same shadow
/// map.
pub open spec fn per_light_cmds(
    r: &Renderer,
    light: Light,
    a_subs: Seq<DrawSubmission>,
    t_subs: Seq<DrawSubmission>,
) -> Seq<RenderCommand> {
    seq![RenderCommand::SetBlend { blend: BlendMode::Additive }] + (if light.t
        != LightType::Ambient {
        shadow_cmds(r, a_subs)
    } else {
        Seq::empty()
    }) + lighting_cmds(r) + forward_cmds(r, t_subs)
}

/// The per-light loop, in light order.
pub open spec fn lights_cmds(
    r: &Renderer,
    lights: Seq<Light>,
    a_subs: Seq<DrawSubmission>,
    t_subs: Seq<DrawSubmission>,
) -> Seq<RenderCommand>
    decreases lights.len(),
{
    if lights.len() == 0 {
        Seq::empty()
    } else {
        lights_cmds(r, lights.drop_last(), a_subs, t_subs) + per_light_cmds(
            r,
            lights.last(),
            a_subs,
            t_subs,
        )
    }
}

/// Composition: blend the two accumulation targets into the backbuffer.
pub open spec fn output_cmds(r: &Renderer) -> Seq<RenderCommand> {
    seq![
        RenderCommand::SetRenderTargets {
            color0: Some(r.backend.spec_render_target()),
            color1: None,
            depth: None,
        },
        RenderCommand::BindProgram { program: r.output_program.spec_program() },
        RenderCommand::BindTexture {
            slot: 0,
            texture: r.deferred_program_light.spec_render_target(),
        },
        RenderCommand::BindTexture { slot: 1, texture: r.forward_program.spec_render_target() },
        RenderCommand::DrawIndexed {
            vertex_buffer: r.screen_quad.spec_vertex_buffer(),
            index_buffer: r.screen_quad.spec_index_buffer(),
            index_count: r.screen_quad.spec_index_count(),
        },
    ]
}

/// The sky phase: drawn last among 3D content, before composition.
pub open spec fn sky_cmds(r: &Renderer) -> Seq<RenderCommand> {
    seq![
        RenderCommand::SetRenderTargets {
            color0: Some(r.backend.spec_render_target()),
            color1: None,
            depth: Some(r.backend.spec_depth_stencil()),
        },
    ] + crate::draw_programs::skybox_prepare_cmds(&r.skybox_program) + (match r.skybox {
        Some(sky) => crate::drawable::draw_cmds(&sky, true),
        None => Seq::empty(),
    })
}

/// One whole frame, in the fixed pass order ending with presentation.
pub open spec fn frame_cmds(
    r: &Renderer,
    o_subs: Seq<DrawSubmission>,
    a_subs: Seq<DrawSubmission>,
    t_subs: Seq<DrawSubmission>,
) -> Seq<RenderCommand> {
    clear_cmds(r) + gbuffer_cmds(r, o_subs) + ssao_cmds(r) + lights_cmds(
        r,
        r.scene.spec_lights(),
        a_subs,
        t_subs,
    ) + sky_cmds(r) + output_cmds(r) + seq![RenderCommand::Present]
}

/// The submissions a draw pass works from: the sorted, filtered list for a
/// populated scene; nothing for an empty one.
pub open spec fn subs_for(sg: &Scenegraph, subs: Seq<DrawSubmission>, filter: ObjType) -> bool {
    if sg.spec_root() is None {
        subs == Seq::<DrawSubmission>::empty()
    } else {
        submission_list_ok(sg, subs, filter)
    }
}

/// The per-light command stream depends only on pass resource ids, the
/// backend, the quad and the scene — not on staged uniform data.
proof fn lemma_per_light_cmds_stable(
    a: &Renderer,
    b: &Renderer,
    light: Light,
    a_subs: Seq<DrawSubmission>,
    t_subs: Seq<DrawSubmission>,
)
    requires
        unchanged_pass_ids(a, b),
        b.backend == a.backend,
        b.scene == a.scene,
        b.screen_quad == a.screen_quad,
    ensures
        per_light_cmds(b, light, a_subs, t_subs) == per_light_cmds(a, light, a_subs, t_subs),
{
    assert(shadow_cmds(b, a_subs) =~= shadow_cmds(a, a_subs));
    assert(lighting_cmds(b) =~= lighting_cmds(a));
    assert(forward_cmds(b, t_subs) =~= forward_cmds(a, t_subs));
    assert(per_light_cmds(b, light, a_subs, t_subs) =~= per_light_cmds(a, light, a_subs, t_subs));
}

/// The sky and composition streams depend only on resource ids, the
/// backend, the quad and the sky drawable.
proof fn lemma_tail_cmds_stable(a: &Renderer, b: &Renderer)
    requires
        unchanged_pass_ids(a, b),
        b.backend == a.backend,
        b.screen_quad == a.screen_quad,
        b.skybox == a.skybox,
    ensures
        sky_cmds(b) == sky_cmds(a),
        output_cmds(b) == output_cmds(a),
{
    assert(sky_cmds(b) =~= sky_cmds(a));
    assert(output_cmds(b) =~= output_cmds(a));
}

/// The head streams depend only on resource ids, the backend, the quad,
/// the scene and the occlusion toggle.
proof fn lemma_head_cmds_stable(a: &Renderer, b: &Renderer, o_subs: Seq<DrawSubmission>)
    requires
        unchanged_pass_ids(a, b),
        b.backend == a.backend,
        b.scene == a.scene,
        b.screen_quad == a.screen_quad,
        b.settings.ssao == a.settings.ssao,
    ensures
        clear_cmds(b) == clear_cmds(a),
        gbuffer_cmds(b, o_subs) == gbuffer_cmds(a, o_subs),
        ssao_cmds(b) == ssao_cmds(a),
{
    assert(clear_cmds(b) =~= clear_cmds(a));
    assert(gbuffer_cmds(b, o_subs) =~= gbuffer_cmds(a, o_subs));
    assert(ssao_cmds(b) =~= ssao_cmds(a));
}

/// Every pipeline resource exists in the backend's registry, with its kind
/// and size, under the current device generation; resolution-dependent
/// targets are sized `width` x `height`.
pub open spec fn pipeline_resources_current(r: &Renderer, width: u32, height: u32) -> bool {
    let gen = r.backend.spec_generation();
    let res = r.backend.spec_resources();
    &&& res.contains(
        GpuResource {
            id: r.forward_program.spec_program(),
            kind: ResourceKind::ShaderProgram,
            generation: gen,
        },
    )
    &&& res.contains(
        GpuResource {
            id: r.forward_program.spec_render_target(),
            kind: ResourceKind::RenderTarget { width, height },
            generation: gen,
        },
    )
    &&& res.contains(
        GpuResource {
            id: r.deferred_program_pre.spec_program(),
            kind: ResourceKind::ShaderProgram,
            generation: gen,
        },
    )
    &&& res.contains(
        GpuResource {
            id: r.deferred_program_pre.spec_positions(),
            kind: ResourceKind::RenderTarget { width, height },
            generation: gen,
        },
    )
    &&& res.contains(
        GpuResource {
            id: r.deferred_program_pre.spec_albedo(),
            kind: ResourceKind::RenderTarget { width, height },
            generation: gen,
        },
    )
    &&& res.contains(
        GpuResource {
            id: r.deferred_program_light.spec_program(),
            kind: ResourceKind::ShaderProgram,
            generation: gen,
        },
    )
    &&& res.contains(
        GpuResource {
            id: r.deferred_program_light.spec_render_target(),
            kind: ResourceKind::RenderTarget { width, height },
            generation: gen,
        },
    )
    &&& res.contains(
        GpuResource {
            id: r.shadow_program.spec_program(),
            kind: ResourceKind::ShaderProgram,
            generation: gen,
        },
    )
    &&& res.contains(
        GpuResource {
            id: r.shadow_program.spec_shadow_map(),
            kind: ResourceKind::DepthTarget {
                width: SHADOW_MAP_SIZE,
                height: SHADOW_MAP_SIZE,
            },
            generation: gen,
        },
    )
    &&& res.contains(
        GpuResource {
            id: r.skybox_program.spec_program(),
            kind: ResourceKind::ShaderProgram,
            generation: gen,
        },
    )
    &&& res.contains(
        GpuResource {
            id: r.ssao_program.spec_program(),
            kind: ResourceKind::ShaderProgram,
            generation: gen,
        },
    )
    &&& res.contains(
        GpuResource {
            id: r.ssao_program.spec_render_target(),
            kind: ResourceKind::RenderTarget { width, height },
            generation: gen,
        },
    )
    &&& res.contains(
        GpuResource {
            id: r.ssao_program.spec_noise(),
            kind: ResourceKind::Texture { width: 8, height: 8 },
            generation: gen,
        },
    )
    &&& res.contains(
        GpuResource {
            id: r.output_program.spec_program(),
            kind: ResourceKind::ShaderProgram,
            generation: gen,
        },
    )
    &&& r.backend.live_resource(r.screen_quad.spec_vertex_buffer())
    &&& r.backend.live_resource(r.screen_quad.spec_index_buffer())
}

/// After a resize, the primary targets and every resolution-dependent pass
/// target exist in the registry at the new dimensions, under the current
/// device generation.
pub open spec fn resized_targets_current(r: &Renderer, width: u32, height: u32) -> bool {
    let gen = r.backend.spec_generation();
    let res = r.backend.spec_resources();
    &&& res.contains(
        GpuResource {
            id: r.backend.spec_render_target(),
            kind: ResourceKind::RenderTarget { width, height },
            generation: gen,
        },
    )
    &&& res.contains(
        GpuResource {
            id: r.backend.spec_depth_stencil(),
            kind: ResourceKind::DepthTarget { width, height },
            generation: gen,
        },
    )
    &&& res.contains(
        GpuResource {
            id: r.deferred_program_pre.spec_positions(),
            kind: ResourceKind::RenderTarget { width, height },
            generation: gen,
        },
    )
    &&& res.contains(
        GpuResource {
            id: r.deferred_program_pre.spec_albedo(),
            kind: ResourceKind::RenderTarget { width, height },
            generation: gen,
        },
    )
    &&& res.contains(
        GpuResource {
            id: r.deferred_program_light.spec_render_target(),
            kind: ResourceKind::RenderTarget { width, height },
            generation: gen,
        },
    )
    &&& res.contains(
        GpuResource {
            id: r.forward_program.spec_render_target(),
            kind: ResourceKind::RenderTarget { width, height },
            generation: gen,
        },
    )
    &&& res.contains(
        GpuResource {
            id: r.ssao_program.spec_render_target(),
            kind: ResourceKind::RenderTarget { width, height },
            generation: gen,
        },
    )
}

impl Renderer {
    /// Renderer well-formedness: live backend, well-formed scene and
    /// camera.
    pub open spec fn wf(&self) -> bool {
        &&& self.backend.wf()
        &&& self.backend.spec_status() == BackendStatus::Initialized
        &&& self.scene.wf()
        &&& self.camera.wf()
        &&& self.shadow_dist > 0
    }

    /// Creates the whole pipeline: device and primary targets, the
    /// full-screen quad, and every pass sized to the configured output
    /// resolution. Fails exactly when no suitable adapter exists or the
    /// surface cannot be bound; resource-creation failures abort startup.
    pub fn create(settings: Settings, adapters: &Vec<Adapter>, surface: u64) -> (r: Result<
        Renderer,
        DxError,
    >)
        ensures
            r is Ok <==> crate::backend::spec_selected_adapter(adapters@) is Some && surface != 0,
            r is Ok ==> r.unwrap().wf() && r.unwrap().scene.spec_root() is None
                && r.unwrap().settings == settings,
            r is Ok ==> r.unwrap().backend.spec_width() == settings.res_width
                && r.unwrap().backend.spec_height() == settings.res_height,
            r is Ok ==> pipeline_resources_current(
                &r.unwrap(),
                settings.res_width,
                settings.res_height,
            ),
            r is Ok ==> r.unwrap().forward_program.vertex_shader_uniforms.data.proj == r.unwrap().camera.proj
                && r.unwrap().deferred_program_pre.vertex_shader_uniforms.data.proj
                == r.unwrap().camera.proj && r.unwrap().skybox_program.vertex_shader_uniforms.data.proj
                == r.unwrap().camera.proj && r.unwrap().ssao_program.cbuffer.data.proj
                == r.unwrap().camera.proj,
    {
        let resolution = (settings.res_width, settings.res_height);
        let mut backend = match D3D11Backend::init(adapters, surface, resolution.0, resolution.1) {
            Ok(b) => b,
            Err(e) => {
                return Err(e);
            },
        };
        let quad = match ScreenQuad::create(&mut backend) {
            Ok(q) => q,
            Err(e) => {
                return Err(e);
            },
        };
        proof {
            lemma_live_to_contains(&backend, quad.spec_vertex_buffer());
            lemma_live_to_contains(&backend, quad.spec_index_buffer());
        }
        let ghost b_quad = backend;
        let forward = match ForwardPass::create(resolution, &mut backend) {
            Ok(p) => p,
            Err(e) => {
                return Err(e);
            },
        };
        let pre = match DeferredPassPre::create(resolution, &mut backend) {
            Ok(p) => p,
            Err(e) => {
                return Err(e);
            },
        };
        let light = match DeferredPassLight::create(resolution, &mut backend) {
            Ok(p) => p,
            Err(e) => {
                return Err(e);
            },
        };
        let shadow = match ShadowPass::create_simple(&mut backend) {
            Ok(p) => p,
            Err(e) => {
                return Err(e);
            },
        };
        let sky = match SkyBoxPass::create(&mut backend) {
            Ok(p) => p,
            Err(e) => {
                return Err(e);
            },
        };
        let ssao = match SSAO::new(resolution, &mut backend) {
            Ok(p) => p,
            Err(e) => {
                return Err(e);
            },
        };
        let output = match OutputPass::create(&mut backend) {
            Ok(p) => p,
            Err(e) => {
                return Err(e);
            },
        };
        let mut renderer = Renderer {
            settings,
            scene: Scenegraph::empty(),
            skybox: None,
            shadow_dist: 50,
            screen_quad: quad,
            forward_program: forward,
            deferred_program_pre: pre,
            deferred_program_light: light,
            shadow_program: shadow,
            skybox_program: sky,
            ssao_program: ssao,
            output_program: output,
            camera: CameraState {
                view: Mat4::identity(),
                proj: Mat4::identity(),
                position: Vec3i::zero(),
                near: 1,
                far: 1000,
            },
            backend,
        };
        proof {
            let gq = choose|g: GpuResource|
                #[trigger] b_quad.spec_resources().contains(g) && g.id
                    == renderer.screen_quad.spec_vertex_buffer() && g.generation
                    == b_quad.spec_generation();
            lemma_contains_to_live(&renderer.backend, gq);
            let gi = choose|g: GpuResource|
                #[trigger] b_quad.spec_resources().contains(g) && g.id
                    == renderer.screen_quad.spec_index_buffer() && g.generation
                    == b_quad.spec_generation();
            lemma_contains_to_live(&renderer.backend, gi);
            assert(pipeline_resources_current(&renderer, settings.res_width, settings.res_height));
        }
        renderer.stage_frame_uniforms();
        Ok(renderer)
    }

    /// Replaces the camera state the next frame renders from.
    pub fn change_camera(&mut self, cam: CameraState)
        requires
            cam.view.wf(),
            cam.proj.wf(),
        ensures
            final(self).camera == cam,
            final(self).backend == old(self).backend,
            final(self).scene == old(self).scene,
            final(self).settings == old(self).settings,
    {
        self.camera = cam;
    }

    /// Loads a scene from imported records: a fresh anonymous root, the
    /// record tree beneath it, the default ambient light and one
    /// directional light, a rebuilt transform pass, and the sky cube.
    pub fn load_scene(
        &mut self,
        records: &Vec<SceneRecord>,
        cmds: &mut Vec<RenderCommand>,
    ) -> (r: Result<(), crate::error::SceneGraphError>)
        requires
            old(self).wf(),
            forall|i: int|
                0 <= i < records@.len() ==> (#[trigger] records@[i]).local.wf() && (match records@[i].parent_rec {
                    Some(p) => p < i,
                    None => true,
                }),
            forall|i: int, m: int|
                0 <= i < records@.len() && 0 <= m < (#[trigger] records@[i]).meshes@.len() ==> (
                #[trigger] records@[i].meshes@[m]).vertices@.len() <= u32::MAX
                    && records@[i].meshes@[m].indices@.len() <= u32::MAX,
        ensures
            final(self).wf(),
            final(self).settings == old(self).settings,
            final(self).camera == old(self).camera,
            r is Ok ==> {
                &&& final(self).scene.spec_root() is Some
                &&& final(self).scene.spec_lights().len() == old(
                    self,
                ).scene.spec_lights().len() + 2
                &&& final(self).scene.spec_lights().last().t == LightType::Directional
                &&& final(self).scene.spec_lights()[final(self).scene.spec_lights().len() - 2].t
                    == LightType::Ambient
                &&& final(self).skybox is Some
                &&& final(self).scene.worlds_built()
                &&& final(self).scene.models_staged()
            },
    {
        let root_idx = self.scene.node_count();
        self.scene.set_root(Node::create(None, Mat4::identity(), None));
        match self.scene.build_subtree(root_idx, records, &mut self.backend) {
            Ok(()) => {},
            Err(e) => {
                return Err(e);
            },
        }
        self.scene.add_light(Light::default());
        let directional = Light {
            position: Vec3i::new(-1, -4, -1),
            t: LightType::Directional,
            color: Vec3i::new(23, 21, 20),
            radius: 1,
            light_proj: Mat4::identity(),
        };
        self.scene.add_light(directional);
        match self.scene.build_matrices(cmds) {
            Ok(()) => {},
            Err(e) => {
                return Err(e);
            },
        }
        let sky = match crate::drawable::create_skybox(&mut self.backend) {
            Ok(d) => d,
            Err(_) => {
                return Err(
                    crate::error::SceneGraphError::new(
                        "sky resource creation failed",
                        &crate::error::ErrorCause::InvalidState,
                    ),
                );
            },
        };
        self.skybox = Some(sky);
        Ok(())
    }

    /// Releases the whole scene; the previous scene (or an empty one)
    /// stays active on failure.
    pub fn unload_scene(&mut self) -> (r: Result<(), ()>)
        requires
            old(self).wf(),
        ensures
            r is Ok,
            final(self).wf(),
            final(self).scene.spec_root() is None,
            final(self).backend == old(self).backend,
    {
        match self.scene.clear() {
            Ok(_) => Ok(()),
            Err(_) => Err(()),
        }
    }

    /// Resizes the presentation surface, the primary targets and every
    /// resolution-dependent pass target. A call with the current
    /// dimensions changes nothing and reports `false`.
    pub fn resize(&mut self, width: u32, height: u32) -> (r: Result<bool, DxError>)
        requires
            old(self).wf(),
        ensures
            width == old(self).backend.spec_width() && height == old(self).backend.spec_height()
                ==> r is Ok && r.unwrap() == false && *final(self) == *old(self),
            r is Ok && r.unwrap() ==> final(self).wf() && final(self).backend.spec_width() == width
                && final(self).backend.spec_height() == height
                && final(self).backend.spec_frames_presented() == old(
                self,
            ).backend.spec_frames_presented(),
            r is Ok && r.unwrap() ==> resized_targets_current(final(self), width, height),
            r is Ok && !r.unwrap() ==> *final(self) == *old(self),
    {
        if width == self.backend.get_width() && height == self.backend.get_height() {
            return Ok(false);
        }
        match self.backend.resize(width, height) {
            Ok(_) => {},
            Err(e) => {
                proof {
                    assert(self.wf());
                }
                return Err(e);
            },
        }
        proof {
            let res = self.backend.spec_resources();
            let n = res.len() as int;
            assert(res.contains(res[n - 2]));
            assert(res.contains(res[n - 1]));
        }
        let ghost b_resized = self.backend;
        let pre = match DeferredPassPre::create((width, height), &mut self.backend) {
            Ok(p) => p,
            Err(e) => {
                return Err(e);
            },
        };
        let light = match DeferredPassLight::create((width, height), &mut self.backend) {
            Ok(p) => p,
            Err(e) => {
                return Err(e);
            },
        };
        let forward = match ForwardPass::create((width, height), &mut self.backend) {
            Ok(p) => p,
            Err(e) => {
                return Err(e);
            },
        };
        let ssao = match SSAO::new((width, height), &mut self.backend) {
            Ok(p) => p,
            Err(e) => {
                return Err(e);
            },
        };
        self.deferred_program_pre = pre;
        self.deferred_program_light = light;
        self.forward_program = forward;
        self.ssao_program = ssao;
        proof {
            let rt_entry = GpuResource {
                id: b_resized.spec_render_target(),
                kind: ResourceKind::RenderTarget { width, height },
                generation: b_resized.spec_generation(),
            };
            let ds_entry = GpuResource {
                id: b_resized.spec_depth_stencil(),
                kind: ResourceKind::DepthTarget { width, height },
                generation: b_resized.spec_generation(),
            };
            assert(b_resized.spec_resources().contains(rt_entry));
            assert(b_resized.spec_resources().contains(ds_entry));
            assert(self.backend.spec_resources().contains(rt_entry));
            assert(self.backend.spec_resources().contains(ds_entry));
            assert(resized_targets_current(self, width, height));
        }
        Ok(true)
    }

    /// Emits the frame head: clears, the G-buffer phase, and the optional
    /// ambient-occlusion phase.
    fn emit_head(&self, o_subs: &Vec<DrawSubmission>, cmds: &mut Vec<RenderCommand>)
        requires
            self.wf(),
            forall|x: int|
                0 <= x < o_subs@.len() ==> crate::scenegraph::draw::sub_valid(
                    &self.scene,
                    #[trigger] o_subs@[x],
                    ObjType::Opaque,
                ),
        ensures
            final(cmds)@ == old(cmds)@ + clear_cmds(self) + gbuffer_cmds(self, o_subs@)
                + ssao_cmds(self),
    {
        let ghost base = cmds@;
        cmds.push(RenderCommand::ClearColor { target: self.backend.get_render_target_view() });
        cmds.push(RenderCommand::ClearColor { target: self.deferred_program_pre.positions() });
        cmds.push(RenderCommand::ClearColor { target: self.deferred_program_pre.albedo() });
        cmds.push(RenderCommand::ClearDepth { target: self.backend.get_depth_stencil_view() });
        cmds.push(
            RenderCommand::ClearColor { target: self.ssao_program.get_render_target_view() },
        );
        cmds.push(
            RenderCommand::ClearColor {
                target: self.deferred_program_light.get_render_target_view(),
            },
        );
        cmds.push(
            RenderCommand::ClearColor { target: self.forward_program.get_render_target_view() },
        );
        proof {
            assert(cmds@ =~= base + clear_cmds(self));
        }
        cmds.push(RenderCommand::SetBlend { blend: BlendMode::Disabled });
        let viewport = self.backend.get_viewport();
        cmds.push(RenderCommand::SetViewport { width: viewport.0, height: viewport.1 });
        self.deferred_program_pre.prepare_draw(cmds);
        cmds.push(RenderCommand::UnbindTexture { slot: 0 });
        cmds.push(RenderCommand::UnbindTexture { slot: 1 });
        let targets = self.deferred_program_pre.get_render_targets();
        cmds.push(
            RenderCommand::SetRenderTargets {
                color0: Some(targets.0),
                color1: Some(targets.1),
                depth: Some(self.backend.get_depth_stencil_view()),
            },
        );
        self.scene.emit_list(o_subs, cmds);
        proof {
            assert(cmds@ =~= base + clear_cmds(self) + gbuffer_cmds(self, o_subs@));
        }
        if self.settings.ssao {
            cmds.push(RenderCommand::UnbindTexture { slot: 4 });
            cmds.push(
                RenderCommand::SetRenderTargets {
                    color0: Some(self.ssao_program.get_render_target_view()),
                    color1: None,
                    depth: None,
                },
            );
            self.ssao_program.render(&self.screen_quad, cmds);
        }
        proof {
            assert(cmds@ =~= base + clear_cmds(self) + gbuffer_cmds(self, o_subs@) + ssao_cmds(
                self,
            ));
        }
    }

    /// Emits the frame tail: the sky (last among 3D content), then the
    /// composition of the two accumulation targets into the backbuffer,
    /// then presentation.
    fn emit_tail(&self, cmds: &mut Vec<RenderCommand>)
        ensures
            final(cmds)@ == old(cmds)@ + sky_cmds(self) + output_cmds(self) + seq![
                RenderCommand::Present,
            ],
    {
        let ghost base = cmds@;
        cmds.push(
            RenderCommand::SetRenderTargets {
                color0: Some(self.backend.get_render_target_view()),
                color1: None,
                depth: Some(self.backend.get_depth_stencil_view()),
            },
        );
        self.skybox_program.prepare_draw(cmds);
        match &self.skybox {
            Some(sky) => {
                sky.draw(true, cmds);
            },
            None => {},
        }
        proof {
            assert(cmds@ =~= base + sky_cmds(self));
        }
        cmds.push(
            RenderCommand::SetRenderTargets {
                color0: Some(self.backend.get_render_target_view()),
                color1: None,
                depth: None,
            },
        );
        self.output_program.prepare_draw(cmds);
        cmds.push(
            RenderCommand::BindTexture {
                slot: 0,
                texture: self.deferred_program_light.get_render_target_view(),
            },
        );
        cmds.push(
            RenderCommand::BindTexture {
                slot: 1,
                texture: self.forward_program.get_render_target_view(),
            },
        );
        self.screen_quad.draw(cmds);
        cmds.push(RenderCommand::Present);
        proof {
            assert(cmds@ =~= base + sky_cmds(self) + output_cmds(self) + seq![
                RenderCommand::Present,
            ]);
        }
    }

    /// Emits the work of one light: shadow map (for shadow-casting
    /// classes), additive lighting accumulation, and forward transparency.
    #[verifier::rlimit(100)]
    #[verifier::spinoff_prover]
    fn emit_light(
        &mut self,
        light_in: &Light,
        a_subs: &Vec<DrawSubmission>,
        t_subs: &Vec<DrawSubmission>,
        cmds: &mut Vec<RenderCommand>,
    ) -> (u: ())
        requires
            old(self).wf(),
            light_in.light_proj.wf(),
            forall|x: int|
                0 <= x < a_subs@.len() ==> crate::scenegraph::draw::sub_valid(
                    &old(self).scene,
                    #[trigger] a_subs@[x],
                    ObjType::Any,
                ),
            forall|x: int|
                0 <= x < t_subs@.len() ==> crate::scenegraph::draw::sub_valid(
                    &old(self).scene,
                    #[trigger] t_subs@[x],
                    ObjType::Transparent,
                ),
        ensures
            final(self).wf(),
            final(self).scene == old(self).scene,
            final(self).settings == old(self).settings,
            final(self).camera == old(self).camera,
            final(self).backend == old(self).backend,
            final(self).skybox == old(self).skybox,
            final(self).screen_quad == old(self).screen_quad,
            final(self).shadow_dist == old(self).shadow_dist,
            unchanged_pass_ids(old(self), final(self)),
            final(cmds)@ == old(cmds)@ + per_light_cmds(old(self), *light_in, a_subs@, t_subs@),
    {
        let ghost base = cmds@;
        let ghost pre = *old(self);
        let light = *light_in;
        cmds.push(RenderCommand::SetBlend { blend: BlendMode::Additive });
        let is_ambient = match light.t {
            LightType::Ambient => true,
            _ => false,
        };
        if !is_ambient {
            let ls = light_space_for(&light, self.camera.position);
            self.shadow_program.set_light_space(ls);
            cmds.push(RenderCommand::ClearDepth { target: self.shadow_program.get_shadow_map() });
            self.shadow_program.update(cmds);
            cmds.push(RenderCommand::SetCull { cull: CullMode::Front });
            let sv = self.shadow_program.get_shadow_map_viewport();
            cmds.push(RenderCommand::SetViewport { width: sv.0, height: sv.1 });
            cmds.push(RenderCommand::UnbindTexture { slot: 5 });
            cmds.push(
                RenderCommand::SetRenderTargets {
                    color0: None,
                    color1: None,
                    depth: Some(self.shadow_program.get_shadow_map()),
                },
            );
            self.shadow_program.prepare_draw(cmds);
            self.scene.emit_list(a_subs, cmds);
            cmds.push(RenderCommand::SetCull { cull: CullMode::Back });
            proof {
                assert(cmds@ =~= base + seq![
                    RenderCommand::SetBlend { blend: BlendMode::Additive },
                ] + shadow_cmds(&pre, a_subs@));
            }
        }
        let ghost mid = cmds@;
        let viewport2 = self.backend.get_viewport();
        cmds.push(RenderCommand::SetViewport { width: viewport2.0, height: viewport2.1 });
        cmds.push(
            RenderCommand::SetRenderTargets {
                color0: Some(self.deferred_program_light.get_render_target_view()),
                color1: None,
                depth: None,
            },
        );
        self.deferred_program_light.set_light(&light);
        self.deferred_program_light.update(cmds);
        self.deferred_program_light.prepare_draw(cmds);
        cmds.push(
            RenderCommand::BindTexture { slot: 5, texture: self.shadow_program.get_shadow_map() },
        );
        cmds.push(
            RenderCommand::BindTexture { slot: 4, texture: self.ssao_program.get_render_target() },
        );
        cmds.push(
            RenderCommand::BindTexture { slot: 0, texture: self.deferred_program_pre.positions() },
        );
        cmds.push(
            RenderCommand::BindTexture { slot: 1, texture: self.deferred_program_pre.albedo() },
        );
        self.screen_quad.draw(cmds);
        proof {
            assert(cmds@ =~= mid + lighting_cmds(&pre));
        }
        cmds.push(RenderCommand::SetBlend { blend: BlendMode::Alpha });
        self.forward_program.set_light(&light);
        self.forward_program.update(cmds);
        cmds.push(
            RenderCommand::SetRenderTargets {
                color0: Some(self.forward_program.get_render_target_view()),
                color1: None,
                depth: Some(self.backend.get_depth_stencil_view()),
            },
        );
        self.forward_program.prepare_draw(cmds);
        self.scene.emit_list(t_subs, cmds);
        proof {
            assert(cmds@ =~= mid + lighting_cmds(&pre) + forward_cmds(&pre, t_subs@));
            assert(cmds@ =~= base + per_light_cmds(&pre, light, a_subs@, t_subs@));
        }
    }

    /// Ends the frame: emits the sky and composition phases, appends the
    /// presentation command, and presents through the backend.
    #[verifier::rlimit(100)]
    #[verifier::spinoff_prover]
    fn finish_frame(
        &mut self,
        cmds: &mut Vec<RenderCommand>,
        outcome: PresentOutcome,
        Ghost(pre): Ghost<Renderer>,
        Ghost(base): Ghost<Seq<RenderCommand>>,
        Ghost(o_subs): Ghost<Seq<DrawSubmission>>,
        Ghost(a_subs): Ghost<Seq<DrawSubmission>>,
        Ghost(t_subs): Ghost<Seq<DrawSubmission>>,
    ) -> (r: Result<(), DxError>)
        requires
            old(self).wf(),
            unchanged_pass_ids(&pre, old(self)),
            old(self).backend == pre.backend,
            old(self).scene == pre.scene,
            old(self).settings == pre.settings,
            old(self).camera == pre.camera,
            old(self).skybox == pre.skybox,
            old(self).screen_quad == pre.screen_quad,
            old(cmds)@ == base + clear_cmds(&pre) + gbuffer_cmds(&pre, o_subs) + ssao_cmds(&pre)
                + lights_cmds(&pre, pre.scene.spec_lights(), a_subs, t_subs),
        ensures
            r is Ok ==> final(self).wf(),
            outcome != PresentOutcome::DeviceLost ==> final(self).wf(),
            final(cmds)@ == base + frame_cmds(&pre, o_subs, a_subs, t_subs),
            final(self).scene == old(self).scene,
            final(self).settings == old(self).settings,
            final(self).camera == old(self).camera,
            outcome == PresentOutcome::Success ==> r is Ok
                && final(self).backend.spec_frames_presented() == crate::backend::frames_after(
                old(self).backend.spec_frames_presented(),
            ),
            outcome == PresentOutcome::Failure ==> r is Err && r.unwrap_err().spec_err_type()
                == crate::error::DxErrorType::Draw,
            outcome == PresentOutcome::DeviceLost && r is Ok
                ==> final(self).backend.spec_generation()
                == old(self).backend.spec_generation() + 1,
    {
        let ghost before_tail = *self;
        self.emit_tail(cmds);
        proof {
            lemma_tail_cmds_stable(&pre, &before_tail);
            assert(cmds@ =~= base + frame_cmds(&pre, o_subs, a_subs, t_subs));
        }
        let present_result = self.backend.present(outcome);
        match present_result {
            Ok(()) => Ok(()),
            Err(e) => Err(e),
        }
    }

    /// Renders one frame: emits the whole fixed pass sequence into `cmds`
    /// — clear, G-buffer, optional occlusion, per light shadow + lighting +
    /// transparency, sky, composition, present — and presents it, handling
    /// a reported device loss internally.
    #[verifier::rlimit(100)]
    #[verifier::spinoff_prover]
    pub fn render(&mut self, cmds: &mut Vec<RenderCommand>, outcome: PresentOutcome) -> (r: Result<
        (),
        DxError,
    >)
        requires
            old(self).wf(),
        ensures
            r is Ok ==> final(self).wf(),
            outcome != PresentOutcome::DeviceLost ==> final(self).wf(),
            exists|o_subs: Seq<DrawSubmission>, a_subs: Seq<DrawSubmission>, t_subs: Seq<
                DrawSubmission,
            >|
                #![auto]
                subs_for(&old(self).scene, o_subs, ObjType::Opaque) && subs_for(
                    &old(self).scene,
                    a_subs,
                    ObjType::Any,
                ) && subs_for(&old(self).scene, t_subs, ObjType::Transparent) && final(cmds)@
                    == old(cmds)@ + frame_cmds(old(self), o_subs, a_subs, t_subs),
            final(self).scene == old(self).scene,
            final(self).settings == old(self).settings,
            final(self).camera == old(self).camera,
            outcome == PresentOutcome::Success ==> r is Ok
                && final(self).backend.spec_frames_presented() == crate::backend::frames_after(
                old(self).backend.spec_frames_presented(),
            ),
            outcome == PresentOutcome::Failure ==> r is Err && r.unwrap_err().spec_err_type()
                == crate::error::DxErrorType::Draw,
            outcome == PresentOutcome::DeviceLost && r is Ok
                ==> final(self).backend.spec_generation()
                == old(self).backend.spec_generation() + 1,
    {
        let ghost base = cmds@;
        let ghost pre_state = *old(self);
        let empty_subs: Vec<DrawSubmission> = Vec::new();
        let o_subs = match self.scene.submissions(ObjType::Opaque) {
            Ok(s) => s,
            Err(_) => empty_subs,
        };
        let empty_subs2: Vec<DrawSubmission> = Vec::new();
        let a_subs = match self.scene.submissions(ObjType::Any) {
            Ok(s) => s,
            Err(_) => empty_subs2,
        };
        let empty_subs3: Vec<DrawSubmission> = Vec::new();
        let t_subs = match self.scene.submissions(ObjType::Transparent) {
            Ok(s) => s,
            Err(_) => empty_subs3,
        };
        proof {
            assert(subs_for(&pre_state.scene, o_subs@, ObjType::Opaque));
            assert(subs_for(&pre_state.scene, a_subs@, ObjType::Any));
            assert(subs_for(&pre_state.scene, t_subs@, ObjType::Transparent));
        }
        self.emit_head(&o_subs, cmds);
        let ghost head = base + clear_cmds(&pre_state) + gbuffer_cmds(&pre_state, o_subs@)
            + ssao_cmds(&pre_state);
        let light_count = self.scene.light_count();
        let mut li: usize = 0;
        while li < light_count
            invariant
                self.wf(),
                self.scene == pre_state.scene,
                self.settings == pre_state.settings,
                self.camera == pre_state.camera,
                self.backend == pre_state.backend,
                self.skybox == pre_state.skybox,
                self.screen_quad == pre_state.screen_quad,
                self.shadow_dist == pre_state.shadow_dist,
                unchanged_pass_ids(&pre_state, self),
                light_count == self.scene.spec_lights().len(),
                0 <= li <= light_count,
                forall|x: int|
                    0 <= x < a_subs@.len() ==> crate::scenegraph::draw::sub_valid(
                        &self.scene,
                        #[trigger] a_subs@[x],
                        ObjType::Any,
                    ),
                forall|x: int|
                    0 <= x < t_subs@.len() ==> crate::scenegraph::draw::sub_valid(
                        &self.scene,
                        #[trigger] t_subs@[x],
                        ObjType::Transparent,
                    ),
                cmds@ == head + lights_cmds(
                    &pre_state,
                    self.scene.spec_lights().take(li as int),
                    a_subs@,
                    t_subs@,
                ),
            decreases light_count - li,
        {
            let light = *vstd::std_specs::vec::vec_index(self.scene.get_lights(), li);
            proof {
                assert(self.scene.spec_lights()[li as int].light_proj.wf());
            }
            let ghost before_call = *self;
            self.emit_light(&light, &a_subs, &t_subs, cmds);
            proof {
                lemma_per_light_cmds_stable(&pre_state, &before_call, light, a_subs@, t_subs@);
                let lts = self.scene.spec_lights();
                assert(lts.take(li as int + 1).drop_last() =~= lts.take(li as int));
                assert(lts.take(li as int + 1).last() == lts[li as int]);
                assert(cmds@ =~= head + lights_cmds(
                    &pre_state,
                    lts.take(li as int + 1),
                    a_subs@,
                    t_subs@,
                ));
            }
            li += 1;
        }
        proof {
            assert(self.scene.spec_lights().take(light_count as int) =~= self.scene.spec_lights());
        }
        self.finish_frame(
            cmds,
            outcome,
            Ghost(pre_state),
            Ghost(base),
            Ghost(o_subs@),
            Ghost(a_subs@),
            Ghost(t_subs@),
        )
    }

    /// Stages the per-frame uniform data every pass reads from the current
    /// camera and configuration: view/projection matrices, camera position
    /// and planes, the occlusion toggle, and the rotation-only view the sky
    /// pass uses so the sky appears infinitely distant. Call once per
    /// frame, before `render`.
    pub fn stage_frame_uniforms(&mut self)
        requires
            old(self).wf(),
        ensures
            final(self).wf(),
            unchanged_pass_ids(old(self), final(self)),
            final(self).scene == old(self).scene,
            final(self).backend == old(self).backend,
            final(self).camera == old(self).camera,
            final(self).settings == old(self).settings,
            final(self).skybox == old(self).skybox,
            final(self).screen_quad == old(self).screen_quad,
            final(self).shadow_dist == old(self).shadow_dist,
            final(self).forward_program.vertex_shader_uniforms.data == (ConstantsVtx {
                view: old(self).camera.view,
                proj: old(self).camera.proj,
            }),
            final(self).forward_program.pixel_shader_uniforms.data == (ConstantsLight {
                camera_pos: old(self).camera.position,
                ssao: if old(self).settings.ssao {
                    1u32
                } else {
                    0u32
                },
            }),
            final(self).deferred_program_pre.vertex_shader_uniforms.data == (ConstantsVtx {
                view: old(self).camera.view,
                proj: old(self).camera.proj,
            }),
            final(self).deferred_program_pre.pixel_shader_uniforms.data == (ConstantsPlanes {
                near_plane: old(self).camera.near,
                far_plane: old(self).camera.far,
            }),
            final(self).deferred_program_light.pixel_shader_uniforms.data == (ConstantsLight {
                camera_pos: old(self).camera.position,
                ssao: if old(self).settings.ssao {
                    1u32
                } else {
                    0u32
                },
            }),
            final(self).skybox_program.vertex_shader_uniforms.data.proj == old(self).camera.proj,
            final(self).skybox_program.vertex_shader_uniforms.data.view@ == (GMat4 {
                m03: 0,
                m13: 0,
                m23: 0,
                ..old(self).camera.view@
            }),
            final(self).ssao_program.cbuffer.data.proj == old(self).camera.proj,
    {
        let flag: u32 = if self.settings.ssao {
            1
        } else {
            0
        };
        let view = self.camera.view;
        let proj = self.camera.proj;
        let pos = self.camera.position;
        self.forward_program.set_view(view);
        self.forward_program.set_proj(proj);
        self.forward_program.set_camera_pos(pos);
        self.forward_program.set_ssao(flag);
        self.deferred_program_pre.set_view(view);
        self.deferred_program_pre.set_proj(proj);
        self.deferred_program_pre.set_camera_planes(self.camera.near, self.camera.far);
        self.deferred_program_light.set_camera_pos(pos);
        self.deferred_program_light.set_ssao(flag);
        let rot = view.rotation_only();
        self.skybox_program.set_view(rot);
        self.skybox_program.set_proj(proj);
        self.ssao_program.set_proj(proj);
    }
}

/// The passes' GPU resources (programs, buffers, targets) are unchanged;
/// only staged uniform data may differ.
pub open spec fn unchanged_pass_ids(a: &Renderer, b: &Renderer) -> bool {
    &&& b.forward_program.spec_program() == a.forward_program.spec_program()
    &&& b.forward_program.spec_render_target() == a.forward_program.spec_render_target()
    &&& b.forward_program.vertex_shader_uniforms.spec_buffer()
        == a.forward_program.vertex_shader_uniforms.spec_buffer()
    &&& b.forward_program.pixel_shader_uniforms.spec_buffer()
        == a.forward_program.pixel_shader_uniforms.spec_buffer()
    &&& b.forward_program.light_buffer.spec_buffer() == a.forward_program.light_buffer.spec_buffer()
    &&& b.deferred_program_pre.spec_program() == a.deferred_program_pre.spec_program()
    &&& b.deferred_program_pre.spec_positions() == a.deferred_program_pre.spec_positions()
    &&& b.deferred_program_pre.spec_albedo() == a.deferred_program_pre.spec_albedo()
    &&& b.deferred_program_pre.vertex_shader_uniforms.spec_buffer()
        == a.deferred_program_pre.vertex_shader_uniforms.spec_buffer()
    &&& b.deferred_program_pre.pixel_shader_uniforms.spec_buffer()
        == a.deferred_program_pre.pixel_shader_uniforms.spec_buffer()
    &&& b.deferred_program_light.spec_program() == a.deferred_program_light.spec_program()
    &&& b.deferred_program_light.spec_render_target()
        == a.deferred_program_light.spec_render_target()
    &&& b.deferred_program_light.pixel_shader_uniforms.spec_buffer()
        == a.deferred_program_light.pixel_shader_uniforms.spec_buffer()
    &&& b.deferred_program_light.light_buffer.spec_buffer()
        == a.deferred_program_light.light_buffer.spec_buffer()
    &&& b.shadow_program.spec_program() == a.shadow_program.spec_program()
    &&& b.shadow_program.spec_shadow_map() == a.shadow_program.spec_shadow_map()
    &&& b.shadow_program.vertex_shader_uniforms.spec_buffer()
        == a.shadow_program.vertex_shader_uniforms.spec_buffer()
    &&& b.skybox_program.spec_program() == a.skybox_program.spec_program()
    &&& b.skybox_program.vertex_shader_uniforms.spec_buffer()
        == a.skybox_program.vertex_shader_uniforms.spec_buffer()
    &&& b.ssao_program.spec_program() == a.ssao_program.spec_program()
    &&& b.ssao_program.spec_noise() == a.ssao_program.spec_noise()
    &&& b.ssao_program.spec_render_target() == a.ssao_program.spec_render_target()
    &&& b.ssao_program.cbuffer.spec_buffer() == a.ssao_program.cbuffer.spec_buffer()
    &&& b.output_program == a.output_program
}

/// Creates the whole renderer over the preferred adapter: the original
/// entry point for bringing up a draw backend.
pub fn create_backend(settings: Settings, adapters: &Vec<Adapter>, surface: u64) -> (r: Result<
    Renderer,
    DxError,
>)
    ensures
        r is Ok <==> crate::backend::spec_selected_adapter(adapters@) is Some && surface != 0,
        r is Ok ==> r.unwrap().wf(),
{
    Renderer::create(settings, adapters, surface)
}

} // verus!
