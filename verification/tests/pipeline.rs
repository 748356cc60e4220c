use sparkle::backend::Adapter;
use sparkle::commands::{PresentOutcome, RenderCommand};
use sparkle::drawable::create_skybox;
use sparkle::error::ErrorCause;
use sparkle::geometry::Vertex;
use sparkle::material::MaterialSlot;
use sparkle::math::{Mat4, Vec2i, Vec3i};
use sparkle::renderer::Renderer;
use sparkle::scenegraph::{MeshRecord, SceneRecord};
use sparkle::settings::Settings;

fn one_adapter() -> Vec<Adapter> {
    vec![Adapter { software: false, dedicated_memory: 1 << 30 }]
}

fn triangle_mesh(transparent: bool, texture: u64) -> MeshRecord {
    let verts = vec![
        Vertex::new(Vec3i::new(0, 0, 0), Vec3i::new(0, 0, 1), Vec2i::new(0, 0)),
        Vertex::new(Vec3i::new(1, 0, 0), Vec3i::new(0, 0, 1), Vec2i::new(1, 0)),
        Vertex::new(Vec3i::new(0, 1, 0), Vec3i::new(0, 0, 1), Vec2i::new(0, 1)),
    ];
    MeshRecord {
        vertices: verts,
        indices: vec![0, 1, 2],
        transparent,
        textures: vec![MaterialSlot { slot: 0, texture }],
    }
}

fn loaded_renderer() -> Renderer {
    let adapters = one_adapter();
    let mut renderer = Renderer::create(Settings::default(), &adapters, 1).unwrap();
    let records = vec![SceneRecord {
        name: Some(String::from("cube")),
        local: Mat4::translation(1, 2, 3),
        meshes: vec![triangle_mesh(false, 77)],
        parent_rec: None,
    }];
    let mut cmds = Vec::new();
    renderer.load_scene(&records, &mut cmds).unwrap();
    renderer
}

#[test]
fn frame_passes_run_in_fixed_order() {
    let mut renderer = loaded_renderer();
    renderer.stage_frame_uniforms();
    let mut cmds: Vec<RenderCommand> = Vec::new();
    renderer.render(&mut cmds, PresentOutcome::Success).unwrap();

    // The scene mesh draws with 3 indices, full-screen quads with 6, the
    // sky cube with 36; find each phase by its first occurrence.
    let shadow_map = renderer.shadow_program.shadow_map;
    let mut pos_gbuffer_draw = None;
    let mut pos_shadow_clear = None;
    let mut pos_accum_draw = None;
    let mut pos_sky_draw = None;
    let mut pos_comp_draw = None;
    let mut pos_present = None;
    for (i, c) in cmds.iter().enumerate() {
        match *c {
            RenderCommand::DrawIndexed { index_count: 3, .. } => {
                if pos_gbuffer_draw.is_none() {
                    pos_gbuffer_draw = Some(i);
                }
            }
            RenderCommand::ClearDepth { target } if target == shadow_map => {
                if pos_shadow_clear.is_none() {
                    pos_shadow_clear = Some(i);
                }
            }
            RenderCommand::DrawIndexed { index_count: 6, .. } => {
                if pos_shadow_clear.is_some() && pos_accum_draw.is_none() {
                    pos_accum_draw = Some(i);
                }
                pos_comp_draw = Some(i);
            }
            RenderCommand::DrawIndexed { index_count: 36, .. } => {
                pos_sky_draw = Some(i);
            }
            RenderCommand::Present => {
                pos_present = Some(i);
            }
            _ => {}
        }
    }
    let g = pos_gbuffer_draw.expect("no G-buffer draw");
    let s = pos_shadow_clear.expect("no shadow-map clear");
    let a = pos_accum_draw.expect("no lighting accumulation draw");
    let k = pos_sky_draw.expect("no sky draw");
    let o = pos_comp_draw.expect("no composition draw");
    let p = pos_present.expect("no present");
    assert!(g < s, "G-buffer draw must precede the shadow pass");
    assert!(s < a, "shadow-map write must precede its light's accumulation");
    assert!(a < k, "lighting accumulation must precede the sky");
    assert!(k < o, "sky must precede composition");
    assert!(o < p, "composition must precede present");
    assert_eq!(p, cmds.len() - 1, "present is the final command");
}

#[test]
fn device_loss_recovers_with_new_generation() {
    let mut renderer = loaded_renderer();
    let gen_before = renderer.backend.generation();
    let mut cmds: Vec<RenderCommand> = Vec::new();
    renderer.render(&mut cmds, PresentOutcome::DeviceLost).unwrap();
    assert_eq!(renderer.backend.generation(), gen_before + 1);
    let mut cmds2: Vec<RenderCommand> = Vec::new();
    renderer.render(&mut cmds2, PresentOutcome::Success).unwrap();
}

#[test]
fn failed_present_surfaces_draw_error() {
    let mut renderer = loaded_renderer();
    let mut cmds: Vec<RenderCommand> = Vec::new();
    let e = renderer.render(&mut cmds, PresentOutcome::Failure).unwrap_err();
    assert!(matches!(e.err_type(), sparkle::error::DxErrorType::Draw));
}

#[test]
fn renderer_resize_recreates_targets() {
    let mut renderer = loaded_renderer();
    assert_eq!(renderer.resize(1024, 768).unwrap(), false);
    let old_positions = renderer.deferred_program_pre.positions;
    assert_eq!(renderer.resize(640, 480).unwrap(), true);
    assert_eq!(renderer.backend.get_width(), 640);
    assert_ne!(renderer.deferred_program_pre.positions, old_positions);
    let mut cmds: Vec<RenderCommand> = Vec::new();
    renderer.render(&mut cmds, PresentOutcome::Success).unwrap();
}

#[test]
fn staging_strips_translation_from_sky_view() {
    let mut renderer = loaded_renderer();
    let mut cam = renderer.camera;
    cam.view = Mat4::translation(7, 8, 9);
    cam.position = Vec3i::new(7, 8, 9);
    renderer.change_camera(cam);
    renderer.stage_frame_uniforms();
    let sky_view = renderer.skybox_program.vertex_shader_uniforms.data.view;
    assert_eq!(sky_view.m03, 0);
    assert_eq!(sky_view.m13, 0);
    assert_eq!(sky_view.m23, 0);
    assert_eq!(sky_view.m00, 1);
    assert_eq!(renderer.forward_program.pixel_shader_uniforms.data.ssao, 1);
    assert_eq!(renderer.forward_program.pixel_shader_uniforms.data.camera_pos, Vec3i::new(7, 8, 9));
}

#[test]
fn skybox_cube_has_identity_transform() {
    let adapters = one_adapter();
    let mut backend = sparkle::backend::D3D11Backend::init(&adapters, 1, 16, 16).unwrap();
    let sky = create_skybox(&mut backend).unwrap();
    assert_eq!(*sky.model(), Mat4::identity());
    assert!(matches!(sky.object_type(), sparkle::drawable::ObjType::Opaque));
}

#[test]
fn surface_bind_failure_has_its_own_kind() {
    let adapters = one_adapter();
    let e = sparkle::backend::D3D11Backend::init(&adapters, 0, 16, 16).unwrap_err();
    assert!(matches!(e.err_type(), sparkle::error::DxErrorType::SurfaceCreation));
    let none: Vec<Adapter> = vec![Adapter { software: true, dedicated_memory: 0 }];
    let e2 = sparkle::backend::D3D11Backend::init(&none, 1, 16, 16).unwrap_err();
    assert!(matches!(e2.err_type(), sparkle::error::DxErrorType::Device));
}

#[test]
fn world_transform_overflow_is_invalid_state() {
    let mut sg = sparkle::scenegraph::Scenegraph::empty();
    let big = sparkle::math::ENTRY_LIMIT;
    sg.set_root(sparkle::scenegraph::node::Node::create(None, Mat4::scaling(big), None));
    let root = sg.root_index().unwrap();
    sg.add_child(root, sparkle::scenegraph::node::Node::create(None, Mat4::scaling(big), None))
        .unwrap();
    let mut cmds = Vec::new();
    let e = sg.build_matrices(&mut cmds).unwrap_err();
    assert!(matches!(e.cause(), ErrorCause::InvalidState));
}
