use sparkle::backend::{Adapter, D3D11Backend};
use sparkle::drawable::{DxDrawable, ObjType};
use sparkle::geometry::Vertex;
use sparkle::math::{Vec2i, Vec3i};
use sparkle::commands::PresentOutcome;
use sparkle::error::ErrorCause;
use sparkle::math::Mat4;
use sparkle::scenegraph::node::Node;
use sparkle::scenegraph::Scenegraph;

#[test]
fn world_transform_is_chain_product() {
    let mut sg = Scenegraph::empty();
    sg.set_root(Node::create(Some("root"), Mat4::scaling(2), None));
    let root = sg.root_index().unwrap();
    let c = sg
        .add_child(root, Node::create(Some("child"), Mat4::translation(3, 4, 5), None))
        .unwrap();
    let mut cmds = Vec::new();
    sg.build_matrices(&mut cmds).unwrap();
    let w = *sg.node_at(c).world_transform();
    // scale(2) * translate(3,4,5): translation column doubled, diagonal 2,2,2,1.
    assert_eq!(w.m00, 2);
    assert_eq!(w.m03, 6);
    assert_eq!(w.m13, 8);
    assert_eq!(w.m23, 10);
    assert_eq!(w.m33, 1);
}

#[test]
fn duplicate_sibling_name_is_rejected() {
    let mut sg = Scenegraph::empty();
    sg.set_root(Node::create(Some("root"), Mat4::identity(), None));
    let root = sg.root_index().unwrap();
    sg.add_child(root, Node::create(Some("a"), Mat4::identity(), None)).unwrap();
    let before = sg.node_count();
    let e = sg.add_child(root, Node::create(Some("a"), Mat4::identity(), None)).unwrap_err();
    assert!(matches!(e.cause(), ErrorCause::DuplicateName));
    assert_eq!(sg.node_count(), before);
}

#[test]
fn clear_releases_everything() {
    let mut sg = Scenegraph::empty();
    sg.set_root(Node::create(Some("root"), Mat4::identity(), None));
    let root = sg.root_index().unwrap();
    sg.add_child(root, Node::create(Some("a"), Mat4::identity(), None)).unwrap();
    sg.clear().unwrap();
    assert!(sg.root_index().is_none());
    let e = sg.get_node_named("a").unwrap_err();
    assert!(matches!(e.cause(), ErrorCause::NotFound));
}

#[test]
fn resize_is_idempotent_and_present_succeeds() {
    let adapters = vec![Adapter { software: false, dedicated_memory: 1 << 30 }];
    let mut b = D3D11Backend::init(&adapters, 7, 800, 600).unwrap();
    assert_eq!(b.resize(800, 600).unwrap(), false);
    assert_eq!(b.resize(1024, 768).unwrap(), true);
    assert!(b.present(PresentOutcome::Success).is_ok());
    assert!(b.present(PresentOutcome::DeviceLost).is_ok());
    assert_eq!(b.generation(), 2);
    assert!(b.present(PresentOutcome::Success).is_ok());
}

#[test]
fn submissions_filter_sort_and_rebind() {
    let adapters = vec![Adapter { software: false, dedicated_memory: 1 }];
    let mut backend = D3D11Backend::init(&adapters, 1, 8, 8).unwrap();
    let verts = vec![
        Vertex::new(Vec3i::new(0, 0, 0), Vec3i::zero(), Vec2i::zero()),
        Vertex::new(Vec3i::new(1, 0, 0), Vec3i::zero(), Vec2i::zero()),
        Vertex::new(Vec3i::new(0, 1, 0), Vec3i::zero(), Vec2i::zero()),
    ];
    let indices = vec![0u32, 1, 2];
    let mut da = DxDrawable::from_verts(&mut backend, &verts, &indices, ObjType::Opaque).unwrap();
    da.add_texture(0, 5);
    let mut db = DxDrawable::from_verts(&mut backend, &verts, &indices, ObjType::Opaque).unwrap();
    db.add_texture(0, 9);
    let mut dc =
        DxDrawable::from_verts(&mut backend, &verts, &indices, ObjType::Transparent).unwrap();
    dc.add_texture(0, 5);

    let mut sg = Scenegraph::empty();
    sg.set_root(Node::create(Some("root"), Mat4::identity(), Some(vec![da, db, dc])));

    // Opaque filter: both opaque drawables, materials 5 then 9, both rebinds.
    let opaque = sg.submissions(ObjType::Opaque).unwrap();
    assert_eq!(opaque.len(), 2);
    assert_eq!((opaque[0].node, opaque[0].slot), (0, 0));
    assert_eq!((opaque[1].node, opaque[1].slot), (0, 1));
    assert!(opaque[0].rebind && opaque[1].rebind);

    // Transparent filter: only the transparent drawable.
    let transparent = sg.submissions(ObjType::Transparent).unwrap();
    assert_eq!(transparent.len(), 1);
    assert_eq!((transparent[0].node, transparent[0].slot), (0, 2));

    // Any: all three; equal materials adjacent and in flattened order
    // (stable), rebind exactly at material boundaries.
    let all = sg.submissions(ObjType::Any).unwrap();
    assert_eq!(all.len(), 3);
    assert_eq!((all[0].node, all[0].slot), (0, 0));
    assert_eq!((all[1].node, all[1].slot), (0, 2));
    assert_eq!((all[2].node, all[2].slot), (0, 1));
    assert_eq!(
        (all[0].rebind, all[1].rebind, all[2].rebind),
        (true, false, true)
    );

    // traverse returns the same complete list.
    let trav = sg.traverse().unwrap();
    assert_eq!(trav.len(), 3);
}

#[test]
fn traverse_on_empty_scene_is_empty_error() {
    let sg = Scenegraph::empty();
    let e = sg.traverse().unwrap_err();
    assert!(matches!(e.cause(), ErrorCause::Empty));
}

#[test]
fn update_light_out_of_bounds_is_not_found() {
    let mut sg = Scenegraph::empty();
    let e = sg.update_light(sparkle::geometry::Light::default(), 0).unwrap_err();
    assert!(matches!(e.cause(), ErrorCause::NotFound));
}
