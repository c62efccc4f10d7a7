use keydraw::batch::SimpleRecord;
use keydraw::builders::{BindGroupLayoutEntryBuilder, STAGE_FRAGMENT, STAGE_VERTEX};
use keydraw::plan::DrawOp;
use keydraw::state::{choose_surface_format, KeyCode, PresentMode, State, SurfaceAction, SurfaceError};
use keydraw::{Command, DrawKey, SimpleCommand};

#[test]
fn state_new_is_unconfigured() {
    let s = State::new(800, 600);
    assert_eq!(s.width(), 800);
    assert_eq!(s.height(), 600);
    assert_eq!(s.present_mode(), PresentMode::Immediate);
    assert!(!s.is_surface_configured());
    assert!(!s.begin_frame());
}

#[test]
fn resize_with_a_zero_side_is_ignored() {
    let mut s = State::new(800, 600);
    assert!(!s.resize(0, 100));
    assert!(!s.resize(100, 0));
    assert_eq!((s.width(), s.height()), (800, 600));
    assert!(!s.is_surface_configured());
}

#[test]
fn resize_configures_the_surface() {
    let mut s = State::new(800, 600);
    assert!(s.resize(1024, 768));
    assert_eq!((s.width(), s.height()), (1024, 768));
    assert!(s.is_surface_configured());
    assert!(s.begin_frame());
    assert!(!s.resize(0, 0));
    assert!(s.is_surface_configured());
}

#[test]
fn vsync_toggles_present_mode() {
    let mut s = State::new(1, 1);
    s.enable_vsync();
    assert_eq!(s.present_mode(), PresentMode::AutoVsync);
    s.disable_vsync();
    assert_eq!(s.present_mode(), PresentMode::Immediate);
    s.update();
    assert_eq!(s.present_mode(), PresentMode::Immediate);
}

#[test]
fn ids_count_up_independently() {
    let mut s = State::new(1, 1);
    assert_eq!(s.get_pipeline(), 0);
    assert_eq!(s.get_pipeline(), 1);
    assert_eq!(s.get_material(), 0);
    assert_eq!(s.get_pipeline(), 2);
    assert_eq!(s.get_material(), 1);
}

#[test]
fn surface_errors_map_to_actions() {
    let s = State::new(1, 1);
    assert_eq!(s.surface_error(SurfaceError::Timeout), SurfaceAction::Skip);
    assert_eq!(s.surface_error(SurfaceError::OutOfMemory), SurfaceAction::Skip);
    assert_eq!(s.surface_error(SurfaceError::Other), SurfaceAction::Skip);
    assert_eq!(s.surface_error(SurfaceError::Outdated), SurfaceAction::Reconfigure);
    assert_eq!(s.surface_error(SurfaceError::Lost), SurfaceAction::Fail);
}

#[test]
fn escape_press_exits() {
    let s = State::new(1, 1);
    assert!(s.handle_key(KeyCode::Escape, true));
    assert!(!s.handle_key(KeyCode::Escape, false));
    assert!(!s.handle_key(KeyCode::Other, true));
}

#[test]
fn surface_format_prefers_first_srgb() {
    assert_eq!(choose_surface_format(&[false, true, true]), 1);
    assert_eq!(choose_surface_format(&[true, false]), 0);
    assert_eq!(choose_surface_format(&[false, false, false]), 0);
}

#[test]
fn render_builds_a_frame() {
    let s = State::new(800, 600);
    let tri = DrawKey::new(0, 0, &[0]);
    let cmds: Vec<Command<[u32; 2], &str>> = vec![
        Command::Complex(DrawKey::new(5, 0, &[]), "overlay"),
        Command::Simple(SimpleCommand {
            key: tri,
            vertices: vec![[1, 2], [3, 4], [5, 6]],
            indices: vec![0, 1, 2],
            instances: vec![],
            stride: 0,
        }),
    ];
    let frame = s.render(cmds);
    assert_eq!(frame.vertices, vec![[1, 2], [3, 4], [5, 6]]);
    let mut expected = Vec::new();
    for i in [0u16, 1, 2, 0] {
        expected.extend_from_slice(&i.to_ne_bytes());
    }
    assert_eq!(frame.index_bytes, expected);
    assert_eq!(frame.index_bytes.len() % 4, 0);
    assert!(frame.instances.is_empty());
    let r = SimpleRecord {
        key: tri,
        index_begin: 0,
        index_end: 3,
        vertex_begin: 0,
        instance_begin: 0,
        instance_end: 1,
        num_instances: 1,
    };
    assert_eq!(
        frame.ops,
        vec![
            DrawOp::SetPipeline(0),
            DrawOp::SetBindGroup(0, 0),
            DrawOp::Draw(r),
            DrawOp::Complex("overlay"),
            DrawOp::RestoreBuffers,
        ]
    );
}

#[test]
fn bind_group_entry_visibility_accumulates() {
    let mut b = BindGroupLayoutEntryBuilder::new(3, 'u');
    let e = b.resolve();
    assert_eq!((e.binding, e.visibility, e.ty), (3, 0, 'u'));
    let e = b.at_vertex().resolve();
    assert_eq!(e.visibility, STAGE_VERTEX);
    let e = b.at_fragment().at_vertex().resolve();
    assert_eq!(e.visibility, STAGE_VERTEX | STAGE_FRAGMENT);
    assert_eq!(e.visibility, 3);
}
