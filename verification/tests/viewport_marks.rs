use floptle_editor::scene_tab::Rgba;
use floptle_editor::viewport_marks::{
    bone_faces, bone_outline, corner_mark, edge_stroke, joint_mark, map_colour, map_marks,
    probe_mark, tile_colour, tile_marks, BoneCorner, EdgeStroke, GizmoClick, GizmoFilter,
    GizmoKind, GizmoSwitches, MapMark, PointMark, TileMark,
};

fn kinds() -> Vec<GizmoKind> {
    vec![
        GizmoKind::Cameras,
        GizmoKind::Lights,
        GizmoKind::Physics,
        GizmoKind::Colliders,
        GizmoKind::Particles,
        GizmoKind::Volumes,
        GizmoKind::Audio,
        GizmoKind::Bones,
        GizmoKind::Script,
    ]
}

fn switches() -> GizmoSwitches {
    GizmoSwitches { show: true, filter: GizmoFilter::default(), in_game: false }
}

#[test]
fn each_kind_has_its_own_switch() {
    for kind in kinds() {
        let mut s = switches();
        s.click(GizmoClick::Kind { kind, on: false });
        for other in kinds() {
            assert_eq!(s.draws(other), other != kind);
        }
        s.click(GizmoClick::AllOn);
        assert!(s.draws(kind));
    }
}

#[test]
fn nothing_is_drawn_while_hidden_and_nothing_is_forgotten() {
    let mut s = switches();
    s.click(GizmoClick::Kind { kind: GizmoKind::Lights, on: false });
    let before = s;
    s.click(GizmoClick::Show(false));
    for kind in kinds() {
        assert!(!s.draws(kind));
    }
    s.click(GizmoClick::AllOn);
    s.click(GizmoClick::InGame(true));
    s.click(GizmoClick::Kind { kind: GizmoKind::Bones, on: false });
    s.click(GizmoClick::Show(true));
    assert_eq!(s, before);
}

#[test]
fn marks_of_scripts_go_over_the_game_only_while_they_are_drawn() {
    let mut s = switches();
    s.click(GizmoClick::Kind { kind: GizmoKind::Script, on: false });
    s.click(GizmoClick::InGame(true));
    assert!(!s.in_game);
    s.click(GizmoClick::Kind { kind: GizmoKind::Script, on: true });
    s.click(GizmoClick::InGame(true));
    assert!(s.in_game);
}

#[test]
fn a_bone_has_twelve_edges_and_eight_faces() {
    let edges = bone_outline();
    assert_eq!(edges.len(), 12);
    assert_eq!(edges[0], (BoneCorner::Head, BoneCorner::Belt(0)));
    assert_eq!(edges[1], (BoneCorner::Belt(0), BoneCorner::Belt(1)));
    assert_eq!(edges[10], (BoneCorner::Belt(3), BoneCorner::Belt(0)));
    assert_eq!(edges[11], (BoneCorner::Belt(3), BoneCorner::Tail));
    let faces = bone_faces(true);
    assert_eq!(faces.len(), 8);
    assert_eq!(faces[7], (BoneCorner::Tail, BoneCorner::Belt(3), BoneCorner::Belt(0)));
    assert!(bone_faces(false).is_empty());
    let edge = |a, b| edges.contains(&(a, b)) || edges.contains(&(b, a));
    for (a, b, c) in faces {
        assert!(edge(a, b) && edge(b, c) && edge(c, a));
    }
}

#[test]
fn points_are_dots_and_rings() {
    assert_eq!(
        joint_mark(true, true),
        (PointMark::RingedDot, Rgba { r: 255, g: 190, b: 90, a: 255 })
    );
    assert_eq!(joint_mark(false, false).0, PointMark::Hidden);
    assert_eq!(joint_mark(true, false).1, Rgba { r: 180, g: 190, b: 210, a: 255 });
    assert_eq!(corner_mark(false, true), PointMark::Hidden);
    assert_eq!(corner_mark(true, true), PointMark::Ring);
    assert_eq!(corner_mark(true, false), PointMark::Dot);
    assert_eq!(probe_mark(false, true), PointMark::Hidden);
    assert_eq!(probe_mark(true, true), PointMark::Ring);
    assert_eq!(probe_mark(true, false), PointMark::RingedDot);
}

#[test]
fn tiles_are_marked_from_the_bottom_to_the_top() {
    let marks = tile_marks();
    assert_eq!(marks.first(), Some(&TileMark::Grid));
    assert_eq!(marks.last(), Some(&TileMark::Cursor));
    assert_eq!(marks.len(), 6);
    assert_eq!(tile_colour(TileMark::Grid), Rgba { r: 150, g: 165, b: 190, a: 46 });
    assert_eq!(tile_colour(TileMark::Collision), Rgba { r: 255, g: 110, b: 110, a: 190 });
    assert_eq!(tile_colour(TileMark::Cursor), Rgba { r: 255, g: 255, b: 255, a: 255 });
}

#[test]
fn maps_are_marked_from_the_bottom_to_the_top() {
    let marks = map_marks();
    assert_eq!(marks.len(), 11);
    assert_eq!(marks.first(), Some(&MapMark::Edges));
    assert_eq!(marks.last(), Some(&MapMark::Knife));
    assert_eq!(map_colour(MapMark::Base), Some(Rgba { r: 120, g: 220, b: 255, a: 255 }));
    assert_eq!(map_colour(MapMark::Arrow), Some(Rgba { r: 120, g: 255, b: 170, a: 255 }));
    assert_eq!(map_colour(MapMark::Edges), None);
}

#[test]
fn a_selected_edge_does_not_fade() {
    let sel = Rgba { r: 255, g: 200, b: 80, a: 255 };
    assert_eq!(edge_stroke(true, false), EdgeStroke::Selected { tenths: 25, colour: sel });
    assert_eq!(edge_stroke(true, true), EdgeStroke::Selected { tenths: 18, colour: sel });
    assert!(matches!(edge_stroke(false, true), EdgeStroke::Faded { behind: true, .. }));
}
