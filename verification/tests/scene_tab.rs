use floptle_editor::scene_tab::{
    arm_click, bone_colour, camera_colour, closed_ring, colour_of, drawing_text, hint, knife_paint,
    lock_view, mode_text, move_slot, outline_colour, overlay_step, painted_layers, panels,
    resize_handles, resize_slot, select_all_text, set_ortho, shape_label, touch_element, view_text,
    HintKeys, KnifeEnd, Layer, MapOrient, MapXform, OrthoChoice, OverlayStep, Panels, Resize,
    ResizeHandle, Rgba, Touch, ViewState,
};
use floptle_editor::selection::{Editor, Tool};

fn scene() -> ViewState {
    ViewState {
        game: false,
        offscreen: false,
        picture: false,
        has_active_camera: false,
        playing: false,
        tool: Tool::MapEdit,
        map_playing: false,
        aspect: false,
    }
}

#[test]
fn the_editors_panels_are_over_the_scene_alone() {
    assert_eq!(
        panels(scene()),
        Panels {
            picture: false,
            no_camera: false,
            banner: false,
            tools: true,
            map_hud: true,
            gizmos: true,
            device: false,
        }
    );
    assert!(!panels(ViewState { map_playing: true, ..scene() }).map_hud);
    let game =
        ViewState { game: true, offscreen: true, picture: true, playing: true, aspect: true, ..scene() };
    assert_eq!(
        panels(game),
        Panels {
            picture: true,
            no_camera: true,
            banner: true,
            tools: false,
            map_hud: false,
            gizmos: false,
            device: true,
        }
    );
}

#[test]
fn the_game_view_stays_clean() {
    let there = vec![Layer::ScriptLines, Layer::Lights, Layer::Gizmo];
    assert_eq!(painted_layers(true, &there), vec![Layer::ScriptLines]);
    assert_eq!(
        painted_layers(false, &there),
        vec![Layer::Gizmo, Layer::Lights, Layer::ScriptLines]
    );
    assert!(painted_layers(true, &vec![Layer::Lights]).is_empty());
}

#[test]
fn colours_say_what_is_selected() {
    assert_eq!(outline_colour(true), Rgba { r: 255, g: 180, b: 60, a: 255 });
    assert_eq!(outline_colour(false), Rgba { r: 80, g: 200, b: 255, a: 170 });
    assert_eq!(camera_colour(true), Rgba { r: 120, g: 230, b: 140, a: 255 });
    assert_eq!(bone_colour(false), Rgba { r: 225, g: 225, b: 235, a: 255 });
    assert_eq!(colour_of(Layer::Overlays), None);
}

#[test]
fn a_cut_shows_where_it_would_end() {
    let p = knife_paint(true, Some(true), false);
    assert!(p.line && p.start && !p.why);
    assert_eq!(p.end, Some(KnifeEnd::Ring));
    assert_eq!(p.colour, Rgba { r: 255, g: 120, b: 120, a: 255 });
    let p = knife_paint(true, Some(false), true);
    assert!(p.why);
    assert_eq!(p.end, Some(KnifeEnd::Dot));
    assert_eq!(p.colour, Rgba { r: 150, g: 150, b: 160, a: 255 });
    let p = knife_paint(false, None, true);
    assert!(!p.line && !p.why && !p.start);
}

#[test]
fn a_ring_closes() {
    assert_eq!(closed_ring(&vec![1, 2, 3], 3), Some(vec![1, 2, 3, 1]));
    assert_eq!(closed_ring(&vec![1, 2], 3), None);
    assert_eq!(closed_ring(&vec![], 0), None);
    assert_eq!(overlay_step(true, false, true), OverlayStep::Draw);
    assert_eq!(overlay_step(true, false, false), OverlayStep::Stop);
    assert_eq!(overlay_step(true, true, false), OverlayStep::Skip);
    assert_eq!(overlay_step(false, false, false), OverlayStep::Skip);
}

#[test]
fn one_gesture_grabs_and_moves() {
    let mut ed = Editor::default();
    ed.tool = Tool::Rect;
    ed.select_single(1);
    let still = Touch { hovered: true, clicked: false, drag_started: false, dragged: false };
    let step = touch_element(&mut ed, Some(2), still);
    assert!(step.hot && !step.selected && !step.moves && !step.handles);
    assert_eq!(ed.selection, vec![1]);
    let grab = Touch { hovered: true, clicked: false, drag_started: true, dragged: true };
    let step = touch_element(&mut ed, Some(2), grab);
    assert!(step.moves && !step.selected);
    assert_eq!(ed.selection, vec![2]);
    let step = touch_element(&mut ed, Some(2), still);
    assert!(step.selected && step.handles);
    ed.toggle_selection_lock();
    let step = touch_element(&mut ed, Some(3), grab);
    assert!(!step.moves);
    assert_eq!(ed.selection, vec![2], "a held selection stays");
    assert!(!touch_element(&mut ed, None, grab).moves);
}

#[test]
fn a_drag_is_added_to_its_own() {
    assert_eq!(move_slot(&vec![4, 5], 5), Some(1));
    assert_eq!(move_slot(&vec![4, 5], 6), None);
    let handles = resize_handles();
    assert_eq!(handles.len(), 8);
    assert_eq!(handles[0], ResizeHandle { across: -1, down: -1 });
    assert_eq!(handles[4], ResizeHandle { across: 1, down: 0 });
    let (r, same) = resize_slot(None, 9, handles[0]);
    assert_eq!((r, same), (Resize { element: 9, from_left: true, from_top: true }, false));
    assert!(resize_slot(Some(r), 9, handles[0]).1);
    assert!(!resize_slot(Some(r), 9, handles[7]).1);
    assert!(!resize_slot(Some(r), 8, handles[0]).1);
}

#[test]
fn cycling_comes_round() {
    assert_eq!(MapXform::Move.cycled(), MapXform::Rotate);
    assert_eq!(MapXform::Move.cycled().cycled().cycled(), MapXform::Move);
    assert_eq!(MapOrient::Normal.cycled(), MapOrient::Local);
    assert_eq!(MapOrient::Normal.cycled().cycled().cycled(), MapOrient::Normal);
    assert_eq!(arm_click(Some(2), 2), None);
    assert_eq!(arm_click(Some(1), 2), Some(2));
}

#[test]
fn the_strip_says_what_applies() {
    let k = |t: &str| t.to_string();
    let keys = HintKeys {
        turn_left: k("Q"),
        turn_right: k("E"),
        turn_around: k("F"),
        resolution_down: k("["),
        resolution_up: k("]"),
        extrude: k("X"),
        inset: k("I"),
    };
    assert_eq!(
        hint(Some(true), true, &keys),
        "drag the base, then the height  ·  Q E turn  ·  F flip  ·  [ ] resolution  ·  Esc cancel"
    );
    assert_eq!(
        hint(Some(false), false, &keys),
        "drag the base, then the height  ·  Q E turn  ·  F flip  ·  Esc cancel"
    );
    assert!(hint(None, true, &keys).starts_with("✂"));
    assert!(hint(None, false, &keys).ends_with("X extrude  ·  I inset"));
    assert_eq!(shape_label("Model Cube"), "Cube");
    assert_eq!(shape_label("Stairs"), "Stairs");
    assert_eq!(drawing_text("Model CUBE É"), "drawing cube é");
    assert_eq!(
        mode_text("edges", "2", "Tab"),
        "select edges — 2 (or Tab to cycle). Your selection converts rather than being dropped."
    );
    assert_eq!(select_all_text("edge", "A"), "select every edge in this mesh  (Ctrl+A, or A)");
}

#[test]
fn a_locked_view_has_no_perspective() {
    assert_eq!(lock_view(true, false), OrthoChoice::Start);
    assert_eq!(lock_view(true, true), OrthoChoice::Keep);
    assert_eq!(lock_view(false, true), OrthoChoice::Perspective);
    assert_eq!(set_ortho(true), OrthoChoice::Start);
    assert_eq!(set_ortho(false), OrthoChoice::Perspective);
    assert_eq!(view_text(true, "Top"), "▦ Top");
    assert_eq!(view_text(false, "Top"), "▦ View");
}
