use floptle_editor::selection::{
    bone_frame, end_typing_on_press, keys_pose, pick_test, pose_source, raycast_extents,
    raycast_node_triangles, raycast_nodes, rect_base_half, select_bone_into, takes_pivot, BaseHalf,
    BoneFrame, BoxedMatter, ButtonNote, Drag, DragStep, Editor, FramedBy, Handle, MatterKind, Panel,
    PickTest, Placement, PoseSource, RayNode, Rigged, SceneHit, Snap, Tool, UiUnderPress, WriteTo,
};

/// The nodes of a small scene, in the order in which they were made.
struct Nodes {
    made: Vec<u64>,
}

impl Nodes {
    fn new() -> Nodes {
        Nodes { made: Vec::new() }
    }

    fn spawn(&mut self) -> u64 {
        let e = 10 + self.made.len() as u64;
        self.made.push(e);
        e
    }
}

#[test]
fn an_empty_selection_cannot_be_locked() {
    let mut ed = Editor::default();
    ed.toggle_selection_lock();
    assert!(!ed.selection_locked, "there would be no name row to unlock from");
}

#[test]
fn a_held_selection_ignores_every_gesture() {
    let mut ed = Editor::default();
    let mut nodes = Nodes::new();
    let a = nodes.spawn();
    let b = nodes.spawn();
    ed.select_single(a);
    ed.toggle_selection_lock();
    assert!(ed.selection_locked, "a non-empty selection locks");

    ed.select_single(b);
    assert_eq!(ed.selection, vec![a], "a viewport pick must not move the selection");
    ed.select_toggle(b);
    assert_eq!(ed.selection, vec![a], "ctrl-click must not add to it");
    ed.select_all(&nodes.made);
    assert_eq!(ed.selection, vec![a], "select-all must not replace it");
    ed.clear_selection();
    assert_eq!(ed.selection, vec![a], "clicking empty space must not clear it");
    ed.step_selection(1, &nodes.made);
    assert_eq!(ed.selection, vec![a], "the arrow keys must not step off it");

    ed.toggle_selection_lock();
    assert!(!ed.selection_locked);
    ed.select_single(b);
    assert_eq!(ed.selection, vec![b], "released, the same gesture works again");
}

#[test]
fn a_held_selection_still_lets_you_pick_the_model_s_own_bones() {
    let mut ed = Editor::default();
    let mut nodes = Nodes::new();
    let mine = nodes.spawn();
    let other = nodes.spawn();
    ed.select_single(mine);
    ed.toggle_selection_lock();
    assert!(ed.selection_locked);

    assert!(ed.select_bone(mine, 3), "a bone of the held model was refused");
    assert_eq!(ed.bone_selection, Some((mine, 3)));
    assert_eq!(ed.selection, vec![mine], "picking a bone dropped the held model");
    ed.enforce_selection_lock();
    assert!(ed.selection_locked, "the lock released itself after a bone pick");

    assert!(ed.select_bone(mine, 7));
    assert_eq!(ed.bone_selection, Some((mine, 7)));
    assert!(!ed.select_bone(other, 1), "the lock leaked through another model's rig");
    assert_eq!(ed.bone_selection, Some((mine, 7)));
    assert_eq!(ed.selection, vec![mine]);
}

#[test]
fn an_unheld_bone_pick_still_replaces_the_node_selection() {
    let mut ed = Editor::default();
    let mut nodes = Nodes::new();
    let a = nodes.spawn();
    let b = nodes.spawn();
    ed.select_single(a);
    assert!(ed.select_bone(b, 2), "an unheld selection refuses nothing");
    assert_eq!(ed.bone_selection, Some((b, 2)));
    assert!(ed.selection.is_empty(), "a bone and a node selection are exclusive");
}

#[test]
fn a_lock_the_world_empties_releases_itself() {
    let mut ed = Editor::default();
    let a = Nodes::new().spawn();
    ed.select_single(a);
    ed.toggle_selection_lock();

    ed.selection.clear();
    ed.enforce_selection_lock();
    assert!(!ed.selection_locked, "a lock over nothing must release itself");
}

#[test]
fn the_lock_does_not_hold_back_the_world_itself() {
    let mut ed = Editor::default();
    let mut nodes = Nodes::new();
    let a = nodes.spawn();
    let b = nodes.spawn();
    ed.select_single(a);
    ed.toggle_selection_lock();

    ed.selection = vec![b];
    assert_eq!(ed.selection, vec![b], "history and scene paths still write directly");
    ed.enforce_selection_lock();
    assert!(ed.selection_locked, "and a non-empty result keeps the lock");
}

#[test]
fn a_bone_is_picked_into_a_selection_that_is_not_the_editors() {
    let mut selection = vec![4, 5];
    let mut bone = Some((4, 1));
    assert!(!select_bone_into(&mut selection, &mut bone, true, 9, 2));
    assert_eq!((selection.clone(), bone), (vec![4, 5], Some((4, 1))));
    assert!(select_bone_into(&mut selection, &mut bone, true, 5, 2));
    assert_eq!((selection.clone(), bone), (vec![4, 5], Some((5, 2))));
    assert!(select_bone_into(&mut selection, &mut bone, false, 9, 0));
    assert_eq!((selection.clone(), bone), (vec![], Some((9, 0))));
}

// ---- what the other gestures do --------------------------------------------

#[test]
fn a_toggle_adds_and_takes_away() {
    let mut ed = Editor::default();
    ed.select_single(1);
    ed.select_toggle(2);
    assert_eq!(ed.selection, vec![1, 2]);
    assert_eq!(ed.primary(), Some(2));
    assert_eq!(ed.selected_group(1), vec![1, 2]);
    assert_eq!(ed.selected_group(3), vec![3]);
    ed.select_toggle(1);
    assert_eq!(ed.selection, vec![2]);
    ed.clear_selection();
    assert_eq!(ed.primary(), None);
}

#[test]
fn a_step_stays_in_the_list() {
    let mut ed = Editor::default();
    let order = vec![7, 8, 9];
    ed.select_single(8);
    ed.step_selection(1, &order);
    assert_eq!(ed.selection, vec![9]);
    ed.step_selection(1, &order);
    assert_eq!(ed.selection, vec![9]);
    ed.step_selection(-2, &order);
    assert_eq!(ed.selection, vec![7]);
}

#[test]
fn a_folder_closes_and_opens() {
    let mut ed = Editor::default();
    ed.select_single(3);
    ed.toggle_folder_selected(false);
    assert!(ed.collapsed.is_empty());
    ed.toggle_folder_selected(true);
    assert_eq!(ed.collapsed, vec![3]);
    ed.toggle_folder_selected(true);
    assert!(ed.collapsed.is_empty());
}

#[test]
fn another_tool_gives_up_what_is_half_done() {
    let mut ed = Editor::default();
    ed.drag = Some(Drag { entity: 1, bone: None, handle: Handle::Center });
    ed.map.sel = Some(4);
    ed.map.knife_on = true;
    assert_eq!(ed.set_tool(Tool::MapEdit), Some(Panel::MapTools));
    assert!(ed.drag.is_none());
    assert_eq!((ed.map.sel, ed.map.knife_on), (Some(4), true));
    assert_eq!(ed.set_tool(Tool::Move), None);
    assert_eq!((ed.map.sel, ed.map.knife_on), (None, false));
    assert_eq!(ed.set_tool(Tool::Sculpt), Some(Panel::Terrain));
    assert_eq!(ed.set_tool(Tool::Tiles), Some(Panel::Tiles));
    assert_eq!(ed.set_tool(Tool::Paint), Some(Panel::Paint));
}

#[test]
fn a_button_is_told_once() {
    let mut ed = Editor::default();
    assert_eq!(ed.track_mouse_button(0, true), ButtonNote { button: 0, pressed: true });
    assert_eq!(ed.buttons.held, [true, false, false]);
    assert_eq!(ed.buttons.pressed, [true, false, false]);
    assert!(ed.buttons.ui_pressed);
    assert_eq!(ed.track_mouse_button(0, false), ButtonNote { button: 0, pressed: false });
    assert_eq!(ed.buttons.held, [false, false, false]);
    assert_eq!(ed.buttons.pressed, [true, false, false]);
    assert!(ed.buttons.ui_released);
    let before = ed.buttons;
    // The actions know the other buttons too, and nothing else does.
    assert_eq!(ed.track_mouse_button(3, true), ButtonNote { button: 3, pressed: true });
    assert_eq!(ed.track_mouse_button(4, false), ButtonNote { button: 4, pressed: false });
    assert_eq!(ed.buttons.held, before.held);
    assert_eq!(ed.buttons.pressed, before.pressed);
    assert_eq!((ed.buttons.ui_pressed, ed.buttons.ui_released), (true, true));
}

// ---- typing ----------------------------------------------------------------

/// A panel over the whole window with one text field in it. The pointer is over
/// the panel.
struct Window {
    text: String,
    focused: Option<u64>,
}

const FIELD: u64 = 77;

impl Window {
    fn new(text: &str) -> Window {
        Window { text: text.to_string(), focused: None }
    }

    fn frame(&mut self, typed: &str, focus: bool) {
        if self.focused == Some(FIELD) {
            self.text.push_str(typed);
        }
        if focus {
            self.focused = Some(FIELD);
        }
    }

    /// A press: did it end the typing?
    fn press(&mut self, over_viewport: bool) -> bool {
        match end_typing_on_press(over_viewport, true, self.focused) {
            Some(id) => {
                if self.focused == Some(id) {
                    self.focused = None;
                }
                true
            }
            None => false,
        }
    }
}

#[test]
fn a_press_over_the_viewport_takes_the_keyboard_off_the_field() {
    let mut w = Window::new("12");
    w.frame("", true);
    w.frame("", false);
    assert!(w.focused.is_some(), "the field never took focus, so nothing is under test");

    assert!(w.press(true));
    assert!(w.focused.is_none());
    w.frame("w", false);
    assert_eq!(w.text, "12", "a fly key typed after the press still went into the field");
    assert!(w.focused.is_none());
}

#[test]
fn a_press_over_a_panel_leaves_the_field_alone() {
    let mut w = Window::new("12");
    w.frame("", true);
    w.frame("", false);
    assert!(w.focused.is_some());

    assert!(!w.press(false));
    w.frame("3", false);
    assert_eq!(w.text, "123");
    assert!(w.focused.is_some());
}

#[test]
fn a_press_with_nothing_focused_is_a_no_op() {
    let mut w = Window::new("");
    w.frame("", false);
    assert!(!w.press(true));
}

#[test]
fn a_press_beside_the_panels_ends_typing_too() {
    assert_eq!(end_typing_on_press(false, false, Some(FIELD)), Some(FIELD));
    let ed = Editor::default();
    let ui = UiUnderPress { pointer_over_ui: true, focused: Some(FIELD) };
    assert_eq!(ed.viewport_press_ends_typing(Some(ui), Some(true), None), Some(FIELD));
    assert_eq!(ed.viewport_press_ends_typing(Some(ui), Some(false), Some(false)), None);
    assert_eq!(ed.viewport_press_ends_typing(None, Some(true), None), None);
}

// ---- picking ---------------------------------------------------------------

type V3 = [f64; 3];

fn minus(a: V3, b: V3) -> V3 {
    [a[0] - b[0], a[1] - b[1], a[2] - b[2]]
}

fn normalized(a: V3) -> V3 {
    let n = (a[0] * a[0] + a[1] * a[1] + a[2] * a[2]).sqrt();
    [a[0] / n, a[1] / n, a[2] / n]
}

/// A distance in micrometres, by which hits are ranked.
fn ranked(t: f64) -> i64 {
    (t * 1.0e6).round() as i64
}

/// Where a ray meets a box: where it enters it, or where it leaves it if it
/// begins inside.
fn ray_box(eye: V3, dir: V3, centre: V3, half: V3) -> Option<i64> {
    let (mut near, mut far) = (f64::NEG_INFINITY, f64::INFINITY);
    for k in 0..3 {
        let o = eye[k] - centre[k];
        if dir[k].abs() < 1.0e-12 {
            if o.abs() > half[k] {
                return None;
            }
            continue;
        }
        let (a, b) = ((-half[k] - o) / dir[k], (half[k] - o) / dir[k]);
        near = near.max(a.min(b));
        far = far.min(a.max(b));
    }
    if near > far || far < 0.0 {
        None
    } else if near >= 0.0 {
        Some(ranked(near))
    } else {
        Some(ranked(far))
    }
}

/// Where a ray strikes a floor of 100 by 100 at the height 0.
fn ray_floor(eye: V3, dir: V3) -> Option<i64> {
    if dir[1].abs() < 1.0e-12 {
        return None;
    }
    let t = -eye[1] / dir[1];
    let (x, z) = (eye[0] + t * dir[0], eye[2] + t * dir[2]);
    if t > 0.0 && x.abs() <= 50.0 && z.abs() <= 50.0 {
        Some(ranked(t))
    } else {
        None
    }
}

/// A cube at a place.
struct Cube {
    entity: u64,
    at: V3,
    half: f64,
}

/// What is picked in a scene of cubes and perhaps a floor.
fn pick(
    eye: V3,
    dir: V3,
    floor: Option<u64>,
    cubes: &[Cube],
    keep: impl Fn(u64) -> bool,
) -> Option<SceneHit> {
    let mut nodes = Vec::new();
    if let Some(f) = floor {
        nodes.push(RayNode {
            entity: f,
            kind: MatterKind::Mesh,
            kept: keep(f),
            placed: true,
            met: ray_box(eye, dir, [0.0; 3], [100.0; 3]),
        });
    }
    for c in cubes {
        nodes.push(RayNode {
            entity: c.entity,
            kind: MatterKind::Primitive,
            kept: keep(c.entity),
            placed: true,
            met: ray_box(eye, dir, c.at, [c.half * 1.5; 3]),
        });
    }
    let (by_extent, exact) = raycast_extents(&nodes);
    let by_triangles: Vec<Option<SceneHit>> = exact
        .iter()
        .map(|e| {
            let struck = match cubes.iter().find(|c| c.entity == *e) {
                Some(c) => ray_box(eye, dir, c.at, [c.half; 3]),
                None => ray_floor(eye, dir),
            };
            raycast_node_triangles(struck, false, None).map(|t| SceneHit { entity: *e, t })
        })
        .collect();
    raycast_nodes(by_extent, &by_triangles)
}

#[test]
fn a_click_selects_the_surface_under_the_cursor_not_the_biggest_bounds() {
    let floor = 1;
    let crate_ = 2;
    let far = 3;
    let cubes = [
        Cube { entity: crate_, at: [10.0, 0.7, 0.0], half: 0.7 },
        Cube { entity: far, at: [0.0, 5.0, -80.0], half: 0.7 },
    ];

    // A crate standing on the floor, clicked from well outside the floor's
    // bounding sphere: the crate, and its top face.
    let eye = [10.0, 60.0, 60.0];
    let rd = normalized(minus([10.0, 1.4, 0.0], eye));
    let hit = pick(eye, rd, Some(floor), &cubes, |_| true).expect("the crate is under the cursor");
    assert_eq!(hit.entity, crate_);
    let y = eye[1] + rd[1] * (hit.t as f64 / 1.0e6);
    assert!((y - 1.4).abs() < 1e-3, "{hit:?}");

    // The floor itself, where nothing stands on it.
    let rd = normalized(minus([-20.0, 0.0, 10.0], eye));
    assert_eq!(pick(eye, rd, Some(floor), &cubes, |_| true).map(|h| h.entity), Some(floor));

    // Level with the floor, through its bounds but over its surface: the node
    // behind it.
    let eye = [0.0, 5.0, 80.0];
    let forward = [0.0, 0.0, -1.0];
    assert_eq!(pick(eye, forward, Some(floor), &cubes, |_| true).map(|h| h.entity), Some(far));

    // Standing inside a room box: the crate in front, not the room.
    let room = 4;
    let near = 5;
    let cubes = [
        Cube { entity: room, at: [0.0; 3], half: 21.0 },
        Cube { entity: near, at: [0.0, 0.0, -5.0], half: 0.7 },
    ];
    assert_eq!(pick([0.0; 3], forward, None, &cubes, |_| true).map(|h| h.entity), Some(near));

    // And a node `keep` refuses is looked through.
    let hit = pick([0.0; 3], forward, None, &cubes, |e| e != near).expect("the room's wall");
    assert!((hit.t as f64 / 1.0e6 - 21.0).abs() < 1e-3, "{hit:?}");
}

#[test]
fn the_first_of_two_equal_hits_is_taken() {
    let a = SceneHit { entity: 1, t: 5 };
    let b = SceneHit { entity: 2, t: 5 };
    assert_eq!(raycast_nodes(Some(a), &vec![Some(b)]).map(|h| h.entity), Some(1));
    assert_eq!(raycast_nodes(None, &vec![None, Some(b), Some(a)]).map(|h| h.entity), Some(2));
    assert!(raycast_nodes(None, &vec![None]).is_none());
}

#[test]
fn a_model_with_a_rig_falls_back_on_its_bounds() {
    assert_eq!(raycast_node_triangles(Some(3), true, Some(1)), Some(3));
    assert_eq!(raycast_node_triangles(None, true, Some(1)), Some(1));
    assert_eq!(raycast_node_triangles(None, false, Some(1)), None);
    assert_eq!(pick_test(MatterKind::Mesh), PickTest::Triangles);
    assert_eq!(pick_test(MatterKind::Primitive), PickTest::Triangles);
    assert_eq!(pick_test(MatterKind::MapMesh), PickTest::Extent);
    assert_eq!(pick_test(MatterKind::Sprite), PickTest::Extent);
    assert_eq!(pick_test(MatterKind::Other), PickTest::Skip);
}

// ---- dragging --------------------------------------------------------------

#[test]
fn a_drag_does_what_its_tool_says() {
    let mut ed = Editor::default();
    ed.select_single(6);
    ed.snap = true;
    assert_eq!(ed.gizmo_drag(true, Tool::Move), DragStep::Nothing);
    ed.drag = Some(Drag { entity: 6, bone: None, handle: Handle::Axis { index: 1, positive: true } });
    assert_eq!(ed.gizmo_drag(false, Tool::Move), DragStep::Nothing);
    assert_eq!(
        ed.gizmo_drag(true, Tool::Move),
        DragStep::MoveAxis { entity: 6, axis: 1, snap: Snap::Point }
    );
    assert_eq!(
        ed.gizmo_drag(true, Tool::Rect),
        DragStep::PullFace { entity: 6, axis: 1, positive: true, snap: Snap::Distance }
    );
    ed.map.drag = Some(1);
    assert_eq!(
        ed.gizmo_drag(true, Tool::MapEdit),
        DragStep::MoveAxis { entity: 6, axis: 1, snap: Snap::Distance }
    );
    ed.map.drag = None;
    ed.snap = false;
    ed.drag = Some(Drag { entity: 6, bone: None, handle: Handle::Center });
    assert_eq!(
        ed.gizmo_drag(true, Tool::Move),
        DragStep::MovePlane { entity: 6, snap: Snap::Free }
    );
    assert_eq!(ed.gizmo_drag(true, Tool::Rotate), DragStep::RotateFree { entity: 6 });
    assert_eq!(ed.gizmo_drag(true, Tool::Scale), DragStep::ScaleEven { entity: 6 });
    ed.select_single(7);
    assert_eq!(ed.gizmo_drag(true, Tool::Move), DragStep::GiveUp);
    assert!(ed.drag.is_none());
}

#[test]
fn a_transform_is_written_where_the_node_hangs() {
    let mut ed = Editor::default();
    let free = Placement { on_bone: false, parent: None, has_transform: true };
    let child = Placement { on_bone: false, parent: Some(2), has_transform: true };
    let held = Placement { on_bone: true, parent: Some(2), has_transform: true };
    assert_eq!(ed.set_world_transform(1, free), WriteTo::World);
    assert_eq!(ed.set_world_transform(1, child), WriteTo::Local { parent: 2 });
    assert_eq!(ed.set_world_transform(1, held), WriteTo::BoneOffset);
    ed.drag = Some(Drag { entity: 1, bone: Some(4), handle: Handle::Center });
    assert_eq!(ed.set_world_transform(1, free), WriteTo::BonePose { idx: 4 });
    ed.pivot_edit = true;
    assert_eq!(ed.set_world_transform(1, free), WriteTo::BonePivot { idx: 4 });
    ed.map.drag = Some(8);
    assert_eq!(ed.set_world_transform(1, free), WriteTo::MapCorners);
}

#[test]
fn a_box_has_the_size_of_its_shape() {
    assert_eq!(
        rect_base_half(false, BoxedMatter::Cube),
        Some(BaseHalf::Hundredths { x: 70, y: 70, z: 70 })
    );
    assert_eq!(
        rect_base_half(false, BoxedMatter::Capsule),
        Some(BaseHalf::Hundredths { x: 50, y: 100, z: 50 })
    );
    assert_eq!(rect_base_half(false, BoxedMatter::Mesh), Some(BaseHalf::OfModel));
    assert_eq!(rect_base_half(true, BoxedMatter::Mesh), None);
    assert_eq!(rect_base_half(false, BoxedMatter::Other), None);
}

#[test]
fn a_bone_stands_where_its_pose_says() {
    assert_eq!(pose_source(Some(3), 5, 2), PoseSource::Live);
    assert_eq!(pose_source(Some(3), 5, 3), PoseSource::Rest);
    assert_eq!(pose_source(None, 5, 5), PoseSource::Still);
    let model = Rigged { has_rig: true, bones: 4, live: Some(4), rest: 4 };
    let mut ed = Editor::default();
    assert!(ed.bone_gizmo_target(model).is_none());
    assert!(ed.select_bone(9, 1));
    assert_eq!(ed.bone_gizmo_target(model), Some((9, 1, PoseSource::Live)));
    assert!(keys_pose(model, 1, true, 9, Some(9), true));
    assert!(!keys_pose(model, 4, true, 9, Some(9), true));
    assert!(!keys_pose(model, 1, false, 9, Some(9), true));
    assert!(!keys_pose(model, 1, true, 9, Some(8), true));
    assert!(!keys_pose(model, 1, true, 9, Some(9), false));
}

#[test]
fn the_camera_glides_to_the_node_that_was_selected_last() {
    let mut ed = Editor::default();
    assert_eq!(ed.focus_selected(true, BoxedMatter::Cube), None);
    ed.select_single(4);
    ed.select_toggle(7);
    assert_eq!(ed.focus_selected(true, BoxedMatter::Mesh), Some((7, FramedBy::Model)));
    assert_eq!(ed.focus_selected(true, BoxedMatter::Blob), Some((7, FramedBy::Blob)));
    assert_eq!(ed.focus_selected(true, BoxedMatter::Sphere), Some((7, FramedBy::Unit)));
    assert_eq!(ed.focus_selected(false, BoxedMatter::Mesh), None);
}

#[test]
fn a_bone_is_posed_in_the_frame_of_the_one_above() {
    assert_eq!(bone_frame(None, Some(4), 4), BoneFrame::Model);
    assert_eq!(
        bone_frame(Some(2), Some(4), 0),
        BoneFrame::Bone { parent: 2, pose: PoseSource::Live }
    );
    assert_eq!(
        bone_frame(Some(2), Some(2), 4),
        BoneFrame::Bone { parent: 2, pose: PoseSource::Rest }
    );
    assert_eq!(
        bone_frame(Some(2), None, 2),
        BoneFrame::Bone { parent: 2, pose: PoseSource::Still }
    );
}

#[test]
fn a_pivot_is_taken_where_the_bone_is_there() {
    let model = Rigged { has_rig: true, bones: 3, live: None, rest: 3 };
    assert!(takes_pivot(model, 2, true));
    assert!(!takes_pivot(model, 3, true));
    assert!(!takes_pivot(model, 2, false));
    assert!(!takes_pivot(Rigged { has_rig: false, ..model }, 0, true));
}

#[test]
fn only_nodes_of_the_scene_are_matter() {
    let mut ed = Editor::default();
    ed.select_single(4);
    ed.select_toggle(7);
    ed.select_toggle(9);
    assert_eq!(ed.selected_matter(&vec![9, 4, 5]), vec![4, 9]);
    assert!(ed.selected_matter(&vec![]).is_empty());
}
