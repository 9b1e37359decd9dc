//! What is selected, which tool is at work, and where a drag of the gizmo goes.
//!
//! A selection can be held. A held selection passes over every gesture that
//! would change it; the scene changing underneath is no gesture.

use crate::lists::{
    copied, first_place, lemma_filter_holds, lemma_filter_none, lemma_filter_step, lemma_first_place,
    place_of,
};
use vstd::prelude::*;

verus! {

/// The tools of the Scene view.
#[derive(Clone, Copy, Debug, PartialEq, Eq, Structural)]
pub enum Tool {
    Select,
    Move,
    Rotate,
    Scale,
    Rect,
    Sculpt,
    Paint,
    Tiles,
    MapEdit,
}

/// A panel that can be brought to the front.
#[derive(Clone, Copy, Debug, PartialEq, Eq, Structural)]
pub enum Panel {
    Terrain,
    Tiles,
    Paint,
    MapTools,
}

/// A handle of the gizmo: one of the three axes, or the middle.
#[derive(Clone, Copy, Debug, PartialEq, Eq, Structural)]
pub enum Handle {
    Axis { index: u8, positive: bool },
    Center,
}

/// A drag of the gizmo: the node that was grabbed, its bone where a bone was,
/// and the handle.
#[derive(Clone, Copy, Debug, PartialEq, Eq, Structural)]
pub struct Drag {
    pub entity: u64,
    pub bone: Option<usize>,
    pub handle: Handle,
}

/// What is under way in the map tool. The numbers stand for the outlines and
/// snapshots that are kept elsewhere.
#[derive(Clone, Copy, Debug, PartialEq, Eq, Structural)]
pub struct MapWork {
    /// The selected corners, edges or faces.
    pub sel: Option<u64>,
    /// A box that is being drawn round them.
    pub frame: Option<u64>,
    /// A shape that is half drawn.
    pub draw: Option<u64>,
    /// The shape that the next drag draws.
    pub arm: Option<u64>,
    /// Is the knife out?
    pub knife_on: bool,
    /// A cut that has begun.
    pub knife: Option<u64>,
    /// A drag of what is selected.
    pub drag: Option<u64>,
}

/// The first three buttons of the mouse, as scripts and the game's own widgets
/// are told of them.
#[derive(Clone, Copy, Debug, PartialEq, Eq)]
pub struct Buttons {
    /// Which are held.
    pub held: [bool; 3],
    /// Which went down since the last frame.
    pub pressed: [bool; 3],
    /// Which went down since the last tick.
    pub tick_pressed: [bool; 3],
    /// Did the first go down since this was last looked at?
    pub ui_pressed: bool,
    /// Did the first come up since this was last looked at?
    pub ui_released: bool,
}

/// The part of the editor that is about selecting and dragging. Nodes are known
/// by their numbers.
pub struct Editor {
    pub tool: Tool,
    pub grabbed: Option<Handle>,
    pub drag: Option<Drag>,
    pub map: MapWork,
    /// The selected nodes. The last is the one that was selected last.
    pub selection: Vec<u64>,
    pub selection_locked: bool,
    /// The selected bone: the node of its model, and its place in the rig.
    pub bone_selection: Option<(u64, usize)>,
    pub selected_asset: Option<u64>,
    /// The selected track of a particle effect.
    pub sel_track: Option<usize>,
    /// The folders that are closed in the Hierarchy. None is there twice.
    pub collapsed: Vec<u64>,
    pub buttons: Buttons,
    /// Does dragging a bone move its pivot?
    pub pivot_edit: bool,
    /// Does a drag keep to the grid?
    pub snap: bool,
}

impl Default for Editor {
    fn default() -> (out: Self)
        ensures
            out.tool == Tool::Select,
            out.grabbed is None,
            out.drag is None,
            out.map == no_map_work(),
            out.selection@ == Seq::<u64>::empty(),
            !out.selection_locked,
            out.bone_selection is None,
            out.selected_asset is None,
            out.sel_track is None,
            out.collapsed@ == Seq::<u64>::empty(),
            out.buttons == no_buttons(),
            !out.pivot_edit,
            !out.snap,
    {
        Editor {
            tool: Tool::Select,
            grabbed: None,
            drag: None,
            map: MapWork {
                sel: None,
                frame: None,
                draw: None,
                arm: None,
                knife_on: false,
                knife: None,
                drag: None,
            },
            selection: Vec::new(),
            selection_locked: false,
            bone_selection: None,
            selected_asset: None,
            sel_track: None,
            collapsed: Vec::new(),
            buttons: Buttons {
                held: [false, false, false],
                pressed: [false, false, false],
                tick_pressed: [false, false, false],
                ui_pressed: false,
                ui_released: false,
            },
            pivot_edit: false,
            snap: false,
        }
    }
}

/// Nothing is under way in the map tool.
pub open spec fn no_map_work() -> MapWork {
    MapWork {
        sel: None,
        frame: None,
        draw: None,
        arm: None,
        knife_on: false,
        knife: None,
        drag: None,
    }
}

/// No button is down, and none has been.
pub open spec fn no_buttons() -> Buttons {
    Buttons {
        held: [false, false, false],
        pressed: [false, false, false],
        tick_pressed: [false, false, false],
        ui_pressed: false,
        ui_released: false,
    }
}

/// The panel that belongs to a tool.
pub open spec fn panel_of(tool: Tool) -> Option<Panel> {
    match tool {
        Tool::Sculpt => Some(Panel::Terrain),
        Tool::Tiles => Some(Panel::Tiles),
        Tool::Paint => Some(Panel::Paint),
        Tool::MapEdit => Some(Panel::MapTools),
        _ => None,
    }
}

/// What is under way in the map tool once another tool is at work: only a drag.
pub open spec fn map_left(map: MapWork) -> MapWork {
    MapWork { drag: map.drag, ..no_map_work() }
}

// ---- gestures --------------------------------------------------------------

/// What is selected.
#[verifier::ext_equal]
pub struct SelectionModel {
    pub nodes: Seq<u64>,
    pub locked: bool,
    pub bone: Option<(u64, usize)>,
    pub asset: Option<u64>,
    pub track: Option<usize>,
}

/// A gesture that selects. Those that take their nodes from the scene carry the
/// nodes in the order of the scene.
pub enum Gesture {
    /// A node is clicked.
    Single(u64),
    /// A node is clicked, and added or taken away.
    Toggle(u64),
    /// Everything is selected.
    All(Seq<u64>),
    /// Empty space is clicked.
    Clear,
    /// The selection goes up or down by the arrow keys.
    Step(Seq<u64>, int),
    /// A bone is clicked.
    Bone(u64, usize),
}

/// The place to which the arrow keys go from what is selected now.
pub open spec fn stepped(nodes: Seq<u64>, order: Seq<u64>, delta: int) -> int {
    if nodes.len() > 0 && order.contains(nodes.last()) {
        let to = first_place(order, nodes.last()) + delta;
        if to < 0 {
            0
        } else if to >= order.len() {
            order.len() - 1
        } else {
            to
        }
    } else if delta > 0 {
        0
    } else {
        order.len() - 1
    }
}

/// What is selected once one node has been clicked.
pub open spec fn only(m: SelectionModel, e: u64) -> SelectionModel {
    SelectionModel { nodes: seq![e], bone: None, track: None, ..m }
}

/// What is selected after a gesture. A held selection passes over all of them,
/// but for a bone of a model that it holds.
pub open spec fn after_gesture(m: SelectionModel, g: Gesture) -> SelectionModel {
    match g {
        Gesture::Bone(mesh, idx) => if !m.locked {
            SelectionModel { nodes: seq![], bone: Some((mesh, idx)), asset: None, ..m }
        } else if m.nodes.contains(mesh) {
            SelectionModel { bone: Some((mesh, idx)), asset: None, ..m }
        } else {
            m
        },
        _ => if m.locked {
            m
        } else {
            match g {
                Gesture::Single(e) => only(m, e),
                Gesture::Toggle(e) => SelectionModel {
                    nodes: if m.nodes.contains(e) {
                        m.nodes.remove(first_place(m.nodes, e))
                    } else {
                        m.nodes.push(e)
                    },
                    track: None,
                    ..m
                },
                Gesture::All(nodes) => SelectionModel { nodes, ..m },
                Gesture::Clear => SelectionModel { nodes: seq![], ..m },
                Gesture::Step(order, delta) => if order.len() == 0 {
                    m
                } else {
                    only(m, order[stepped(m.nodes, order, delta)])
                },
                Gesture::Bone(_, _) => m,
            }
        },
    }
}

/// Selects a bone of `mesh`: the one rule, for every place in which a bone can
/// be clicked. Was the bone taken?
///
/// A held selection does not hold the rig. A bone of a model that is held is
/// part of that model, so it may be picked, and the model stays selected. A bone
/// of any other model is refused.
pub fn select_bone_into(
    selection: &mut Vec<u64>,
    bone_selection: &mut Option<(u64, usize)>,
    locked: bool,
    mesh: u64,
    idx: usize,
) -> (out: bool)
    ensures
        out == (!locked || old(selection)@.contains(mesh)),
        *final(bone_selection) == if out {
            Some((mesh, idx))
        } else {
            *old(bone_selection)
        },
        final(selection)@ == if locked {
            old(selection)@
        } else {
            seq![]
        },
{
    if locked {
        if place_of(selection, mesh) >= selection.len() {
            return false;
        }
        *bone_selection = Some((mesh, idx));
        return true;
    }
    *bone_selection = Some((mesh, idx));
    selection.clear();
    true
}

impl Editor {
    /// What is selected.
    pub open spec fn selected(&self) -> SelectionModel {
        SelectionModel {
            nodes: self.selection@,
            locked: self.selection_locked,
            bone: self.bone_selection,
            asset: self.selected_asset,
            track: self.sel_track,
        }
    }

    /// Does `self` differ from `other` at most in what is selected?
    pub open spec fn selects_apart_from(&self, other: Editor) -> bool {
        *self == (Editor {
            selection: self.selection,
            selection_locked: self.selection_locked,
            bone_selection: self.bone_selection,
            selected_asset: self.selected_asset,
            sel_track: self.sel_track,
            ..other
        })
    }

    /// Takes up a tool. A drag that is under way is given up, and so is what is
    /// half done in the map tool where another tool is taken up. What comes back
    /// is the panel to bring to the front.
    pub fn set_tool(&mut self, tool: Tool) -> (out: Option<Panel>)
        ensures
            out == panel_of(tool),
            *final(self) == (Editor {
                tool,
                grabbed: None,
                drag: None,
                map: if tool == Tool::MapEdit {
                    old(self).map
                } else {
                    map_left(old(self).map)
                },
                ..*old(self)
            }),
    {
        self.tool = tool;
        self.grabbed = None;
        self.drag = None;
        if tool != Tool::MapEdit {
            self.map.sel = None;
            self.map.frame = None;
            self.map.draw = None;
            self.map.arm = None;
            self.map.knife_on = false;
            self.map.knife = None;
        }
        match tool {
            Tool::Sculpt => Some(Panel::Terrain),
            Tool::Tiles => Some(Panel::Tiles),
            Tool::Paint => Some(Panel::Paint),
            Tool::MapEdit => Some(Panel::MapTools),
            _ => None,
        }
    }

    /// The node on which the gizmo and the Inspector act: the one that was
    /// selected last.
    pub fn primary(&self) -> (out: Option<u64>)
        ensures
            out == if self.selection@.len() > 0 {
                Some(self.selection@.last())
            } else {
                None
            },
    {
        if self.selection.len() > 0 {
            Some(self.selection[self.selection.len() - 1])
        } else {
            None
        }
    }

    /// The one gate that every gesture passes through.
    pub fn selection_gesture_blocked(&self) -> (out: bool)
        ensures
            out == self.selection_locked,
    {
        self.selection_locked
    }

    /// Holds the selection, or lets it go. An empty selection cannot be held:
    /// the switch is drawn for the selected node, so it would hide itself.
    pub fn toggle_selection_lock(&mut self)
        ensures
            *final(self) == (Editor {
                selection_locked: !old(self).selection_locked && old(self).selection@.len() > 0,
                ..*old(self)
            }),
    {
        if self.selection_locked {
            self.selection_locked = false;
        } else if self.selection.len() > 0 {
            self.selection_locked = true;
        }
    }

    /// Lets go of a selection that the scene has emptied.
    pub fn enforce_selection_lock(&mut self)
        ensures
            *final(self) == (Editor {
                selection_locked: old(self).selection_locked && old(self).selection@.len() > 0,
                ..*old(self)
            }),
    {
        if self.selection_locked && self.selection.len() == 0 {
            self.selection_locked = false;
        }
    }

    /// Selects a bone of `mesh`. Was it taken?
    pub fn select_bone(&mut self, mesh: u64, idx: usize) -> (out: bool)
        ensures
            out == (!old(self).selection_locked || old(self).selection@.contains(mesh)),
            final(self).selected() == after_gesture(
                old(self).selected(),
                Gesture::Bone(mesh, idx),
            ),
            final(self).selects_apart_from(*old(self)),
    {
        if !select_bone_into(
            &mut self.selection,
            &mut self.bone_selection,
            self.selection_locked,
            mesh,
            idx,
        ) {
            assert(self.selected() =~= old(self).selected());
            return false;
        }
        self.selected_asset = None;
        true
    }

    /// Clears the selection, as a click into empty space does.
    pub fn clear_selection(&mut self)
        ensures
            final(self).selected() == after_gesture(old(self).selected(), Gesture::Clear),
            final(self).selects_apart_from(*old(self)),
    {
        if self.selection_gesture_blocked() {
            return;
        }
        self.selection.clear();
        assert(self.selected() =~= after_gesture(old(self).selected(), Gesture::Clear));
    }

    /// Selects one node. The Inspector goes back to it from a track or a bone.
    pub fn select_single(&mut self, e: u64)
        ensures
            final(self).selected() == after_gesture(old(self).selected(), Gesture::Single(e)),
            final(self).selects_apart_from(*old(self)),
    {
        if self.selection_gesture_blocked() {
            return;
        }
        self.selection.clear();
        self.selection.push(e);
        self.sel_track = None;
        self.bone_selection = None;
        assert(self.selected() =~= after_gesture(old(self).selected(), Gesture::Single(e)));
    }

    /// Adds a node to the selection, or takes it away.
    pub fn select_toggle(&mut self, e: u64)
        ensures
            final(self).selected() == after_gesture(old(self).selected(), Gesture::Toggle(e)),
            final(self).selects_apart_from(*old(self)),
    {
        if self.selection_gesture_blocked() {
            return;
        }
        let i: usize = place_of(&self.selection, e);
        if i < self.selection.len() {
            let _taken: u64 = self.selection.remove(i);
        } else {
            self.selection.push(e);
        }
        self.sel_track = None;
        assert(self.selected() =~= after_gesture(old(self).selected(), Gesture::Toggle(e)));
    }

    /// Selects every node of the scene.
    pub fn select_all(&mut self, nodes: &Vec<u64>)
        ensures
            final(self).selected() == after_gesture(old(self).selected(), Gesture::All(nodes@)),
            final(self).selects_apart_from(*old(self)),
    {
        if self.selection_gesture_blocked() {
            return;
        }
        self.selection = copied(nodes);
    }

    /// The nodes on which a button of the Inspector acts: the whole selection
    /// where `e` is one of several that are selected, else `e` alone.
    pub fn selected_group(&self, e: u64) -> (out: Vec<u64>)
        ensures
            out@ == if self.selection@.len() > 1 && self.selection@.contains(e) {
                self.selection@
            } else {
                seq![e]
            },
    {
        if self.selection.len() > 1 && place_of(&self.selection, e) < self.selection.len() {
            copied(&self.selection)
        } else {
            let mut out: Vec<u64> = Vec::new();
            out.push(e);
            assert(out@ =~= seq![e]);
            out
        }
    }

    /// The selected nodes that are nodes of the scene, `nodes`.
    pub fn selected_matter(&self, nodes: &Vec<u64>) -> (out: Vec<u64>)
        ensures
            out@ == self.selection@.filter(|e: u64| nodes@.contains(e)),
    {
        let ghost keep = |e: u64| nodes@.contains(e);
        let mut out: Vec<u64> = Vec::new();
        let mut i: usize = 0;
        proof {
            lemma_filter_none(self.selection@, keep);
        }
        while i < self.selection.len()
            invariant
                i <= self.selection.len(),
                keep == (|e: u64| nodes@.contains(e)),
                out@ == self.selection@.take(i as int).filter(keep),
            decreases self.selection.len() - i,
        {
            proof {
                lemma_filter_step(self.selection@, i as int, keep);
            }
            let e: u64 = self.selection[i];
            if place_of(nodes, e) < nodes.len() {
                out.push(e);
            }
            i += 1;
        }
        assert(self.selection@.take(i as int) =~= self.selection@);
        out
    }

    /// Moves the selection up or down through the scene, whose nodes are
    /// `order`.
    pub fn step_selection(&mut self, delta: i32, order: &Vec<u64>)
        ensures
            final(self).selected() == after_gesture(
                old(self).selected(),
                Gesture::Step(order@, delta as int),
            ),
            final(self).selects_apart_from(*old(self)),
    {
        if self.selection_gesture_blocked() {
            return;
        }
        if order.len() == 0 {
            return;
        }
        let last: usize = order.len() - 1;
        let found: Option<usize> = match self.primary() {
            Some(e) => {
                let i: usize = place_of(order, e);
                if i < order.len() {
                    Some(i)
                } else {
                    None
                }
            },
            None => None,
        };
        let next: usize = match found {
            Some(i) => {
                let to: i128 = i as i128 + delta as i128;
                if to < 0 {
                    0
                } else if to > last as i128 {
                    last
                } else {
                    to as usize
                }
            },
            None => if delta > 0 {
                0
            } else {
                last
            },
        };
        assert(next == stepped(self.selection@, order@, delta as int));
        self.select_single(order[next]);
    }

    /// Closes the selected folder in the Hierarchy, or opens it. Only a node
    /// that holds nothing of its own is a folder.
    pub fn toggle_folder_selected(&mut self, is_folder: bool)
        ensures
            *final(self) == (Editor { collapsed: final(self).collapsed, ..*old(self) }),
            old(self).collapsed@.no_duplicates() ==> final(self).collapsed@.no_duplicates() && (
            old(self).selection@.len() > 0 && is_folder ==> final(self).collapsed@.contains(
                old(self).selection@.last(),
            ) == !old(self).collapsed@.contains(old(self).selection@.last())),
            final(self).collapsed@ == if old(self).selection@.len() == 0 || !is_folder {
                old(self).collapsed@
            } else if old(self).collapsed@.contains(old(self).selection@.last()) {
                old(self).collapsed@.remove(
                    first_place(old(self).collapsed@, old(self).selection@.last()),
                )
            } else {
                old(self).collapsed@.push(old(self).selection@.last())
            },
    {
        if let Some(e) = self.primary() {
            if is_folder {
                let i: usize = place_of(&self.collapsed, e);
                if i < self.collapsed.len() {
                    let _opened: u64 = self.collapsed.remove(i);
                } else {
                    self.collapsed.push(e);
                }
                proof {
                    lemma_flipped(old(self).collapsed@, e, i as int);
                }
            }
        }
    }

    /// Is the cursor over the Scene view? `hit` says so where there is a view to
    /// ask.
    pub fn cursor_over_scene(&self, hit: Option<bool>) -> (out: bool)
        ensures
            out == (hit == Some(true)),
    {
        match hit {
            Some(h) => h,
            None => false,
        }
    }

    /// Is the cursor over the Game view? `hit` says so where there is a view to
    /// ask.
    pub fn cursor_over_game(&self, hit: Option<bool>) -> (out: bool)
        ensures
            out == (hit == Some(true)),
    {
        match hit {
            Some(h) => h,
            None => false,
        }
    }

    /// A button of the mouse went down: which field is done with being typed
    /// into? `ui` is what the panels say, where there are any.
    pub fn viewport_press_ends_typing(
        &self,
        ui: Option<UiUnderPress>,
        over_scene: Option<bool>,
        over_game: Option<bool>,
    ) -> (out: Option<u64>)
        ensures
            out == match ui {
                Some(u) => typing_ended(
                    over_scene == Some(true) || over_game == Some(true),
                    u.pointer_over_ui,
                    u.focused,
                ),
                None => None,
            },
    {
        match ui {
            Some(u) => {
                let over: bool = self.cursor_over_scene(over_scene) || self.cursor_over_game(
                    over_game,
                );
                end_typing_on_press(over, u.pointer_over_ui, u.focused)
            },
            None => None,
        }
    }

    /// Notes that a button of the mouse went down or came up. A press counts
    /// once, until the button has come up. Whether the first button went down
    /// and came up is kept even where both happen within one frame. What comes back
    /// is told to the actions: they know every button, not the first three alone.
    pub fn track_mouse_button(&mut self, i: usize, pressed: bool) -> (out: ButtonNote)
        ensures
            out == (ButtonNote { button: i, pressed }),
            *final(self) == (Editor { buttons: final(self).buttons, ..*old(self) }),
            i >= 3 ==> final(self).buttons == old(self).buttons,
            i < 3 ==> {
                let was = old(self).buttons;
                let now = final(self).buttons;
                let edge = pressed && !was.held@[i as int];
                &&& now.held@ == was.held@.update(i as int, pressed)
                &&& now.pressed@ == was.pressed@.update(
                    i as int,
                    was.pressed@[i as int] || edge,
                )
                &&& now.tick_pressed@ == was.tick_pressed@.update(
                    i as int,
                    was.tick_pressed@[i as int] || edge,
                )
                &&& now.ui_pressed == (was.ui_pressed || (i == 0 && pressed))
                &&& now.ui_released == (was.ui_released || (i == 0 && !pressed))
            },
    {
        if i < 3 {
            let ghost was = self.buttons;
            if pressed && !self.buttons.held[i] {
                self.buttons.pressed[i] = true;
                self.buttons.tick_pressed[i] = true;
            }
            if i == 0 {
                if pressed {
                    self.buttons.ui_pressed = true;
                } else {
                    self.buttons.ui_released = true;
                }
            }
            self.buttons.held[i] = pressed;
            proof {
                let edge = pressed && !was.held@[i as int];
                assert(self.buttons.pressed@ =~= was.pressed@.update(
                    i as int,
                    was.pressed@[i as int] || edge,
                ));
                assert(self.buttons.tick_pressed@ =~= was.tick_pressed@.update(
                    i as int,
                    was.tick_pressed@[i as int] || edge,
                ));
            }
        }
        ButtonNote { button: i, pressed }
    }
}

/// What is taken out of a list without doubles, or put behind it, leaves none.
proof fn lemma_flipped(s: Seq<u64>, e: u64, i: int)
    requires
        0 <= i <= s.len(),
        i < s.len() ==> s[i] == e,
        i == s.len() ==> !s.contains(e),
    ensures
        s.no_duplicates() && i < s.len() ==> s.remove(i).no_duplicates() && !s.remove(i).contains(
            e,
        ),
        i == s.len() ==> s.push(e).contains(e) && (s.no_duplicates() ==> s.push(
            e,
        ).no_duplicates()),
{
    if i < s.len() {
        let less = s.remove(i);
        if s.no_duplicates() && less.contains(e) {
            let k = choose|k: int| 0 <= k < less.len() && less[k] == e;
            if k < i {
                assert(s[k] == e);
            } else {
                assert(s[k + 1] == e);
            }
        }
    } else {
        assert(s.push(e)[i] == e);
    }
}

/// What the actions are told of a button of the mouse.
#[derive(Clone, Copy, Debug, PartialEq, Eq, Structural)]
pub struct ButtonNote {
    pub button: usize,
    pub pressed: bool,
}

/// What the panels say of a press.
#[derive(Clone, Copy, Debug, PartialEq, Eq, Structural)]
pub struct UiUnderPress {
    /// Is the pointer over the panels? Over a view that is docked among them it
    /// is.
    pub pointer_over_ui: bool,
    /// The field that is being typed into.
    pub focused: Option<u64>,
}

/// The field that loses the keyboard to a press: the one that has it, unless the
/// press is for the panels.
pub open spec fn typing_ended(
    over_viewport: bool,
    pointer_over_ui: bool,
    focused: Option<u64>,
) -> Option<u64> {
    if !over_viewport && pointer_over_ui {
        None
    } else {
        focused
    }
}

/// The field that loses the keyboard to a press that the panels never see.
pub fn end_typing_on_press(
    over_viewport: bool,
    pointer_over_ui: bool,
    focused: Option<u64>,
) -> (out: Option<u64>)
    ensures
        out == typing_ended(over_viewport, pointer_over_ui, focused),
{
    if !over_viewport && pointer_over_ui {
        return None;
    }
    focused
}

/// A held selection passes over every gesture: the selected nodes stay. A bone
/// may be picked only where its model is held.
pub proof fn law_a_held_selection_stays(m: SelectionModel, g: Gesture)
    requires
        m.locked,
    ensures
        after_gesture(m, g).nodes == m.nodes,
        after_gesture(m, g).locked,
        after_gesture(m, g) != m ==> (g matches Gesture::Bone(mesh, _) && m.nodes.contains(mesh)),
{
}

/// No gesture leaves the editor with a lock over nothing.
pub proof fn law_no_gesture_empties_a_held_selection(m: SelectionModel, g: Gesture)
    requires
        m.locked ==> m.nodes.len() > 0,
    ensures
        after_gesture(m, g).locked ==> after_gesture(m, g).nodes.len() > 0,
{
}

/// A bone that is picked while nothing is held takes the place of the selected
/// nodes, and a node that is picked takes the place of the bone.
pub proof fn law_a_bone_and_a_node_exclude_each_other(
    m: SelectionModel,
    mesh: u64,
    idx: usize,
    e: u64,
)
    requires
        !m.locked,
    ensures
        after_gesture(m, Gesture::Bone(mesh, idx)).nodes.len() == 0,
        after_gesture(m, Gesture::Single(e)).bone is None,
{
}

/// Adding a node and taking it away again changes nothing of what is selected.
pub proof fn law_toggling_twice_changes_nothing(m: SelectionModel, e: u64)
    requires
        !m.locked,
        !m.nodes.contains(e),
    ensures
        after_gesture(after_gesture(m, Gesture::Toggle(e)), Gesture::Toggle(e)).nodes == m.nodes,
{
    let more = m.nodes.push(e);
    assert(more[m.nodes.len() as int] == e);
    lemma_first_place(more, e);
    let i = first_place(more, e);
    if i < m.nodes.len() {
        assert(m.nodes[i] == e);
    }
    assert(more.remove(i) =~= m.nodes);
}

/// A tool brings its own panel to the front, and no two tools the same; a tool that moves,
/// turns, scales or selects brings none.
pub proof fn law_a_tool_brings_its_own_panel(tool: Tool)
    ensures
        panel_of(tool) == Some(Panel::Terrain) <==> tool is Sculpt,
        panel_of(tool) == Some(Panel::Tiles) <==> tool is Tiles,
        panel_of(tool) == Some(Panel::Paint) <==> tool is Paint,
        panel_of(tool) == Some(Panel::MapTools) <==> tool is MapEdit,
{
}

/// Of what is under way in the map tool only a drag outlives the tool; what is given up once
/// stays so.
pub proof fn law_only_a_drag_outlives_the_map_tool(map: MapWork)
    ensures
        ({
            let left = map_left(map);
            &&& left.drag == map.drag
            &&& left.sel is None && left.frame is None && left.draw is None && left.arm is None
            &&& left.knife is None && !left.knife_on
            &&& map_left(left) == left
        }),
{
}

/// A click on a node selects it alone: no other node, no bone and no track. What is chosen
/// in the Assets panel is not touched.
pub proof fn law_a_click_selects_one_node(m: SelectionModel, e: u64, k: u64)
    requires
        !m.locked,
    ensures
        ({
            let n = after_gesture(m, Gesture::Single(e));
            &&& n.nodes.contains(k) <==> k == e
            &&& n.nodes.len() == 1
            &&& n.bone is None && n.track is None
            &&& n.asset == m.asset && !n.locked
        }),
{
    let n = after_gesture(m, Gesture::Single(e));
    assert(n.nodes[0] == e);
}

/// Adding or taking away a node changes whether that node is selected, and of no other. A
/// node that is added is the one that was selected last. The bone and the asset stay.
pub proof fn law_a_toggle_changes_one_node(m: SelectionModel, e: u64, k: u64)
    requires
        !m.locked,
        m.nodes.no_duplicates(),
    ensures
        ({
            let n = after_gesture(m, Gesture::Toggle(e));
            &&& n.nodes.no_duplicates()
            &&& n.nodes.contains(k) <==> (m.nodes.contains(k) != (k == e))
            &&& !m.nodes.contains(e) ==> n.nodes.last() == e && n.nodes.len() == m.nodes.len() + 1
            &&& m.nodes.contains(e) ==> n.nodes.len() == m.nodes.len() - 1
            &&& n.track is None && n.bone == m.bone && n.asset == m.asset && !n.locked
        }),
{
    let n = after_gesture(m, Gesture::Toggle(e));
    lemma_first_place(m.nodes, e);
    let p = first_place(m.nodes, e);
    lemma_flipped(m.nodes, e, p);
    if m.nodes.contains(e) {
        if m.nodes.contains(k) && k != e {
            let i = choose|i: int| 0 <= i < m.nodes.len() && m.nodes[i] == k;
            assert(n.nodes[if i < p {
                i
            } else {
                i - 1
            }] == k);
        }
        if n.nodes.contains(k) {
            let i = choose|i: int| 0 <= i < n.nodes.len() && n.nodes[i] == k;
            assert(m.nodes[if i < p {
                i
            } else {
                i + 1
            }] == k);
        }
    } else {
        if m.nodes.contains(k) {
            let i = choose|i: int| 0 <= i < m.nodes.len() && m.nodes[i] == k;
            assert(n.nodes[i] == k);
        }
        assert(n.nodes[m.nodes.len() as int] == e);
    }
}

/// Selecting everything selects every node that is there, and a click into empty space
/// none. Neither touches a bone, a track or an asset.
pub proof fn law_all_and_nothing_are_what_they_say(m: SelectionModel, all: Seq<u64>)
    requires
        !m.locked,
    ensures
        after_gesture(m, Gesture::All(all)).nodes == all,
        after_gesture(m, Gesture::Clear).nodes == Seq::<u64>::empty(),
        after_gesture(after_gesture(m, Gesture::All(all)), Gesture::Clear) == after_gesture(
            m,
            Gesture::Clear,
        ),
        after_gesture(m, Gesture::All(all)) == (SelectionModel { nodes: all, ..m }),
        after_gesture(m, Gesture::Clear).bone == m.bone,
        after_gesture(m, Gesture::Clear).asset == m.asset,
        after_gesture(m, Gesture::Clear).track == m.track,
{
}

/// The arrow keys select one node of the scene, as far from the one that was selected last
/// as they say; at the ends they stop. From nothing, down goes to the first node and up to
/// the last.
pub proof fn law_the_arrow_keys_walk_the_scene(m: SelectionModel, order: Seq<u64>, delta: int)
    requires
        !m.locked,
        order.len() > 0,
        order.no_duplicates(),
    ensures
        ({
            let n = after_gesture(m, Gesture::Step(order, delta));
            &&& n.nodes.len() == 1 && order.contains(n.nodes[0])
            &&& n.bone is None && n.track is None && n.asset == m.asset
            &&& forall|p: int|
                0 <= p < order.len() && m.nodes.len() > 0 && #[trigger] order[p] == m.nodes.last()
                    ==> (0 <= p + delta < order.len() ==> n.nodes[0] == order[p + delta]) && (p
                    + delta < 0 ==> n.nodes[0] == order.first()) && (p + delta >= order.len() ==>
                    n.nodes[0] == order.last())
            &&& m.nodes.len() == 0 && delta > 0 ==> n.nodes[0] == order.first()
            &&& m.nodes.len() == 0 && delta <= 0 ==> n.nodes[0] == order.last()
        }),
{
    let n = after_gesture(m, Gesture::Step(order, delta));
    let at = stepped(m.nodes, order, delta);
    if m.nodes.len() > 0 {
        lemma_first_place(order, m.nodes.last());
    }
    assert(0 <= at < order.len());
    assert(n.nodes[0] == order[at]);
}

/// A step within the scene and the same step back select what was selected before.
pub proof fn law_a_step_can_be_taken_back(m: SelectionModel, order: Seq<u64>, p: int, delta: int)
    requires
        !m.locked,
        order.no_duplicates(),
        0 <= p < order.len(),
        0 <= p + delta < order.len(),
        m.nodes == seq![order[p]],
    ensures
        after_gesture(
            after_gesture(m, Gesture::Step(order, delta)),
            Gesture::Step(order, -delta),
        ).nodes == m.nodes,
{
    law_the_arrow_keys_walk_the_scene(m, order, delta);
    let n = after_gesture(m, Gesture::Step(order, delta));
    assert(m.nodes.last() == order[p]);
    assert(n.nodes.last() == order[p + delta]);
    law_the_arrow_keys_walk_the_scene(n, order, -delta);
    assert(after_gesture(n, Gesture::Step(order, -delta)).nodes =~= m.nodes);
}

/// A bone is taken exactly where nothing is held or its model is. Then it is the very bone
/// that was clicked, and no asset is chosen any more; where it is refused nothing changes.
pub proof fn law_a_bone_is_taken_with_its_model(m: SelectionModel, mesh: u64, idx: usize)
    ensures
        ({
            let n = after_gesture(m, Gesture::Bone(mesh, idx));
            let taken = !m.locked || m.nodes.contains(mesh);
            &&& taken ==> n.bone == Some((mesh, idx)) && n.asset is None
            &&& !taken ==> n == m
            &&& m.locked ==> n.nodes == m.nodes
            &&& n.locked == m.locked && n.track == m.track
        }),
{
}

/// A press ends the typing of the field that has the keyboard, and of no other. In a view it
/// always does; outside the views it does unless it falls on the panels.
pub proof fn law_a_press_in_a_view_ends_typing(focused: Option<u64>, over_ui: bool)
    ensures
        typing_ended(true, over_ui, focused) == focused,
        typing_ended(false, true, focused) is None,
        typing_ended(false, false, focused) == focused,
{
}

// ---- picking ---------------------------------------------------------------

/// What a node of the scene is, as far as picking goes.
#[derive(Clone, Copy, Debug, PartialEq, Eq, Structural)]
pub enum MatterKind {
    Primitive,
    Blob,
    FieldShape,
    Mesh,
    MapMesh,
    Tilemap,
    SpriteBatch,
    Sprite,
    /// Nothing that is drawn as a surface: it is selected in the Hierarchy.
    Other,
}

/// How a ray is tested against a node.
#[derive(Clone, Copy, Debug, PartialEq, Eq, Structural)]
pub enum PickTest {
    /// Bounds admit it, and its triangles decide.
    Triangles,
    /// What stands for its drawn extent decides.
    Extent,
    /// It is not tested.
    Skip,
}

/// How a ray is tested against a node of this kind.
pub open spec fn test_for(kind: MatterKind) -> PickTest {
    match kind {
        MatterKind::Primitive | MatterKind::Mesh => PickTest::Triangles,
        MatterKind::Other => PickTest::Skip,
        _ => PickTest::Extent,
    }
}

/// How a ray is tested against a node of this kind.
pub fn pick_test(kind: MatterKind) -> (out: PickTest)
    ensures
        out == test_for(kind),
{
    match kind {
        MatterKind::Primitive | MatterKind::Mesh => PickTest::Triangles,
        MatterKind::Other => PickTest::Skip,
        _ => PickTest::Extent,
    }
}

/// A node under a ray. Distances are numbers that stand in the order of the
/// distances along the ray.
#[derive(Clone, Copy, Debug, PartialEq, Eq, Structural)]
pub struct RayNode {
    pub entity: u64,
    pub kind: MatterKind,
    /// Is the node looked at, rather than looked through?
    pub kept: bool,
    /// Can the ray be taken into the node's own frame?
    pub placed: bool,
    /// Where the ray meets the node's bounds or extent.
    pub met: Option<i64>,
}

/// Where a ray struck a node.
#[derive(Clone, Copy, Debug, PartialEq, Eq, Structural)]
pub struct SceneHit {
    pub entity: u64,
    pub t: i64,
}

/// The better of the best so far and one more hit: the nearer, and the earlier
/// of two that are equally near.
pub open spec fn nearer(best: Option<SceneHit>, hit: SceneHit) -> Option<SceneHit> {
    match best {
        Some(b) => if hit.t < b.t {
            Some(hit)
        } else {
            best
        },
        None => Some(hit),
    }
}

/// The hit that a node offers by its extent.
pub open spec fn extent_hit(n: RayNode) -> Option<SceneHit> {
    if n.kept && n.placed && test_for(n.kind) == PickTest::Extent && n.met is Some {
        Some(SceneHit { entity: n.entity, t: n.met->Some_0 })
    } else {
        None
    }
}

/// Do the triangles of a node have to decide?
pub open spec fn is_admitted(n: RayNode) -> bool {
    n.kept && n.placed && test_for(n.kind) == PickTest::Triangles && n.met is Some
}

/// The best of the hits that are there, from the first on.
pub open spec fn best_of(best: Option<SceneHit>, hits: Seq<Option<SceneHit>>) -> Option<SceneHit>
    decreases hits.len(),
{
    if hits.len() == 0 {
        best
    } else {
        let front = best_of(best, hits.drop_last());
        match hits.last() {
            Some(h) => nearer(front, h),
            None => front,
        }
    }
}

/// The nearest hit by extent, and the nodes of which the triangles have to
/// decide.
pub fn raycast_extents(nodes: &Vec<RayNode>) -> (out: (Option<SceneHit>, Vec<u64>))
    ensures
        out.0 == best_of(None, nodes@.map_values(|n: RayNode| extent_hit(n))),
        out.1@ == nodes@.filter(|n: RayNode| is_admitted(n)).map_values(|n: RayNode| n.entity),
{
    let mut best: Option<SceneHit> = None;
    let mut exact: Vec<u64> = Vec::new();
    let ghost keep = |n: RayNode| is_admitted(n);
    let ghost name = |n: RayNode| n.entity;
    let ghost hits = nodes@.map_values(|n: RayNode| extent_hit(n));
    let mut i: usize = 0;
    proof {
        lemma_filter_none(nodes@, keep);
    }
    assert(exact@ =~= nodes@.take(0).filter(keep).map_values(name));
    while i < nodes.len()
        invariant
            i <= nodes.len(),
            keep == (|n: RayNode| is_admitted(n)),
            name == (|n: RayNode| n.entity),
            hits == nodes@.map_values(|n: RayNode| extent_hit(n)),
            best == best_of(None, hits.take(i as int)),
            exact@ == nodes@.take(i as int).filter(keep).map_values(name),
        decreases nodes.len() - i,
    {
        let n: RayNode = nodes[i];
        proof {
            lemma_filter_step(nodes@, i as int, keep);
            assert(hits.take(i + 1).drop_last() =~= hits.take(i as int));
        }
        if n.kept && n.placed {
            match (pick_test(n.kind), n.met) {
                (PickTest::Extent, Some(t)) => {
                    let hit: SceneHit = SceneHit { entity: n.entity, t };
                    best = offer(best, hit);
                },
                (PickTest::Triangles, Some(_)) => {
                    exact.push(n.entity);
                },
                _ => {},
            }
        }
        assert(exact@ =~= nodes@.take(i + 1).filter(keep).map_values(name));
        i += 1;
    }
    proof {
        lemma_filter_none(nodes@, keep);
        assert(hits.take(i as int) =~= hits);
    }
    (best, exact)
}

/// The better of the best so far and one more hit.
fn offer(best: Option<SceneHit>, hit: SceneHit) -> (out: Option<SceneHit>)
    ensures
        out == nearer(best, hit),
{
    match best {
        Some(b) => if hit.t < b.t {
            Some(hit)
        } else {
            best
        },
        None => Some(hit),
    }
}

/// The nearest hit of all, once the triangles have been asked: the best by
/// extent, and what came of each node whose triangles decide.
pub fn raycast_nodes(by_extent: Option<SceneHit>, by_triangles: &Vec<Option<SceneHit>>) -> (out:
    Option<SceneHit>)
    ensures
        out == best_of(by_extent, by_triangles@),
{
    let mut best: Option<SceneHit> = by_extent;
    let mut i: usize = 0;
    while i < by_triangles.len()
        invariant
            i <= by_triangles.len(),
            best == best_of(by_extent, by_triangles@.take(i as int)),
        decreases by_triangles.len() - i,
    {
        assert(by_triangles@.take(i + 1).drop_last() =~= by_triangles@.take(i as int));
        if let Some(hit) = by_triangles[i] {
            best = offer(best, hit);
        }
        i += 1;
    }
    assert(by_triangles@.take(i as int) =~= by_triangles@);
    best
}

/// Where a ray strikes a node's surface: its triangles where they are struck,
/// else the tight bounds of a model with a rig, whose pose on screen is not the
/// one in which its triangles are stored.
pub fn raycast_node_triangles(
    triangles: Option<i64>,
    rigged: bool,
    bounds: Option<i64>,
) -> (out: Option<i64>)
    ensures
        out == if triangles is Some {
            triangles
        } else if rigged {
            bounds
        } else {
            None
        },
{
    if triangles.is_some() {
        triangles
    } else if rigged {
        bounds
    } else {
        None
    }
}

/// What is picked is the nearest of all hits, ranked by the hit and by nothing
/// else; and something is picked where anything was hit.
pub proof fn law_the_nearest_hit_is_picked(
    best: Option<SceneHit>,
    hits: Seq<Option<SceneHit>>,
)
    ensures
        best is Some ==> best_of(best, hits) is Some && best_of(best, hits)->Some_0.t
            <= best->Some_0.t,
        forall|i: int|
            0 <= i < hits.len() && (#[trigger] hits[i]) is Some ==> best_of(best, hits) is Some
                && best_of(best, hits)->Some_0.t <= hits[i]->Some_0.t,
        best_of(best, hits) is Some ==> best_of(best, hits) == best || hits.contains(
            best_of(best, hits),
        ),
    decreases hits.len(),
{
    if hits.len() > 0 {
        let front = hits.drop_last();
        law_the_nearest_hit_is_picked(best, front);
        assert forall|i: int| 0 <= i < hits.len() && (#[trigger] hits[i]) is Some implies best_of(
            best,
            hits,
        ) is Some && best_of(best, hits)->Some_0.t <= hits[i]->Some_0.t by {
            if i < front.len() {
                assert(front[i] == hits[i]);
            }
        }
        if best_of(best, hits) is Some && best_of(best, hits) != best {
            if best_of(best, hits) == best_of(best, front) {
                let k = choose|k: int| 0 <= k < front.len() && front[k] == best_of(best, front);
                assert(hits[k] == front[k]);
            } else {
                assert(hits[hits.len() - 1] == best_of(best, hits));
            }
        }
    }
}

/// A node that is looked through is never picked by its extent, and its
/// triangles are never asked.
pub proof fn law_a_refused_node_is_looked_through(n: RayNode)
    requires
        !n.kept,
    ensures
        extent_hit(n) is None,
        !is_admitted(n),
{
}

/// Triangles decide for models and plain shapes alone, and what is not drawn as a surface is
/// never tested: every other node is hit by its extent.
pub proof fn law_a_node_is_tested_in_one_way(n: RayNode)
    ensures
        test_for(n.kind) is Triangles <==> n.kind is Primitive || n.kind is Mesh,
        test_for(n.kind) is Skip <==> n.kind is Other,
        !(extent_hit(n) is Some && is_admitted(n)),
        n.kept && n.placed && n.met is Some ==> (extent_hit(n) is Some || is_admitted(n) <==> !(
        n.kind is Other)),
        !n.placed || n.met is None ==> extent_hit(n) is None && !is_admitted(n),
        extent_hit(n) matches Some(h) ==> h.entity == n.entity && n.met == Some(h.t),
{
}

/// Of hits that are equally near the first is picked: all before it are farther.
pub proof fn law_the_first_of_the_nearest_is_picked(hits: Seq<Option<SceneHit>>)
    ensures
        best_of(None, hits) matches Some(h) ==> exists|i: int|
            0 <= i < hits.len() && #[trigger] hits[i] == Some(h) && forall|j: int|
                0 <= j < i && (#[trigger] hits[j]) is Some ==> hits[j]->Some_0.t > h.t,
    decreases hits.len(),
{
    if hits.len() > 0 {
        let front = hits.drop_last();
        law_the_first_of_the_nearest_is_picked(front);
        law_the_nearest_hit_is_picked(None, front);
        let before = best_of(None, front);
        let now = best_of(None, hits);
        if now == before && now is Some {
            let i = choose|i: int|
                0 <= i < front.len() && #[trigger] front[i] == before && forall|j: int|
                    0 <= j < i && (#[trigger] front[j]) is Some ==> front[j]->Some_0.t
                        > before->Some_0.t;
            assert(hits[i] == front[i]);
            assert forall|j: int| 0 <= j < i && (#[trigger] hits[j]) is Some implies hits[j]->Some_0.t
                > now->Some_0.t by {
                assert(front[j] == hits[j]);
            }
        } else if now is Some {
            let i = hits.len() - 1;
            assert(hits[i] == now);
            assert forall|j: int| 0 <= j < i && (#[trigger] hits[j]) is Some implies hits[j]->Some_0.t
                > now->Some_0.t by {
                assert(front[j] == hits[j]);
            }
        }
    }
}

// ---- dragging --------------------------------------------------------------

/// How a drag keeps to the grid.
#[derive(Clone, Copy, Debug, PartialEq, Eq, Structural)]
pub enum Snap {
    /// It does not.
    Free,
    /// The distance that was travelled does.
    Distance,
    /// The point that was reached does.
    Point,
}

/// What a drag of the gizmo does to the node.
#[derive(Clone, Copy, Debug, PartialEq, Eq, Structural)]
pub enum DragStep {
    /// Nothing.
    Nothing,
    /// It ends, because the selection has changed under it.
    GiveUp,
    /// It moves it along one of its axes.
    MoveAxis { entity: u64, axis: u8, snap: Snap },
    /// It moves it in the plane of the camera.
    MovePlane { entity: u64, snap: Snap },
    /// It turns it about one of its axes.
    RotateAxis { entity: u64, axis: u8 },
    /// It turns it about the axes of the camera.
    RotateFree { entity: u64 },
    /// It scales it along one of its axes.
    ScaleAxis { entity: u64, axis: u8 },
    /// It scales it evenly.
    ScaleEven { entity: u64 },
    /// It pulls one of its faces; the opposite face stays.
    PullFace { entity: u64, axis: u8, positive: bool, snap: Snap },
}

/// How a move keeps to the grid. A drag of corners, edges or faces snaps the
/// distance: the gizmo sits in their middle, which is rarely on a grid line.
pub open spec fn move_snap(snap: bool, sub_object: bool) -> Snap {
    if !snap {
        Snap::Free
    } else if sub_object {
        Snap::Distance
    } else {
        Snap::Point
    }
}

/// What a drag does, by the tool at work and the handle.
pub open spec fn drag_effect(
    tool: Tool,
    handle: Handle,
    entity: u64,
    snap: bool,
    sub_object: bool,
) -> DragStep {
    match (tool, handle) {
        (Tool::Move, Handle::Axis { index, .. }) | (Tool::MapEdit, Handle::Axis { index, .. }) =>
            DragStep::MoveAxis { entity, axis: index, snap: move_snap(snap, sub_object) },
        (Tool::Move, Handle::Center) | (Tool::MapEdit, Handle::Center) => DragStep::MovePlane {
            entity,
            snap: move_snap(snap, sub_object),
        },
        (Tool::Rotate, Handle::Axis { index, .. }) => DragStep::RotateAxis {
            entity,
            axis: index,
        },
        (Tool::Rotate, Handle::Center) => DragStep::RotateFree { entity },
        (Tool::Scale, Handle::Axis { index, .. }) => DragStep::ScaleAxis { entity, axis: index },
        (Tool::Scale, Handle::Center) => DragStep::ScaleEven { entity },
        (Tool::Rect, Handle::Axis { index, positive }) => DragStep::PullFace {
            entity,
            axis: index,
            positive,
            snap: if snap {
                Snap::Distance
            } else {
                Snap::Free
            },
        },
        _ => DragStep::Nothing,
    }
}

/// The node on which a drag acts: that of a bone drag is the one that was
/// grabbed; else it is the one that is selected now.
pub open spec fn drag_target(nodes: Seq<u64>, drag: Drag) -> u64 {
    if drag.bone is Some || nodes.len() == 0 {
        drag.entity
    } else {
        nodes.last()
    }
}

/// Where the transform of a dragged node is written.
#[derive(Clone, Copy, Debug, PartialEq, Eq, Structural)]
pub enum WriteTo {
    /// Nowhere.
    Nowhere,
    /// To the corners that are being dragged in the map tool.
    MapCorners,
    /// To the pivot of a bone.
    BonePivot { idx: usize },
    /// To the pose of a bone.
    BonePose { idx: usize },
    /// To the offset of the node from the bone to which it is attached.
    BoneOffset,
    /// To the node's own transform, relative to that of its parent.
    Local { parent: u64 },
    /// To the node's own transform, as it is.
    World,
}

/// What is known of a node whose transform is to be written.
#[derive(Clone, Copy, Debug, PartialEq, Eq, Structural)]
pub struct Placement {
    /// Is it attached to a bone that is there?
    pub on_bone: bool,
    /// Its parent.
    pub parent: Option<u64>,
    /// Has it a transform?
    pub has_transform: bool,
}

/// Where the transform of a dragged node is written.
pub open spec fn write_target(
    map_drag: bool,
    drag: Option<Drag>,
    pivot_edit: bool,
    e: u64,
    at: Placement,
) -> WriteTo {
    if map_drag {
        if drag is Some {
            WriteTo::MapCorners
        } else {
            WriteTo::Nowhere
        }
    } else if drag is Some && drag->Some_0.entity == e && drag->Some_0.bone is Some {
        if pivot_edit {
            WriteTo::BonePivot { idx: drag->Some_0.bone->Some_0 }
        } else {
            WriteTo::BonePose { idx: drag->Some_0.bone->Some_0 }
        }
    } else if at.on_bone {
        WriteTo::BoneOffset
    } else if !at.has_transform {
        WriteTo::Nowhere
    } else {
        match at.parent {
            Some(parent) => WriteTo::Local { parent },
            None => WriteTo::World,
        }
    }
}

impl Editor {
    /// What the drag that is under way does, now that the cursor is where it is
    /// (`cursor` says whether it is anywhere). `tool` is the tool of the gizmo.
    /// A drag of which the node is no longer the selected one is given up.
    pub fn gizmo_drag(&mut self, cursor: bool, tool: Tool) -> (out: DragStep)
        ensures
            match old(self).drag {
                Some(d) => if !cursor {
                    out == DragStep::Nothing && *final(self) == *old(self)
                } else if drag_target(old(self).selection@, d) != d.entity {
                    out == DragStep::GiveUp && *final(self) == (Editor {
                        grabbed: None,
                        drag: None,
                        ..*old(self)
                    })
                } else {
                    out == drag_effect(
                        tool,
                        d.handle,
                        d.entity,
                        old(self).snap,
                        old(self).map.drag is Some,
                    ) && *final(self) == *old(self)
                },
                None => out == DragStep::Nothing && *final(self) == *old(self),
            },
    {
        if !cursor {
            return DragStep::Nothing;
        }
        let drag: Drag = match self.drag {
            Some(d) => d,
            None => {
                return DragStep::Nothing;
            },
        };
        let entity: u64 = if drag.bone.is_some() {
            drag.entity
        } else {
            match self.primary() {
                Some(e) => e,
                None => drag.entity,
            }
        };
        if drag.entity != entity {
            self.grabbed = None;
            self.drag = None;
            return DragStep::GiveUp;
        }
        let sub_object: bool = self.map.drag.is_some();
        let grid: Snap = if !self.snap {
            Snap::Free
        } else if sub_object {
            Snap::Distance
        } else {
            Snap::Point
        };
        match (tool, drag.handle) {
            (Tool::Move, Handle::Axis { index, .. }) | (
                Tool::MapEdit,
                Handle::Axis { index, .. },
            ) => DragStep::MoveAxis { entity, axis: index, snap: grid },
            (Tool::Move, Handle::Center) | (Tool::MapEdit, Handle::Center) => DragStep::MovePlane {
                entity,
                snap: grid,
            },
            (Tool::Rotate, Handle::Axis { index, .. }) => DragStep::RotateAxis {
                entity,
                axis: index,
            },
            (Tool::Rotate, Handle::Center) => DragStep::RotateFree { entity },
            (Tool::Scale, Handle::Axis { index, .. }) => DragStep::ScaleAxis {
                entity,
                axis: index,
            },
            (Tool::Scale, Handle::Center) => DragStep::ScaleEven { entity },
            (Tool::Rect, Handle::Axis { index, positive }) => DragStep::PullFace {
                entity,
                axis: index,
                positive,
                snap: if self.snap {
                    Snap::Distance
                } else {
                    Snap::Free
                },
            },
            _ => DragStep::Nothing,
        }
    }

    /// Where the transform of the dragged node `e` is written.
    pub fn set_world_transform(&self, e: u64, at: Placement) -> (out: WriteTo)
        ensures
            out == write_target(self.map.drag is Some, self.drag, self.pivot_edit, e, at),
    {
        if self.map.drag.is_some() {
            return if self.drag.is_some() {
                WriteTo::MapCorners
            } else {
                WriteTo::Nowhere
            };
        }
        if let Some(d) = self.drag {
            if d.entity == e {
                if let Some(idx) = d.bone {
                    return if self.pivot_edit {
                        WriteTo::BonePivot { idx }
                    } else {
                        WriteTo::BonePose { idx }
                    };
                }
            }
        }
        if at.on_bone {
            return WriteTo::BoneOffset;
        }
        if !at.has_transform {
            return WriteTo::Nowhere;
        }
        match at.parent {
            Some(parent) => WriteTo::Local { parent },
            None => WriteTo::World,
        }
    }
}

/// A drag never writes the transform of another node than the one that was
/// grabbed.
pub proof fn law_a_drag_acts_on_what_was_grabbed(
    nodes: Seq<u64>,
    d: Drag,
    tool: Tool,
    snap: bool,
    sub_object: bool,
)
    requires
        drag_target(nodes, d) == d.entity,
    ensures
        match drag_effect(tool, d.handle, d.entity, snap, sub_object) {
            DragStep::MoveAxis { entity, .. } => entity == d.entity,
            DragStep::MovePlane { entity, .. } => entity == d.entity,
            DragStep::RotateAxis { entity, .. } => entity == d.entity,
            DragStep::RotateFree { entity } => entity == d.entity,
            DragStep::ScaleAxis { entity, .. } => entity == d.entity,
            DragStep::ScaleEven { entity } => entity == d.entity,
            DragStep::PullFace { entity, .. } => entity == d.entity,
            _ => true,
        },
{
}

/// The Rotate tool only ever turns what is dragged, the Scale tool only ever scales it,
/// Move and MapEdit only ever move it, and Rect only ever pulls a face of it. No other tool
/// does anything.
pub proof fn law_a_tool_does_its_own_work(
    tool: Tool,
    handle: Handle,
    e: u64,
    snap: bool,
    sub_object: bool,
)
    ensures
        ({
            let step = drag_effect(tool, handle, e, snap, sub_object);
            &&& (step is RotateAxis || step is RotateFree) <==> tool is Rotate
            &&& (step is ScaleAxis || step is ScaleEven) <==> tool is Scale
            &&& (step is MoveAxis || step is MovePlane) <==> tool is Move || tool is MapEdit
            &&& step is PullFace <==> tool is Rect && handle is Axis
            &&& !(step is GiveUp)
        }),
{
}

/// A drag by the handle of an axis acts along that axis and along no other; a drag by the
/// handle in the middle acts along none.
pub proof fn law_a_handle_acts_along_its_own_axis(
    tool: Tool,
    index: u8,
    positive: bool,
    e: u64,
    snap: bool,
    sub_object: bool,
)
    ensures
        match drag_effect(tool, Handle::Axis { index, positive }, e, snap, sub_object) {
            DragStep::MoveAxis { axis, .. } => axis == index,
            DragStep::RotateAxis { axis, .. } => axis == index,
            DragStep::ScaleAxis { axis, .. } => axis == index,
            DragStep::PullFace { axis, positive: side, .. } => axis == index && side == positive,
            DragStep::MovePlane { .. } => false,
            DragStep::RotateFree { .. } => false,
            DragStep::ScaleEven { .. } => false,
            _ => true,
        },
        match drag_effect(tool, Handle::Center, e, snap, sub_object) {
            DragStep::MoveAxis { .. } => false,
            DragStep::RotateAxis { .. } => false,
            DragStep::ScaleAxis { .. } => false,
            DragStep::PullFace { .. } => false,
            _ => true,
        },
{
}

/// While snapping is off every drag is free; while it is on no move is. What is dragged
/// whole snaps to points of the grid, and what is dragged in pieces, or pulled, by how far
/// it went.
pub proof fn law_a_move_snaps_where_snapping_is_on(
    tool: Tool,
    handle: Handle,
    e: u64,
    snap: bool,
    sub_object: bool,
)
    ensures
        match drag_effect(tool, handle, e, snap, sub_object) {
            DragStep::MoveAxis { snap: by, .. } => (by is Free <==> !snap) && (by is Point ==>
                !sub_object) && (by is Distance ==> sub_object),
            DragStep::MovePlane { snap: by, .. } => (by is Free <==> !snap) && (by is Point ==>
                !sub_object) && (by is Distance ==> sub_object),
            DragStep::PullFace { snap: by, .. } => (by is Free <==> !snap) && !(by is Point),
            _ => true,
        },
{
}

/// A drag goes on as long as what was grabbed is the node that was selected last, or a
/// bone, or nothing is selected any more; else it is not the target.
pub proof fn law_a_drag_follows_the_last_selected(nodes: Seq<u64>, last: u64, d: Drag)
    ensures
        d.bone is None ==> drag_target(nodes.push(last), d) == last,
        d.bone is Some ==> drag_target(nodes.push(last), d) == d.entity,
        drag_target(Seq::empty(), d) == d.entity,
{
    assert(nodes.push(last).last() == last);
}

/// While a drag goes on in the map tool nothing but its corners is written. A bone that is
/// dragged is written to the bone that was grabbed, and to its pivot only while pivots are
/// edited; no other node is ever written to a bone's pivot or pose.
pub proof fn law_a_transform_is_written_to_its_own_place(
    map_drag: bool,
    drag: Option<Drag>,
    pivot_edit: bool,
    e: u64,
    at: Placement,
)
    ensures
        ({
            let to = write_target(map_drag, drag, pivot_edit, e, at);
            &&& to is MapCorners <==> map_drag && drag is Some
            &&& map_drag && drag is None ==> to is Nowhere
            &&& (to is BonePivot || to is BonePose) <==> !map_drag && (drag matches Some(d)
                && d.entity == e && d.bone is Some)
            &&& to matches WriteTo::BonePivot { idx } ==> pivot_edit && drag->Some_0.bone == Some(idx)
            &&& to matches WriteTo::BonePose { idx } ==> !pivot_edit && drag->Some_0.bone == Some(
                idx,
            )
            &&& to matches WriteTo::Local { parent } ==> at.parent == Some(parent)
                && at.has_transform && !at.on_bone
            &&& to is World ==> at.parent is None && at.has_transform && !at.on_bone
            &&& to is BoneOffset ==> at.on_bone
            &&& to is Nowhere ==> map_drag || (!at.on_bone && !at.has_transform)
        }),
{
}

// ---- the box of the Rect tool ----------------------------------------------

/// What a node is, as far as the box round it goes.
#[derive(Clone, Copy, Debug, PartialEq, Eq, Structural)]
pub enum BoxedMatter {
    Cube,
    Plane,
    Sphere,
    Capsule,
    Blob,
    Mesh,
    /// Anything else.
    Other,
}

/// Half of the box round a node, before it is scaled.
#[derive(Clone, Copy, Debug, PartialEq, Eq, Structural)]
pub enum BaseHalf {
    /// So many hundredths along each axis.
    Hundredths { x: u32, y: u32, z: u32 },
    /// So many hundredths of the size that the blob says.
    OfBlob { hundredths: u32 },
    /// Half of the size of the model, and five hundredths at least.
    OfModel,
}

/// Half of the box round a node. `None` where the Rect tool has no box for it.
pub open spec fn base_half(ui_element: bool, matter: BoxedMatter) -> Option<BaseHalf> {
    if ui_element {
        None
    } else {
        match matter {
            BoxedMatter::Cube => Some(BaseHalf::Hundredths { x: 70, y: 70, z: 70 }),
            BoxedMatter::Plane => Some(BaseHalf::Hundredths { x: 70, y: 70, z: 2 }),
            BoxedMatter::Sphere => Some(BaseHalf::Hundredths { x: 85, y: 85, z: 85 }),
            BoxedMatter::Capsule => Some(BaseHalf::Hundredths { x: 50, y: 100, z: 50 }),
            BoxedMatter::Blob => Some(BaseHalf::OfBlob { hundredths: 85 }),
            BoxedMatter::Mesh => Some(BaseHalf::OfModel),
            BoxedMatter::Other => None,
        }
    }
}

/// Half of the box round a node. An element of the game's own screens has its own
/// handles and no box.
pub fn rect_base_half(ui_element: bool, matter: BoxedMatter) -> (out: Option<BaseHalf>)
    ensures
        out == base_half(ui_element, matter),
{
    if ui_element {
        return None;
    }
    match matter {
        BoxedMatter::Cube => Some(BaseHalf::Hundredths { x: 70, y: 70, z: 70 }),
        BoxedMatter::Plane => Some(BaseHalf::Hundredths { x: 70, y: 70, z: 2 }),
        BoxedMatter::Sphere => Some(BaseHalf::Hundredths { x: 85, y: 85, z: 85 }),
        BoxedMatter::Capsule => Some(BaseHalf::Hundredths { x: 50, y: 100, z: 50 }),
        BoxedMatter::Blob => Some(BaseHalf::OfBlob { hundredths: 85 }),
        BoxedMatter::Mesh => Some(BaseHalf::OfModel),
        BoxedMatter::Other => None,
    }
}

/// An element of the game's screens has no box, and what is no shape has none. A cube and a
/// sphere are as high and as deep as they are wide, a capsule is as deep as it is wide and
/// twice as high, and a plane is as wide and as high as a cube and hardly deep. A blob is
/// measured as a sphere is.
pub proof fn law_a_box_fits_its_shape(matter: BoxedMatter)
    ensures
        base_half(true, matter) is None,
        base_half(false, matter) is None <==> matter is Other,
        base_half(false, matter) matches Some(BaseHalf::Hundredths { x, y, z }) ==> x > 0 && y > 0
            && z > 0 && (matter is Cube || matter is Sphere || matter is Plane || matter is Capsule),
        base_half(false, BoxedMatter::Cube) matches Some(BaseHalf::Hundredths { x, y, z }) && x == y
            && y == z && (base_half(false, BoxedMatter::Plane) matches Some(
            BaseHalf::Hundredths { x: w, y: h, z: d },
        ) && w == x && h == y && 10 * d < w),
        base_half(false, BoxedMatter::Sphere) matches Some(BaseHalf::Hundredths { x, y, z }) && x
            == y && y == z && base_half(false, BoxedMatter::Blob) == Some(
            BaseHalf::OfBlob { hundredths: x },
        ),
        base_half(false, BoxedMatter::Capsule) matches Some(BaseHalf::Hundredths { x, y, z }) && x
            == z && y == 2 * x,
        base_half(false, matter) == Some(BaseHalf::OfModel) <==> matter is Mesh,
{
}

// ---- bones -----------------------------------------------------------------

/// Where the pose of a bone is taken from.
#[derive(Clone, Copy, Debug, PartialEq, Eq, Structural)]
pub enum PoseSource {
    /// From how the model moves now.
    Live,
    /// From how it rests.
    Rest,
    /// It has none: it stands where the model does.
    Still,
}

/// Where the pose of the bone `idx` is taken from. `live` is how many bones have a
/// pose now, and `rest` how many have one at rest.
pub fn pose_source(live: Option<usize>, rest: usize, idx: usize) -> (out: PoseSource)
    ensures
        out == if live matches Some(n) && idx < n {
            PoseSource::Live
        } else if idx < rest {
            PoseSource::Rest
        } else {
            PoseSource::Still
        },
{
    let moves: bool = match live {
        Some(n) => idx < n,
        None => false,
    };
    if moves {
        PoseSource::Live
    } else if idx < rest {
        PoseSource::Rest
    } else {
        PoseSource::Still
    }
}

/// A model, as far as its bones go.
#[derive(Clone, Copy, Debug, PartialEq, Eq, Structural)]
pub struct Rigged {
    /// Has it bones?
    pub has_rig: bool,
    /// How many.
    pub bones: usize,
    /// How many have a pose now.
    pub live: Option<usize>,
    /// How many have one at rest.
    pub rest: usize,
}

impl Editor {
    /// The bone that the gizmo is on: the model, the bone, and where its pose is
    /// taken from. `model` is what the selected model is.
    pub fn bone_gizmo_target(&self, model: Rigged) -> (out: Option<(u64, usize, PoseSource)>)
        ensures
            match self.bone_selection {
                Some((mesh, idx)) => if model.has_rig {
                    out matches Some(o) && o.0 == mesh && o.1 == idx && (o.2 == PoseSource::Live
                        <==> (model.live matches Some(n) && idx < n)) && (o.2 == PoseSource::Still
                        <==> !(model.live matches Some(n) && idx < n) && idx >= model.rest)
                } else {
                    out is None
                },
                None => out is None,
            },
    {
        match self.bone_selection {
            Some((mesh, idx)) => {
                if !model.has_rig {
                    return None;
                }
                Some((mesh, idx, pose_source(model.live, model.rest, idx)))
            },
            None => None,
        }
    }
}

/// Is the pose that a bone is dragged to written into a clip? The bone has to be
/// there, the pose has to make sense (`finite`), and the clip that is open has to
/// be of this model.
pub fn keys_pose(
    model: Rigged,
    idx: usize,
    finite: bool,
    mesh: u64,
    animated: Option<u64>,
    clip_open: bool,
) -> (out: bool)
    ensures
        out == (model.has_rig && idx < model.bones && finite && animated == Some(mesh)
            && clip_open),
{
    let this_one: bool = match animated {
        Some(a) => a == mesh,
        None => false,
    };
    model.has_rig && idx < model.bones && finite && this_one && clip_open
}

// ---- what else goes by the selection ---------------------------------------

/// What the distance from which a node is framed goes by.
#[derive(Clone, Copy, Debug, PartialEq, Eq, Structural)]
pub enum FramedBy {
    /// By the size of its model. One that is not there has the size one.
    Model,
    /// By the size that the blob says.
    Blob,
    /// It has the size one.
    Unit,
}

impl Editor {
    /// The node that the camera glides to, and what its distance goes by. What
    /// has no place cannot be framed.
    pub fn focus_selected(&self, placeable: bool, matter: BoxedMatter) -> (out: Option<
        (u64, FramedBy),
    >)
        ensures
            out == if self.selection@.len() > 0 && placeable {
                Some(
                    (
                        self.selection@.last(),
                        match matter {
                            BoxedMatter::Mesh => FramedBy::Model,
                            BoxedMatter::Blob => FramedBy::Blob,
                            _ => FramedBy::Unit,
                        },
                    ),
                )
            } else {
                None
            },
    {
        let e: u64 = match self.primary() {
            Some(e) => e,
            None => {
                return None;
            },
        };
        if !placeable {
            return None;
        }
        let by: FramedBy = match matter {
            BoxedMatter::Mesh => FramedBy::Model,
            BoxedMatter::Blob => FramedBy::Blob,
            _ => FramedBy::Unit,
        };
        Some((e, by))
    }
}

/// The frame in which a bone is posed.
#[derive(Clone, Copy, Debug, PartialEq, Eq, Structural)]
pub enum BoneFrame {
    /// It is that of the model itself.
    Model,
    /// It is that of the bone above it.
    Bone { parent: usize, pose: PoseSource },
}

/// The frame in which a bone is posed. `live` is how many bones have a pose now,
/// and `rest` how many have one at rest.
pub fn bone_frame(parent: Option<usize>, live: Option<usize>, rest: usize) -> (out: BoneFrame)
    ensures
        match parent {
            Some(p) => out matches BoneFrame::Bone { parent: q, pose } && q == p && (pose
                == PoseSource::Live <==> (live matches Some(n) && p < n)) && (pose
                == PoseSource::Still <==> !(live matches Some(n) && p < n) && p >= rest),
            None => out == BoneFrame::Model,
        },
{
    match parent {
        Some(p) => BoneFrame::Bone { parent: p, pose: pose_source(live, rest, p) },
        None => BoneFrame::Model,
    }
}

/// Is the pivot that a bone is dragged to taken? The bone has to be there, and
/// the place has to make sense.
pub fn takes_pivot(model: Rigged, idx: usize, finite: bool) -> (out: bool)
    ensures
        out == (model.has_rig && idx < model.bones && finite),
{
    model.has_rig && idx < model.bones && finite
}

/// A node is hit by its triangles where those are hit; its bounds stand in for them only where
/// it is rigged.
pub proof fn law_bounds_stand_in_for_a_rigged_node(
    triangles: Option<i64>,
    rigged: bool,
    bounds: Option<i64>,
    out: Option<i64>,
)
    requires
        call_ensures(raycast_node_triangles, (triangles, rigged, bounds), out),
    ensures
        triangles is Some ==> out == triangles,
        out is Some ==> out == triangles || (rigged && out == bounds),
        triangles is None && !rigged ==> out is None,
        triangles is None && rigged ==> out == bounds,
{
}

/// A bone has the pose that it has now, where there is one, else the one at rest, else it stands
/// still; of more live poses none is lost.
pub proof fn law_a_live_pose_comes_first(live: Option<usize>, rest: usize, idx: usize, out: PoseSource)
    requires
        call_ensures(pose_source, (live, rest, idx), out),
    ensures
        out is Live <==> live is Some && idx < live->Some_0,
        out is Rest <==> !(live is Some && idx < live->Some_0) && idx < rest,
        out is Still <==> !(live is Some && idx < live->Some_0) && idx >= rest,
{
}

/// A bone without a parent is placed in its model; any other in its parent, by the pose that the
/// parent has.
pub proof fn law_a_bone_is_placed_in_its_parent(
    parent: usize,
    live: Option<usize>,
    rest: usize,
    out: BoneFrame,
    pose: PoseSource,
    top: BoneFrame,
)
    requires
        call_ensures(bone_frame, (Some(parent), live, rest), out),
        call_ensures(pose_source, (live, rest, parent), pose),
        call_ensures(bone_frame, (None, live, rest), top),
    ensures
        out == (BoneFrame::Bone { parent, pose }),
        top == BoneFrame::Model,
{
}

/// A pose is keyed only where it could be taken at all, and only on the mesh that is being
/// animated while a clip is open.
pub proof fn law_only_a_taken_pose_is_keyed(
    model: Rigged,
    idx: usize,
    finite: bool,
    mesh: u64,
    animated: Option<u64>,
    clip_open: bool,
    takes: bool,
    keys: bool,
)
    requires
        call_ensures(takes_pivot, (model, idx, finite), takes),
        call_ensures(keys_pose, (model, idx, finite, mesh, animated, clip_open), keys),
    ensures
        keys ==> takes && clip_open && animated == Some(mesh),
        takes && clip_open && animated == Some(mesh) ==> keys,
        takes ==> model.has_rig && finite && idx < model.bones,
        model.has_rig && finite && idx < model.bones ==> takes,
{
}

/// A selection is held only where there is one; holding it and letting it go again leaves
/// everything as it was, and nothing else changes either way.
pub proof fn law_a_selection_is_held_and_let_go(once: &mut Editor, twice: &mut Editor)
    requires
        call_ensures(Editor::toggle_selection_lock, (once,), ()),
        call_ensures(Editor::toggle_selection_lock, (twice,), ()),
        *old(twice) == *final(once),
    ensures
        final(once).selection_locked ==> final(once).selection@.len() > 0,
        old(once).selection_locked ==> !final(once).selection_locked,
        old(once).selection@.len() > 0 ==> final(once).selection_locked
            != old(once).selection_locked && *final(twice) == *old(once),
        final(once).selection == old(once).selection,
        final(once).bone_selection == old(once).bone_selection,
        final(once).tool == old(once).tool,
        final(once).drag == old(once).drag,
{
}

/// No empty selection stays held, one that is not empty stays as it is, and doing this twice
/// does no more than doing it once.
pub proof fn law_no_empty_selection_is_held(once: &mut Editor, twice: &mut Editor)
    requires
        call_ensures(Editor::enforce_selection_lock, (once,), ()),
        call_ensures(Editor::enforce_selection_lock, (twice,), ()),
        *old(twice) == *final(once),
    ensures
        final(once).selection_locked ==> final(once).selection@.len() > 0,
        old(once).selection@.len() > 0 ==> *final(once) == *old(once),
        final(once).selection_locked ==> old(once).selection_locked,
        final(once).selection == old(once).selection,
        *final(twice) == *final(once),
{
}

/// A gesture is kept from the selection exactly while it is held.
pub proof fn law_a_held_selection_blocks_gestures(s: &mut Editor, before: bool, after: bool)
    requires
        call_ensures(Editor::toggle_selection_lock, (s,), ()),
        call_ensures(Editor::selection_gesture_blocked, (old(s),), before),
        call_ensures(Editor::selection_gesture_blocked, (final(s),), after),
    ensures
        before ==> !after,
        !before && old(s).selection@.len() > 0 ==> after,
        old(s).selection@.len() == 0 ==> !after,
{
}

/// The node that was selected last speaks for the selection, and is the one that the view is
/// turned to.
pub proof fn law_the_last_selected_speaks_for_all(
    s: &Editor,
    placeable: bool,
    matter: BoxedMatter,
    first: Option<u64>,
    focus: Option<(u64, FramedBy)>,
)
    requires
        call_ensures(Editor::primary, (s,), first),
        call_ensures(Editor::focus_selected, (s, placeable, matter), focus),
    ensures
        first is Some <==> s.selection@.len() > 0,
        first matches Some(e) ==> s.selection@.contains(e) && s.selection@[s.selection@.len() - 1]
            == e,
        focus is Some <==> placeable && first is Some,
        focus matches Some(f) ==> first == Some(f.0),
        focus matches Some(f) ==> (f.1 is Model <==> matter is Mesh) && (f.1 is Blob
            <==> matter is Blob),
{
    if s.selection@.len() > 0 {
        assert(s.selection@[s.selection@.len() - 1] == s.selection@.last());
    }
}

/// What is done to a node is done to the whole selection where the node is one of several that
/// are selected, and to the node alone elsewhere: the node itself is always among them.
pub proof fn law_a_group_holds_its_node(s: &Editor, e: u64, out: Vec<u64>)
    requires
        call_ensures(Editor::selected_group, (s, e), out),
    ensures
        out@.contains(e),
        s.selection@.contains(e) ==> out@ == s.selection@,
        !s.selection@.contains(e) ==> out@.len() == 1,
{
    if !(s.selection@.len() > 1 && s.selection@.contains(e)) {
        assert(out@[0] == e);
        if s.selection@.contains(e) {
            let i = choose|i: int| 0 <= i < s.selection@.len() && s.selection@[i] == e;
            assert(s.selection@ =~= out@);
        }
    }
}

/// Of a selection, exactly the nodes that are there are counted, in their order.
pub proof fn law_what_is_selected_and_there(s: &Editor, nodes: &Vec<u64>, out: Vec<u64>, e: u64)
    requires
        call_ensures(Editor::selected_matter, (s, nodes), out),
    ensures
        out@.contains(e) <==> s.selection@.contains(e) && nodes@.contains(e),
        out@.len() <= s.selection@.len(),
{
    lemma_filter_holds(s.selection@, |x: u64| nodes@.contains(x), e);
    s.selection@.lemma_filter_len(|x: u64| nodes@.contains(x));
}

/// A bone is selected only where its model may be, and a held selection is left alone; a free
/// one gives way to the bone.
pub proof fn law_a_bone_takes_a_free_selection(
    selection: &mut Vec<u64>,
    bones: &mut Option<(u64, usize)>,
    locked: bool,
    mesh: u64,
    idx: usize,
    out: bool,
)
    requires
        call_ensures(select_bone_into, (selection, bones, locked, mesh, idx), out),
    ensures
        out ==> *final(bones) == Some((mesh, idx)),
        !out ==> *final(bones) == *old(bones) && locked && !old(selection)@.contains(mesh),
        locked ==> final(selection)@ == old(selection)@,
        !locked ==> out && final(selection)@.len() == 0,
        locked && old(selection)@.contains(mesh) ==> out,
{
}

/// A button is held from when it goes down until it comes up, and each time that it goes down is
/// told once. What other buttons do is not touched, nor anything else.
pub proof fn law_a_button_tells_of_its_own_presses(
    s: &mut Editor,
    i: usize,
    pressed: bool,
    out: ButtonNote,
    j: int,
)
    requires
        call_ensures(Editor::track_mouse_button, (s, i, pressed), out),
        0 <= j < 3,
    ensures
        out.button == i && out.pressed == pressed,
        j == i ==> final(s).buttons.held@[j] == pressed,
        j != i ==> final(s).buttons.held@[j] == old(s).buttons.held@[j],
        final(s).buttons.pressed@[j] <==> old(s).buttons.pressed@[j] || (j == i && pressed
            && !old(s).buttons.held@[j]),
        final(s).buttons.tick_pressed@[j] <==> old(s).buttons.tick_pressed@[j] || (j == i && pressed
            && !old(s).buttons.held@[j]),
        final(s).buttons.ui_pressed <==> old(s).buttons.ui_pressed || (i == 0 && pressed),
        final(s).buttons.ui_released <==> old(s).buttons.ui_released || (i == 0 && !pressed),
        final(s).selection == old(s).selection,
        final(s).drag == old(s).drag,
        final(s).map == old(s).map,
{
}

/// The gizmo is shown on the selected bone, by the pose that the bone has, and on none where the
/// model has no bones.
pub proof fn law_the_gizmo_stands_on_the_selected_bone(
    s: &Editor,
    model: Rigged,
    out: Option<(u64, usize, PoseSource)>,
    pose: PoseSource,
)
    requires
        call_ensures(Editor::bone_gizmo_target, (s, model), out),
        s.bone_selection is Some ==> call_ensures(
            pose_source,
            (model.live, model.rest, s.bone_selection->Some_0.1),
            pose,
        ),
    ensures
        out is Some <==> s.bone_selection is Some && model.has_rig,
        out matches Some(o) ==> s.bone_selection == Some((o.0, o.1)) && o.2 == pose,
{
}

/// To take up a tool lets go of whatever was dragged, and touches nothing that is selected; work
/// on the map goes on only where the tool is the map's.
pub proof fn law_a_tool_lets_go_of_what_was_dragged(s: &mut Editor, tool: Tool, out: Option<Panel>)
    requires
        call_ensures(Editor::set_tool, (s, tool), out),
    ensures
        final(s).tool == tool,
        final(s).drag is None && final(s).grabbed is None,
        final(s).selection == old(s).selection && final(s).bone_selection == old(s).bone_selection
            && final(s).selection_locked == old(s).selection_locked,
        tool is MapEdit ==> final(s).map == old(s).map,
        !(tool is MapEdit) ==> final(s).map == map_left(old(s).map),
{
}

/// A folder is opened where it was closed and closed where it was open, and no other folder is
/// touched: twice leaves all folders as they were.
pub proof fn law_a_folder_opens_and_closes(once: &mut Editor, is_folder: bool, other: u64)
    requires
        call_ensures(Editor::toggle_folder_selected, (once, is_folder), ()),
        old(once).collapsed@.no_duplicates(),
    ensures
        final(once).selection == old(once).selection,
        !is_folder || old(once).selection@.len() == 0 ==> final(once).collapsed@ == old(
            once,
        ).collapsed@,
        is_folder && old(once).selection@.len() > 0 ==> {
            let e = old(once).selection@.last();
            &&& final(once).collapsed@.contains(e) <==> !old(once).collapsed@.contains(e)
            &&& other != e ==> (final(once).collapsed@.contains(other) <==> old(
                once,
            ).collapsed@.contains(other))
        },
{
    if is_folder && old(once).selection@.len() > 0 {
        let e = old(once).selection@.last();
        let was = old(once).collapsed@;
        let now = final(once).collapsed@;
        lemma_first_place(was, e);
        let p = first_place(was, e);
        if was.contains(e) {
            if other != e && was.contains(other) {
                let i = choose|i: int| 0 <= i < was.len() && was[i] == other;
                let j = if i < p {
                    i
                } else {
                    i - 1
                };
                assert(now[j] == other);
            }
            if now.contains(other) {
                let i = choose|i: int| 0 <= i < now.len() && now[i] == other;
                assert(was[if i < p {
                    i
                } else {
                    i + 1
                }] == other);
            }
        } else {
            assert(now[was.len() as int] == e);
            if was.contains(other) {
                let i = choose|i: int| 0 <= i < was.len() && was[i] == other;
                assert(now[i] == other);
            }
            if now.contains(other) && other != e {
                let i = choose|i: int| 0 <= i < now.len() && now[i] == other;
                assert(was[i] == other);
            }
        }
    }
}

/// A drag without a pointer waits. One whose node is no longer the one to be dragged is given up,
/// and no other is; nothing is let go of while a drag goes on.
pub proof fn law_a_drag_is_given_up_with_its_node(s: &mut Editor, cursor: bool, tool: Tool, out: DragStep)
    requires
        call_ensures(Editor::gizmo_drag, (s, cursor, tool), out),
    ensures
        old(s).drag is None || !cursor ==> out is Nothing && *final(s) == *old(s),
        final(s).drag is None ==> old(s).drag is None || out is GiveUp,
        cursor && old(s).drag is Some && drag_target(old(s).selection@, old(s).drag->Some_0) != old(
            s,
        ).drag->Some_0.entity ==> out is GiveUp && final(s).drag is None && final(s).grabbed is None,
        cursor && old(s).drag is Some && drag_target(old(s).selection@, old(s).drag->Some_0) == old(
            s,
        ).drag->Some_0.entity ==> final(s).drag == old(s).drag && final(s).grabbed == old(s).grabbed,
        final(s).selection == old(s).selection && final(s).tool == old(s).tool && final(s).map == old(
            s,
        ).map,
{
}

/// A press in the scene or in the game ends the typing that is under way, whatever lies over
/// them, and so does one on no widget at all; a press on a widget elsewhere does not.
pub proof fn law_a_press_on_a_view_ends_typing(
    s: &Editor,
    ui: Option<UiUnderPress>,
    scene: Option<bool>,
    game: Option<bool>,
    out: Option<u64>,
)
    requires
        call_ensures(Editor::viewport_press_ends_typing, (s, ui, scene, game), out),
    ensures
        ui is None ==> out is None,
        ui matches Some(u) ==> (out is Some ==> out == u.focused),
        ui matches Some(u) ==> (scene == Some(true) || game == Some(true) || !u.pointer_over_ui
            ==> out == u.focused),
        ui matches Some(u) ==> (scene != Some(true) && game != Some(true) && u.pointer_over_ui
            ==> out is None),
{
}

/// A gesture on the selection touches neither the tool nor the map, and drags nothing.
pub proof fn law_selecting_changes_the_selection_alone(after: Editor, before: Editor)
    requires
        after.selects_apart_from(before),
    ensures
        after.tool == before.tool,
        after.grabbed == before.grabbed,
        after.drag == before.drag,
        after.map == before.map,
        after.collapsed == before.collapsed,
        after.buttons == before.buttons,
        after.pivot_edit == before.pivot_edit,
        after.snap == before.snap,
{
}

/// The nearer of two hits is kept, and of two that are equally near the one that was there.
pub proof fn law_the_nearer_hit_is_kept(best: Option<SceneHit>, hit: SceneHit)
    ensures
        nearer(best, hit) is Some,
        nearer(best, hit)->Some_0.t <= hit.t,
        best matches Some(b) ==> nearer(best, hit)->Some_0.t <= b.t && (b.t <= hit.t ==> nearer(
            best,
            hit,
        ) == best),
        best is None ==> nearer(best, hit) == Some(hit),
{
}

} // verus!
