use floptle_editor::scene_tab::{
    cycle_text, invert_text, knife_text, select_none_text, HudClick, HudCommand, MapHud, MapOrient,
    MapXform,
};

fn strip() -> MapHud {
    MapHud {
        xform: MapXform::Move,
        orient: MapOrient::Normal,
        open: false,
        knife: false,
        armed: None,
    }
}

#[test]
fn buttons_of_the_strip_ask_the_editor() {
    let mut h = strip();
    assert_eq!(h.click(HudClick::Mode(2)), Some(HudCommand::SetMode(2)));
    assert_eq!(h.click(HudClick::All), Some(HudCommand::SelectAll));
    assert_eq!(h.click(HudClick::Nothing), Some(HudCommand::SelectNone));
    assert_eq!(h.click(HudClick::Invert), Some(HudCommand::SelectInvert));
    assert_eq!(h.click(HudClick::Knife), Some(HudCommand::SetKnife(true)));
    assert_eq!(h, strip());
}

#[test]
fn labels_of_the_strip_cycle() {
    let mut h = strip();
    assert_eq!(h.click(HudClick::Gizmo), None);
    assert_eq!(h.xform, MapXform::Rotate);
    assert_eq!(h.click(HudClick::Orient), None);
    assert_eq!(h.orient, MapOrient::Local);
}

#[test]
fn a_shape_is_armed_from_the_open_list() {
    let mut h = strip();
    assert_eq!(h.click(HudClick::Shape(3)), None);
    h.click(HudClick::Picker);
    assert!(h.open);
    assert_eq!(h.click(HudClick::Shape(3)), Some(HudCommand::SetArmed(Some(3))));
    h.armed = Some(3);
    assert_eq!(h.click(HudClick::Shape(3)), Some(HudCommand::SetArmed(None)));
    assert_eq!(h.click(HudClick::Shape(4)), Some(HudCommand::SetArmed(Some(4))));
}

#[test]
fn the_strip_names_its_keys() {
    assert_eq!(select_none_text("N"), "clear it  (N)");
    assert_eq!(invert_text("I"), "swap selected for unselected  (I)");
    assert_eq!(knife_text("K"), "cut a face from one edge or corner to another  (K)");
    assert_eq!(cycle_text(true, "G"), "what the gizmo does — click or G to cycle");
    assert_eq!(cycle_text(false, "O"), "handle orientation — click or O to cycle");
}
