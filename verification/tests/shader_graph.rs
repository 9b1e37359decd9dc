use std::collections::HashMap;

use floptle_editor::shader_graph::{
    blend_label, constant_kinds, header_line, ide_follows, is_chosen, knob_label, node_outline,
    picked_label, pin_error, reads_again, renamable, shows_operation, thumbnail, Blend,
    CanvasKeys, CheckOutcome, CommitStep, Fault, FlushStep, HeaderAct, HeaderLine, HeaderPress,
    HeaderState, HeaderTools, History, IdeFile, InlineKind, KeyAct, Knob, KnobType, NodeOutline,
    ShaderGraphState, Span, StageRow, Thumbnail, WireDrag, MAX_UNDO, ONE,
};
use floptle_editor::shader_graph_view::{GNode, KeyKind, NodeKind, Port, Spot, ValueType};
use floptle_editor::shader_preview::Stage;

/// One edit, from its beginning to the file.
fn edit(h: &mut History, text: &str) {
    h.begin();
    h.save(text);
    h.read(text);
}

#[test]
fn undo_gives_back_what_was() {
    let mut h = History::new();
    h.read("a");
    edit(&mut h, "b");
    edit(&mut h, "c");
    assert_eq!(h.undo(), Some("b".to_string()));
    h.restore();
    h.read("b");
    assert_eq!(h.undo(), Some("a".to_string()));
    h.restore();
    h.read("a");
    assert_eq!(h.undo(), None);
    assert_eq!(h.redo(), Some("b".to_string()));
    h.restore();
    h.read("b");
    assert_eq!(h.redo(), Some("c".to_string()));
    h.restore();
    h.read("c");
    assert_eq!(h.redo(), None);
    assert_eq!(h.undo, vec!["a".to_string(), "b".to_string()]);
}

#[test]
fn an_edit_ends_redo() {
    let mut h = History::new();
    h.read("a");
    edit(&mut h, "b");
    h.undo();
    h.restore();
    h.read("a");
    assert_eq!(h.redo.len(), 1);
    edit(&mut h, "d");
    assert!(h.redo.is_empty());
}

#[test]
fn an_edit_that_changes_nothing_is_not_undone() {
    let mut h = History::new();
    h.read("a");
    edit(&mut h, "a");
    assert!(h.undo.is_empty());
    // A drag is one edit, however many steps it has.
    h.begin();
    h.begin();
    h.save("z");
    assert_eq!(h.undo, vec!["a".to_string()]);
}

#[test]
fn the_history_is_bounded() {
    let mut h = History::new();
    h.read("0");
    for i in 1..=100 {
        edit(&mut h, &i.to_string());
    }
    assert_eq!(h.undo.len(), MAX_UNDO);
    assert_eq!(h.undo[0], "36");
    assert_eq!(h.undo[63], "99");
}

fn node(key: u64, key_kind: KeyKind, kind: NodeKind) -> GNode {
    GNode {
        key,
        key_kind,
        kind,
        name: None,
        op_label: "mix".to_string(),
        inputs: vec![],
        pos: Spot { x: 0, y: 0 },
        placed: false,
    }
}

/// A state in which a shader of three nodes is open.
fn open() -> ShaderGraphState {
    let mut s = ShaderGraphState::new();
    s.path = Some("looks/glow.flsl".to_string());
    let view = vec![
        node(1, KeyKind::Out, NodeKind::Out),
        node(2, KeyKind::Let, NodeKind::Binary),
        node(3, KeyKind::Anon, NodeKind::Constant),
    ];
    s.parsed("text", &None, view, &HashMap::new(), &vec![None, None, None]);
    s
}

#[test]
fn a_shader_is_read_and_laid_out() {
    let mut s = open();
    assert!(s.has_ir && s.err.is_none());
    assert!(!s.opens("looks/glow.flsl") && s.opens("looks/other.flsl"));
    s.select(&vec![2, 3]);
    let fault = Some(Fault { line: 4, column: 7, message: "odd".to_string(), at: 12 });
    let view = vec![node(1, KeyKind::Out, NodeKind::Out), node(3, KeyKind::Anon, NodeKind::Neg)];
    let spans = vec![Some(Span { start: 0, end: 40 }), Some(Span { start: 10, end: 20 })];
    s.parsed("text", &fault, view, &HashMap::new(), &spans);
    assert_eq!(s.err, Some("4:7: odd".to_string()));
    assert_eq!(s.err_key, Some(3));
    assert_eq!(s.sel.iter().copied().collect::<Vec<_>>(), vec![3], "the other node is gone");
    s.unparsed("tex", 1, 2, "bad");
    assert!(!s.has_ir && s.view.is_empty());
    assert_eq!(s.err, Some("1:2: bad — fix it in the text view".to_string()));
    s.unreadable("gone");
    assert_eq!(s.err, Some("can't read looks/glow.flsl: gone".to_string()));
}

#[test]
fn a_strict_edit_never_breaks_a_shader() {
    let mut s = open();
    let wrong = CheckOutcome::Wrong { message: Some("vec3 into float".to_string()) };
    assert_eq!(s.commit(&Ok(()), true, &wrong), CommitStep::Revert);
    assert_eq!(s.status.as_ref().unwrap().text, "✋ vec3 into float");
    assert!(!s.history.dirty);
    assert_eq!(s.commit(&Ok(()), false, &wrong), CommitStep::Flush);
    assert!(s.history.dirty);
    let mut s = open();
    assert_eq!(s.commit(&Err("no".to_string()), false, &CheckOutcome::Fine), CommitStep::Revert);
    assert_eq!(s.status.as_ref().unwrap().text, "no");
    assert_eq!(s.commit(&Ok(()), true, &CheckOutcome::Fine), CommitStep::Flush);
    let mut s = open();
    assert_eq!(
        s.commit(&Ok(()), true, &CheckOutcome::Wrong { message: None }),
        CommitStep::Revert
    );
    assert_eq!(s.status.as_ref().unwrap().text, "✋ type error");
    let mut empty = ShaderGraphState::new();
    assert_eq!(empty.commit(&Ok(()), true, &CheckOutcome::Fine), CommitStep::Nothing);
}

#[test]
fn a_knob_is_printed_once_it_is_let_go() {
    let mut s = open();
    assert!(s.live(&Ok(())));
    assert_eq!(s.flush(false, true), FlushStep::Nothing);
    assert_eq!(s.flush(true, true), FlushStep::Write);
    assert_eq!(s.flush(false, false), FlushStep::Write);
    assert!(s.flushed(&Ok(()), "printed"));
    assert!(!s.history.dirty);
    assert_eq!(s.flush(false, false), FlushStep::Nothing);
    assert!(!s.live(&Err("no".to_string())));
    assert!(!s.flushed(&Err("full".to_string()), ""));
    assert_eq!(s.status.as_ref().unwrap().text, "save failed: full");
}

#[test]
fn nodes_are_selected_by_clicks_and_boxes() {
    let mut s = open();
    s.click_node(2, false);
    s.click_node(3, true);
    assert_eq!(s.sel.len(), 2);
    s.click_node(2, true);
    assert_eq!(s.sel.iter().copied().collect::<Vec<_>>(), vec![3]);
    s.click_canvas(true);
    assert_eq!(s.sel.len(), 1);
    s.click_canvas(false);
    assert!(s.sel.is_empty());
    s.select_add(&vec![1]);
    s.select_toggle(2);
    assert_eq!(s.sel.len(), 2);
    assert!(s.box_begins(true));
    s.box_ends(&vec![3], true);
    assert_eq!(s.sel.len(), 3);
    s.box_ends(&vec![], false);
    assert_eq!(s.sel.len(), 3, "no box was drawn");
    assert!(s.box_begins(true));
    s.box_ends(&vec![2], false);
    assert_eq!(s.sel.iter().copied().collect::<Vec<_>>(), vec![2]);
    s.delete_begins();
    assert!(s.sel.is_empty());
}

#[test]
fn a_wire_can_be_put_back() {
    let mut s = open();
    let port = Port { site: 40, wired: Some(2) };
    assert_eq!(s.grab_input(port), Some(40));
    assert_eq!(s.wire, Some(WireDrag::FromOut(2)));
    assert!(!s.box_begins(true));
    assert_eq!(s.release_wire(Some(40), None), Some((2, 40)));
    assert_eq!(s.wire, None);
    assert_eq!(s.grab_input(Port { site: 40, wired: None }), None);
    assert_eq!(s.release_wire(None, Some(3)), Some((3, 40)));
    s.grab_output(3);
    assert_eq!(s.release_wire(None, Some(2)), None);
    s.grab_output(3);
    s.escape();
    assert_eq!(s.release_wire(Some(40), None), None);
}

#[test]
fn the_selection_is_dragged_along() {
    let mut s = open();
    s.select(&vec![2, 3, 99]);
    s.drag_begins(3);
    assert!(s.drag_moves(2) && s.drag_moves(3) && !s.drag_moves(99) && !s.drag_moves(1));
    assert_eq!(s.drag_ends(), Some(vec![2, 3]));
    assert_eq!(s.drag_ends(), None);
    s.drag_begins(1);
    assert_eq!(s.drag_ends(), Some(vec![1]));
    assert_eq!(s.sel.len(), 1);
}

#[test]
fn keys_do_what_they_do() {
    let mut s = open();
    let none =
        CanvasKeys { delete: false, command: false, shift: false, z: false, y: false, d: false };
    assert!(s.canvas_keys(CanvasKeys { delete: true, ..none }).is_empty());
    s.select(&vec![2]);
    assert_eq!(s.canvas_keys(CanvasKeys { delete: true, ..none }), vec![KeyAct::Delete]);
    s.edit_field(5, "x");
    assert!(s.canvas_keys(CanvasKeys { delete: true, ..none }).is_empty());
    let cmd = CanvasKeys { command: true, ..none };
    assert_eq!(s.canvas_keys(CanvasKeys { d: true, ..cmd }), vec![KeyAct::Duplicate]);
    assert_eq!(s.canvas_keys(CanvasKeys { z: true, ..cmd }), vec![KeyAct::Undo]);
    assert_eq!(s.canvas_keys(CanvasKeys { z: true, shift: true, ..cmd }), vec![KeyAct::Redo]);
    assert_eq!(s.canvas_keys(CanvasKeys { y: true, ..cmd }), vec![KeyAct::Redo]);
}

#[test]
fn a_menu_speaks_of_what_is_selected() {
    let mut s = open();
    let n = node(2, KeyKind::Let, NodeKind::Binary);
    let menu = s.node_menu(&n);
    assert!(menu.rename);
    assert_eq!(menu.targets, vec![2]);
    assert_eq!(menu.duplicate, "⧉ Duplicate");
    assert_eq!(menu.preview, Some("👁 Hide preview".to_string()));
    s.toggle_preview(2);
    s.select(&vec![3, 2]);
    let menu = s.node_menu(&n);
    assert!(!menu.rename);
    assert_eq!(menu.targets, vec![2, 3]);
    assert_eq!(menu.duplicate, "⧉ Duplicate 2 nodes");
    assert_eq!(menu.delete, Some("🗑 Delete 2 nodes".to_string()));
    assert_eq!(menu.preview, Some("👁 Show preview".to_string()));
    let out = s.node_menu(&node(1, KeyKind::Out, NodeKind::Out));
    assert!(!out.rename && out.delete.is_none());
    assert_eq!(s.node_menu(&node(3, KeyKind::Anon, NodeKind::Constant)).preview, None);
    assert!(renamable(&n) && !renamable(&node(1, KeyKind::Out, NodeKind::Out)));
}

#[test]
fn what_is_typed_is_taken_where_it_is_new() {
    let mut s = open();
    s.edit_field(5, " glow ");
    assert!(s.is_editing(5) && !s.is_editing(6));
    assert_eq!(s.field_left(Some("glow"), false), None);
    s.edit_field(5, " shine ");
    assert_eq!(s.field_left(Some("glow"), false), Some("shine".to_string()));
    s.edit_field(5, "shine");
    assert_eq!(s.field_left(Some("glow"), true), None);
    s.edit_field(5, "  ");
    assert_eq!(s.field_left(None, false), None);
    assert!(!s.is_editing(5));
}

#[test]
fn an_error_is_pinned_to_the_smallest_range() {
    let sp = |start: u32, end: u32| Some(Span { start, end });
    assert_eq!(pin_error(&vec![sp(0, 50), None, sp(10, 20), sp(10, 30)], 15), Some(2));
    assert_eq!(pin_error(&vec![sp(0, 5)], 9), None);
}

#[test]
fn the_text_follows_the_graph() {
    let f = |path: &str, dirty: bool| IdeFile { path: path.to_string(), dirty };
    assert_eq!(ide_follows(&vec![f("a", true), f("b", false), f("a", false)], "a"), Some(2));
    assert_eq!(ide_follows(&vec![f("a", true)], "a"), None);
    assert!(reads_again(Some(1), Some(2), false));
    assert!(!reads_again(Some(1), Some(2), true));
    assert!(!reads_again(Some(1), Some(1), false));
}

#[test]
fn the_head_says_the_most_pressing_thing() {
    let s = |t: &str| Some(t.to_string());
    let mut h = HeaderState {
        parsed: true,
        status: s("saved"),
        err: s("1:2: bad"),
        flsl_error: s("look"),
        sdf_error: s("shape"),
        preview_error: s("pic"),
        used: false,
    };
    assert!(matches!(header_line(&h), HeaderLine::Status(t) if t == "saved"));
    h.status = None;
    assert!(matches!(header_line(&h), HeaderLine::Wrong(t) if t == "⚠ 1:2: bad"));
    h.err = None;
    assert!(matches!(header_line(&h), HeaderLine::Wrong(t) if t == "⚠ look"));
    h.flsl_error = None;
    assert!(matches!(header_line(&h), HeaderLine::Wrong(t) if t == "⚠ shape"));
    h.sdf_error = None;
    assert!(matches!(header_line(&h), HeaderLine::Quiet(t) if t == "previews paused: pic"));
    h.preview_error = None;
    assert!(matches!(header_line(&h), HeaderLine::Quiet(t) if t.starts_with("not in the scene")));
    h.used = true;
    assert!(matches!(header_line(&h), HeaderLine::Nothing));
    // Without a shader only what was done is said.
    h.parsed = false;
    h.err = s("1:2: bad — fix it in the text view");
    h.used = false;
    assert!(matches!(header_line(&h), HeaderLine::Nothing));
    h.status = s("save failed: no room");
    assert!(matches!(header_line(&h), HeaderLine::Status(t) if t == "save failed: no room"));
    assert_eq!(picked_label(&s("looks/glow.flsl")), "glow.flsl");
    assert_eq!(picked_label(&None), "(pick a shader)");
    assert_eq!(blend_label(Blend::Additive), "additive");
}

#[test]
fn the_head_offers_what_the_stage_has() {
    let mut s = open();
    assert_eq!(
        s.header_tools(None, Blend::Alpha, true),
        Some(HeaderTools {
            palette: Stage::Fragment,
            row: StageRow::Look { blend: Blend::Alpha },
            undo: false,
            redo: false,
            previews: true,
        })
    );
    s.history.begin();
    s.history.save("other text");
    let tools = s.header_tools(Some(Stage::Sdf), Blend::Opaque, false).unwrap();
    assert_eq!(tools.row, StageRow::Geometry, "geometry has no list of blends");
    assert_eq!(tools.palette, Stage::Sdf);
    assert!(tools.undo && !tools.redo);
    assert_eq!(tools.press(HeaderPress::Undo), HeaderAct::Undo);
    assert_eq!(tools.press(HeaderPress::Redo), HeaderAct::Nothing);
    assert_eq!(tools.press(HeaderPress::Previews), HeaderAct::Previews(true));
    assert_eq!(tools.press(HeaderPress::Pick(Blend::Alpha)), HeaderAct::Nothing);
    let look = s.header_tools(Some(Stage::Fragment), Blend::Opaque, true).unwrap();
    assert_eq!(look.press(HeaderPress::Pick(Blend::Opaque)), HeaderAct::Nothing);
    assert_eq!(look.press(HeaderPress::Pick(Blend::Additive)), HeaderAct::Lay(Blend::Additive));
    assert_eq!(look.press(HeaderPress::Frame), HeaderAct::Frame);
    assert_eq!(look.press(HeaderPress::Arrange), HeaderAct::Arrange);
    assert_eq!(look.press(HeaderPress::AsText), HeaderAct::AsText);
    s.unparsed("tex", 1, 2, "bad");
    assert_eq!(s.header_tools(None, Blend::Opaque, true), None);
}

#[test]
fn another_shader_starts_afresh() {
    let mut s = open();
    s.select(&vec![2]);
    let again = s.open_shader_in_graph("looks/glow.flsl", true);
    assert!(again.focus && !again.read && again.write.is_none());
    assert_eq!(s.sel.len(), 1, "the one that is open stays as it is");
    s.history.dirty = true;
    let other = s.open_shader_in_graph("looks/other.flsl", true);
    assert_eq!(other.write.as_deref(), Some("looks/glow.flsl"), "its edit goes to its own file");
    assert!(other.read && other.focus);
    assert_eq!(s.path.as_deref(), Some("looks/other.flsl"));
    assert!(!s.history.dirty && s.history.undo.is_empty() && s.history.redo.is_empty());
    assert!(s.sel.is_empty() && !s.has_ir);
    let third = s.open_shader_in_graph("looks/third.flsl", false);
    assert!(third.write.is_none() && third.read && !third.focus);
}

#[test]
fn a_node_is_drawn_as_it_stands() {
    assert_eq!(node_outline(true, true), NodeOutline::Wrong);
    assert_eq!(node_outline(false, true), NodeOutline::Selected);
    assert_eq!(node_outline(false, false), NodeOutline::Plain);
    let mut n = node(2, KeyKind::Let, NodeKind::Binary);
    assert!(!shows_operation(&n));
    n.name = Some("glow".to_string());
    assert!(shows_operation(&n));
    n.name = Some("mix".to_string());
    assert!(!shows_operation(&n));
    assert_eq!(thumbnail(true, Some(4)), Thumbnail::Tile(4));
    assert_eq!(thumbnail(false, Some(4)), Thumbnail::Dash);
    assert_eq!(thumbnail(true, None), Thumbnail::Dash);
}

#[test]
fn a_constant_has_one_kind_and_a_knob_one_type() {
    let kinds = constant_kinds();
    assert_eq!(kinds.len(), 5);
    assert_eq!(kinds[2], ("v3", InlineKind::Vector { lanes: 3 }));
    assert!(is_chosen(Some(InlineKind::Colour), InlineKind::Colour));
    assert!(!is_chosen(Some(InlineKind::Number), InlineKind::Colour));
    assert!(!is_chosen(None, InlineKind::Number));
    assert!(!is_chosen(Some(InlineKind::Other), InlineKind::Other));
    let mut k = Knob {
        ty: ValueType::Float,
        is_color: false,
        default: [0, 0, 0, 0],
        range: Some((0, ONE)),
    };
    assert!(k.shows_range());
    k.set_type(KnobType { ty: ValueType::Vec2, is_color: false });
    assert_eq!((k.default, k.range), ([0; 4], Some((0, ONE))));
    k.set_type(KnobType { ty: ValueType::Vec4, is_color: true });
    assert_eq!((k.default, k.range), ([ONE; 4], None));
    assert!(!k.shows_range());
    assert_eq!(f32::from_bits(ONE), 1.0);
    assert_eq!(knob_label(KnobType { ty: ValueType::Vec4, is_color: true }), "color");
    assert_eq!(knob_label(KnobType { ty: ValueType::Vec2, is_color: false }), "vec2");
}
