use std::collections::HashMap;

use floptle_editor::shader_graph::{Knob, KnobType, ShaderGraphState};
use floptle_editor::shader_graph_acts::{
    canvas_hint, edit_knob, edit_manner, knob_lanes, knob_range, knob_types, port_of_site,
    rename_plan, tab_body, wheel_zooms, wires, Act, EditManner, KnobEdit, NodeEdit, RenamePlan,
    TabBody, Wire, Work,
};
use floptle_editor::shader_graph_view::{GNode, KeyKind, NodeKind, Port, Spot, ValueType};

fn node(key: u64, inputs: Vec<Port>) -> GNode {
    GNode {
        key,
        key_kind: KeyKind::Let,
        kind: NodeKind::Binary,
        name: None,
        op_label: "mix".to_string(),
        inputs,
        pos: Spot { x: 0, y: 0 },
        placed: false,
    }
}

fn port(site: u64, wired: Option<u64>) -> Port {
    Port { site, wired }
}

/// A state in which a shader of three nodes is open.
fn open() -> ShaderGraphState {
    let mut s = ShaderGraphState::new();
    s.path = Some("looks/glow.flsl".to_string());
    let view = vec![node(1, vec![]), node(2, vec![]), node(3, vec![])];
    s.parsed("text", &None, view, &HashMap::new(), &vec![None, None, None]);
    s
}

fn selected(s: &ShaderGraphState) -> Vec<u64> {
    s.sel.iter().copied().collect()
}

#[test]
fn acts_select_nodes() {
    let mut s = open();
    assert!(matches!(s.begin_act(Act::Select(vec![2, 1])), Work::Done));
    assert_eq!(selected(&s), vec![1, 2]);
    s.begin_act(Act::SelectAdd(vec![3]));
    assert_eq!(selected(&s), vec![1, 2, 3]);
    s.begin_act(Act::SelectToggle(2));
    assert_eq!(selected(&s), vec![1, 3]);
    s.begin_act(Act::SelectToggle(2));
    assert_eq!(selected(&s), vec![1, 2, 3]);
    match s.begin_act(Act::Delete(vec![1, 2])) {
        Work::Delete(keys) => assert_eq!(keys, vec![1, 2]),
        _ => panic!("they are deleted"),
    }
    assert!(selected(&s).is_empty());
}

#[test]
fn acts_without_a_shader_edit_nothing() {
    let mut s = ShaderGraphState::new();
    assert!(matches!(s.begin_act(Act::Live(1)), Work::Done));
    assert!(matches!(s.begin_act(Act::Commit { edit: 1, strict: true }), Work::Done));
    assert!(matches!(s.begin_act(Act::Place(vec![1])), Work::Done));
    assert!(matches!(s.begin_act(Act::Delete(vec![1])), Work::Done));
    assert!(matches!(s.begin_act(Act::Arrange), Work::Done));
    assert!(matches!(s.begin_act(Act::Duplicate(vec![1])), Work::Done));
    assert!(matches!(s.begin_act(Act::Undo), Work::Undo));
    assert!(matches!(s.begin_act(Act::Redo), Work::Redo));
    assert!(s.commit_returning(Ok(vec![1])).is_none());
}

#[test]
fn acts_leave_the_rest_to_be_done() {
    let mut s = open();
    assert!(matches!(s.begin_act(Act::Live(7)), Work::Live(7)));
    assert!(matches!(
        s.begin_act(Act::Commit { edit: 8, strict: true }),
        Work::Commit { edit: 8, strict: true }
    ));
    s.pos_cache.put("a", Spot { x: 1, y: 2 });
    assert!(matches!(s.begin_act(Act::Arrange), Work::Arrange));
    assert!(s.pos_cache.get("a").is_none(), "all nodes are laid out anew");
}

#[test]
fn nodes_that_were_made_come_back_once() {
    let mut s = open();
    assert_eq!(s.commit_returning(Ok(vec![4, 5])), Some(vec![4, 5]));
    assert!(s.history.dirty);
    let mut s = open();
    assert_eq!(s.commit_returning(Err("no room".to_string())), None);
    assert!(!s.history.dirty);
    assert_eq!(s.status.as_ref().unwrap().text, "no room");
}

#[test]
fn only_values_are_renamed() {
    assert_eq!(rename_plan(KeyKind::Let), Ok(RenamePlan::Rename));
    assert_eq!(rename_plan(KeyKind::Anon), Ok(RenamePlan::PromoteAndRename));
    assert_eq!(rename_plan(KeyKind::Out), Err("only value nodes rename".to_string()));
}

#[test]
fn edits_are_made_in_their_manner() {
    assert_eq!(edit_manner(NodeEdit::PortNumber), EditManner::Live);
    assert_eq!(edit_manner(NodeEdit::KnobValue), EditManner::Live);
    assert_eq!(edit_manner(NodeEdit::Connect), EditManner::Strict);
    assert_eq!(edit_manner(NodeEdit::Swizzle), EditManner::Strict);
    assert_eq!(edit_manner(NodeEdit::KnobType), EditManner::Strict);
    assert_eq!(edit_manner(NodeEdit::Disconnect), EditManner::Loose);
    assert_eq!(edit_manner(NodeEdit::Blend), EditManner::Loose);
}

#[test]
fn knobs_are_edited() {
    let one = 1.0f32.to_bits();
    let mut knobs = vec![Knob {
        ty: ValueType::Vec3,
        is_color: false,
        default: [1, 2, 3, 4],
        range: None,
    }];
    assert_eq!(knob_lanes(&knobs[0]), Some(3));
    assert_eq!(knob_range(&knobs[0]), (0, one));
    assert_eq!(edit_knob(&mut knobs, 0, KnobEdit::Lane { lane: 1, bits: 9 }), Ok(()));
    assert_eq!(edit_knob(&mut knobs, 0, KnobEdit::Range { low: 5, high: 6 }), Ok(()));
    let float = KnobType { ty: ValueType::Float, is_color: false };
    assert_eq!(edit_knob(&mut knobs, 0, KnobEdit::Type(float)), Ok(()));
    assert_eq!(
        knobs[0],
        Knob {
            ty: ValueType::Float,
            is_color: false,
            default: [1, 9, 3, 4],
            range: Some((5, 6)),
        }
    );
    assert_eq!(edit_knob(&mut knobs, 0, KnobEdit::Type(knob_types()[4])), Ok(()));
    assert_eq!((knobs[0].is_color, knobs[0].default, knobs[0].range), (true, [one; 4], None));
    assert_eq!(knob_lanes(&knobs[0]), None);
    assert_eq!(edit_knob(&mut knobs, 0, KnobEdit::Colour([4; 4])), Ok(()));
    assert_eq!(knobs[0].default, [4; 4]);
    assert_eq!(
        edit_knob(&mut knobs, 1, KnobEdit::Colour([4; 4])),
        Err("stale uniform".to_string())
    );
}

#[test]
fn wires_start_at_nodes_that_are_there() {
    let view = vec![
        node(10, vec![]),
        node(20, vec![port(1, Some(10)), port(2, None), port(3, Some(99))]),
        node(30, vec![port(4, Some(20)), port(5, Some(10))]),
    ];
    assert_eq!(
        wires(&view),
        vec![
            Wire { from: 0, to: 1, port: 0 },
            Wire { from: 1, to: 2, port: 0 },
            Wire { from: 0, to: 2, port: 1 },
        ]
    );
    assert_eq!(port_of_site(&view, 3), Some((1, 2)));
    assert_eq!(port_of_site(&view, 5), Some((2, 1)));
    assert_eq!(port_of_site(&view, 6), None);
}

#[test]
fn the_canvas_says_how_to_begin() {
    assert!(canvas_hint(0).is_some() && canvas_hint(1).is_some());
    assert_eq!(canvas_hint(2), None);
    assert!(wheel_zooms(true, false, false, false, true));
    assert!(!wheel_zooms(true, true, false, false, true));
    assert!(!wheel_zooms(true, false, false, false, false));
    assert!(matches!(tab_body(false, true, &None), TabBody::Empty));
    assert!(matches!(tab_body(true, true, &None), TabBody::Canvas));
    assert!(matches!(tab_body(true, false, &None), TabBody::Nothing));
    match tab_body(true, false, &Some("1:2: bad".to_string())) {
        TabBody::Broken(t) => assert_eq!(t, "⚠ 1:2: bad"),
        _ => panic!("the text does not parse"),
    }
}
