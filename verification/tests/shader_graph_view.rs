use std::collections::HashMap;

use floptle_editor::scene_tab::Rgba;
use floptle_editor::shader_graph_view::{
    freeze_positions, graph_pad, node_color, port_color, previewable, shows_preview,
    sink_path_keys, GNode, KeyKind, NodeKind, Port, Spot, ValueType, PREVIEW_ROOM,
};
use floptle_editor::table::Table;

fn node(key: u64, key_kind: KeyKind, kind: NodeKind, label: &str, wired: &[Option<u64>]) -> GNode {
    GNode {
        key,
        key_kind,
        kind,
        name: None,
        op_label: label.to_string(),
        inputs: wired
            .iter()
            .enumerate()
            .map(|(i, w)| Port { site: key * 10 + i as u64, wired: *w })
            .collect(),
        pos: Spot { x: key as u32, y: 0 },
        placed: false,
    }
}

/// The end of a graph, a mix of a wave and a noise, both of a shared input.
fn graph() -> Vec<GNode> {
    vec![
        node(1, KeyKind::Out, NodeKind::Out, "out", &[Some(2), None]),
        node(2, KeyKind::Let, NodeKind::Binary, "mix", &[Some(3), Some(4)]),
        node(3, KeyKind::Anon, NodeKind::Neg, "sin", &[Some(5)]),
        node(4, KeyKind::Anon, NodeKind::Neg, "fbm", &[Some(5)]),
        node(5, KeyKind::Other, NodeKind::Input, "uv", &[]),
        node(6, KeyKind::Let, NodeKind::Constant, "loose", &[]),
    ]
}

#[test]
fn a_node_is_named_by_the_way_to_it() {
    let paths = sink_path_keys(&graph());
    let path = |k: u64| paths.get(&k).map(|s| s.as_str());
    assert_eq!(path(1), Some("p"));
    assert_eq!(path(2), Some("p/0.mix"));
    assert_eq!(path(3), Some("p/0.mix/0.sin"));
    assert_eq!(path(4), Some("p/0.mix/1.fbm"));
    assert_eq!(path(5), Some("p/0.mix/1.fbm/0.uv"));
    assert_eq!(path(6), None);
}

#[test]
fn a_ring_of_wires_ends() {
    let view = vec![
        node(1, KeyKind::Out, NodeKind::Out, "out", &[Some(2)]),
        node(2, KeyKind::Let, NodeKind::Neg, "a", &[Some(3)]),
        node(3, KeyKind::Let, NodeKind::Neg, "b", &[Some(2)]),
    ];
    let paths = sink_path_keys(&view);
    assert_eq!(paths.len(), 3);
    assert_eq!(paths.get(&3).map(|s| s.as_str()), Some("p/0.a/0.b"));
}

#[test]
fn renaming_a_value_leaves_the_rest_where_it_stands() {
    let mut cache: Table<Spot> = Table::new();
    let mut view = graph();
    let paths = sink_path_keys(&view);
    let mut names: HashMap<u64, String> = HashMap::new();
    names.insert(2, "let:glow".to_string());
    for (i, n) in view.iter_mut().enumerate() {
        n.pos = Spot { x: 100 + i as u32, y: 7 };
    }
    freeze_positions(&mut view, &names, &paths, &mut cache);
    assert_eq!(cache.get("let:glow"), Some(&Spot { x: 101, y: 7 }));
    assert_eq!(cache.get("p/0.mix/0.sin"), Some(&Spot { x: 102, y: 7 }));

    // The value has another name and another number, and everything was laid out
    // anew.
    let mut after = graph();
    after[1].key = 22;
    after[0].inputs[0].wired = Some(22);
    for n in after.iter_mut() {
        n.pos = Spot { x: 0, y: 0 };
    }
    let paths = sink_path_keys(&after);
    let mut names: HashMap<u64, String> = HashMap::new();
    names.insert(22, "let:shine".to_string());
    freeze_positions(&mut after, &names, &paths, &mut cache);
    assert_eq!(after[1].pos, Spot { x: 101, y: 7 });
    assert_eq!(after[3].pos, Spot { x: 103, y: 7 });
    assert_eq!(after[5].pos, Spot { x: 0, y: 0 }, "a loose node has no name to go by");
}

#[test]
fn the_file_says_where_a_node_stands() {
    let mut cache: Table<Spot> = Table::new();
    cache.put("p", Spot { x: 1, y: 1 });
    let mut view = vec![node(9, KeyKind::Out, NodeKind::Out, "out", &[])];
    view[0].placed = true;
    view[0].pos = Spot { x: 50, y: 60 };
    let paths = sink_path_keys(&view);
    freeze_positions(&mut view, &HashMap::new(), &paths, &mut cache);
    assert_eq!(view[0].pos, Spot { x: 50, y: 60 });
    assert_eq!(cache.get("p"), Some(&Spot { x: 50, y: 60 }));
}

#[test]
fn numbers_and_knobs_have_no_picture() {
    let pic = node(1, KeyKind::Let, NodeKind::Binary, "mix", &[]);
    let num = node(2, KeyKind::Let, NodeKind::Constant, "const", &[]);
    let knob = node(3, KeyKind::Other, NodeKind::Uniform, "knob", &[]);
    assert!(previewable(&pic) && !previewable(&num) && !previewable(&knob));
    assert_eq!((graph_pad(&pic), graph_pad(&num)), (PREVIEW_ROOM, 0));
    assert!(shows_preview(&pic, true, false));
    assert!(!shows_preview(&pic, false, false) && !shows_preview(&pic, true, true));
}

#[test]
fn colours_tell_types_apart() {
    assert_eq!(
        port_color(Some(ValueType::Vec3), false),
        Some(Rgba { r: 230, g: 200, b: 90, a: 255 })
    );
    assert_eq!(port_color(None, true), Some(Rgba { r: 190, g: 140, b: 255, a: 255 }));
    assert_eq!(port_color(None, false), None);
    let op = |c: &str| {
        node(1, KeyKind::Let, NodeKind::Op { category: c.to_string() }, "x", &[])
    };
    assert_eq!(node_color(&op("noise")), Some(Rgba { r: 80, g: 180, b: 170, a: 255 }));
    assert_eq!(node_color(&op("other")), None);
    assert_eq!(
        node_color(&node(1, KeyKind::Out, NodeKind::Out, "out", &[])),
        Some(Rgba { r: 235, g: 110, b: 90, a: 255 })
    );
}
