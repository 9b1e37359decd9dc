use floptle_editor::shaders::{
    check_flsl_syntax, distinct_paths, field_plan, is_parked, located, module_rejected, report,
    slot_order, too_many_shapes, unreadable, BindAction, Bindings, FieldShape, FieldStep, Plan, ShaderStore,
    Splice,
};

fn strings(names: &[&str]) -> Vec<String> {
    names.iter().map(|n| n.to_string()).collect()
}

#[test]
fn a_shader_that_is_named_twice_is_looked_at_once() {
    assert_eq!(
        distinct_paths(strings(&["b.flsl", "a.flsl", "b.flsl", "c/a.flsl"])),
        strings(&["a.flsl", "b.flsl", "c/a.flsl"])
    );
    assert!(distinct_paths(vec![]).is_empty());
}

fn plan(entity: u64, shader: u64, params: &[u8], textures: &[Option<u64>]) -> Plan {
    Plan { entity, shader, params: params.to_vec(), textures: textures.to_vec() }
}

#[test]
fn a_slot_is_touched_only_where_something_changed() {
    let mut b = Bindings::new();
    assert_eq!(b.want(&plan(1, 7, &[1], &[])), BindAction::Create { reuse: None });
    b.bound(plan(1, 7, &[1], &[]), 100);
    assert_eq!(b.want(&plan(1, 7, &[1], &[])), BindAction::Keep);
    assert_eq!(b.want(&plan(1, 7, &[2], &[])), BindAction::WriteParams { binding: 100 });
    assert_eq!(b.want(&plan(1, 7, &[2], &[])), BindAction::Keep);
    assert_eq!(b.want(&plan(1, 7, &[2], &[Some(3)])), BindAction::Rebuild { binding: 100 });
    assert_eq!(b.want(&plan(1, 8, &[2], &[])), BindAction::Rebuild { binding: 100 });
    b.bound(plan(1, 8, &[2], &[]), 100);
    assert_eq!(b.live.len(), 1);
}

#[test]
fn a_slot_that_is_given_back_is_used_again() {
    let mut b = Bindings::new();
    b.bound(plan(1, 7, &[], &[]), 100);
    b.bound(plan(2, 7, &[], &[]), 101);
    b.bound(plan(3, 8, &[], &[]), 102);
    b.release_stale(&vec![2, 3]);
    assert_eq!(b.free, vec![100]);
    assert_eq!(b.want(&plan(9, 7, &[], &[])), BindAction::Create { reuse: Some(100) });
    assert!(b.free.is_empty());
    b.retire(7);
    assert_eq!(b.free, vec![101]);
    assert_eq!(b.live.len(), 1);
    assert_eq!(b.live[0].entity, 3);
}

#[test]
fn a_failure_is_reported_once_and_keeps_the_last_good_compile() {
    let mut s = ShaderStore::new();
    assert!(s.needs_compile("a.flsl", Some(5)));
    assert_eq!(s.compile_passed("a.flsl", Some(5), 7, strings(&["albedo"])), "◈ compiled a.flsl");
    assert!(!s.needs_compile("a.flsl", Some(5)));
    assert!(s.needs_compile("a.flsl", Some(6)));
    assert!(s.needs_compile("a.flsl", None));
    assert_eq!(s.replaces("a.flsl"), Some(7));
    assert_eq!(s.compile_failed("a.flsl", Some(6), "bad"), Some("◈ a.flsl: bad".to_string()));
    assert_eq!(s.compile_failed("a.flsl", Some(7), "bad"), None);
    assert_eq!(s.compile_failed("a.flsl", Some(8), "worse"), Some("◈ a.flsl: worse".to_string()));
    assert_eq!(s.replaces("a.flsl"), Some(7));
    assert_eq!(s.replaces("b.flsl"), None);
    s.bindings.bound(plan(1, 7, &[], &[]), 100);
    s.compile_passed("a.flsl", Some(9), 7, vec![]);
    assert_eq!(s.bindings.free, vec![100]);
}

#[test]
fn a_node_has_one_slot() {
    let mut b = Bindings::new();
    b.bound(plan(1, 7, &[], &[]), 100);
    b.bound(plan(2, 7, &[], &[]), 101);
    b.bound(plan(1, 8, &[], &[]), 102);
    assert_eq!(b.live.iter().map(|m| (m.entity, m.binding)).collect::<Vec<_>>(), [(1, 102), (2, 101)]);
    b.release_stale(&vec![2]);
    assert_eq!(b.live.len(), 1);
    b.retire(7);
    assert!(b.live.is_empty());
}

fn shape(entity: u64, index: u32, shader: &str) -> FieldShape {
    FieldShape { entity, index, shader: shader.to_string() }
}

#[test]
fn the_field_is_made_anew_only_where_something_changed() {
    let mut s = ShaderStore::new();
    assert!(s.needs_parse("a.flsl", Some(1)));
    s.parse_passed("a.flsl", Some(1), 40);
    assert!(!s.needs_parse("a.flsl", Some(1)));
    let shapes = vec![shape(1, 0, "a.flsl")];
    assert!(s.field_changed(&shapes));
    assert!(!s.field_changed(&shapes));
    assert_eq!(s.parse_failed("a.flsl", Some(2), "bad"), Some("◈ a.flsl: bad".to_string()));
    assert_eq!(s.parse_failed("a.flsl", Some(3), "bad"), None);
    assert!(!s.field_changed(&shapes), "the last good parse stays");
    s.parse_passed("a.flsl", Some(4), 41);
    assert!(s.field_changed(&shapes));
    assert!(s.field_changed(&vec![]));
}

#[test]
fn shapes_are_put_in_and_taken_out() {
    let mut s = ShaderStore::new();
    assert_eq!(s.settle_field(&Splice::new()), FieldStep::Nothing);
    let mut splice = Splice::new();
    assert_eq!(splice.next_slot(), 0);
    splice.push(5, "D0", "C0");
    assert_eq!(s.settle_field(&splice), FieldStep::Splice);
    assert_eq!(s.spliced(splice), "◈ field: 1 shape spliced into the scene field");
    assert_eq!((s.shape_count(), s.slots.clone()), (1, vec![5]));
    assert_eq!(s.settle_field(&Splice::new()), FieldStep::Restore);
    assert_eq!(s.shape_count(), 0);
    let mut splice = Splice::new();
    splice.push(5, "", "");
    splice.push(6, "", "");
    assert_eq!(s.spliced(splice), "◈ field: 2 shapes spliced into the scene field");
    assert!(s.clear_flsl_state());
    assert!(!s.clear_flsl_state());
}

#[test]
fn the_code_of_the_field() {
    let mut splice = Splice::new();
    splice.push(5, "fn a() {}\n", "fn b() {}\n");
    splice.push(6, "", "");
    assert_eq!(
        splice.field_code(),
        "fn a() {}\nfn custom_d(p: vec3<f32>) -> f32 {\n    var d = 1e9;\n    d = min(d, flsl_shape0_d(p));\n    d = min(d, flsl_shape1_d(p));\n    return d;\n}\n"
    );
    assert_eq!(
        splice.color_code(),
        "fn b() {}\nfn custom_col(p: vec3<f32>) -> Matter {\n    var m = Matter(1e9, vec3<f32>(0.0));\n    let d0 = flsl_shape0_d(p);\n    if (d0 < m.d) { m = Matter(d0, flsl_shape0_col(p)); }\n    let d1 = flsl_shape1_d(p);\n    if (d1 < m.d) { m = Matter(d1, flsl_shape1_col(p)); }\n    return m;\n}\nfn nearest_shape(p: vec3<f32>) -> i32 {\n    var bi = 0;\n    var bd = 1e9;\n    let s0 = flsl_shape0_d(p);\n    if (s0 < bd) { bd = s0; bi = 0; }\n    let s1 = flsl_shape1_d(p);\n    if (s1 < bd) { bd = s1; bi = 1; }\n    return bi;\n}\n"
    );
}

#[test]
fn slots_go_by_the_number_of_the_node() {
    let shapes = vec![shape(30, 3, "c"), shape(10, 1, "a"), shape(20, 2, "b")];
    let (kept, more) = slot_order(&shapes, 2);
    assert_eq!(kept.iter().map(|s| s.entity).collect::<Vec<_>>(), vec![10, 20]);
    assert!(more);
    let (kept, more) = slot_order(&shapes, 3);
    assert_eq!(kept.len(), 3);
    assert!(!more);
    assert_eq!(too_many_shapes(8), "scene has more than 8 Field Shapes — extras don't render");
}

#[test]
fn too_many_shapes_are_told_of_when_the_field_changes() {
    let shapes = vec![shape(30, 3, "b"), shape(10, 1, "b"), shape(20, 2, "a")];
    assert!(field_plan(true, false, true, &shapes, 2).is_none());
    assert!(field_plan(false, true, true, &shapes, 2).is_none());
    assert!(field_plan(true, true, false, &shapes, 2).is_none());
    let plan = field_plan(true, true, true, &shapes, 2).unwrap();
    assert!(plan.cut);
    assert_eq!(plan.kept.iter().map(|s| s.entity).collect::<Vec<_>>(), vec![10, 20]);
    assert_eq!(plan.paths, ["a", "b"]);
    let mut s = ShaderStore::new();
    let turn = s.field_turn(&plan.kept, plan.cut, 2);
    assert!(turn.changed);
    assert_eq!(
        turn.warning.as_deref(),
        Some("scene has more than 2 Field Shapes — extras don't render")
    );
    let turn = s.field_turn(&plan.kept, plan.cut, 2);
    assert!(!turn.changed && turn.warning.is_none(), "it is not said every frame");
    let plan = field_plan(true, true, true, &shapes, 3).unwrap();
    assert!(!plan.cut);
    let turn = s.field_turn(&plan.kept, plan.cut, 3);
    assert!(turn.changed && turn.warning.is_none());
}

#[test]
fn a_shape_is_parked_where_it_is_gone_or_not_the_one() {
    assert!(is_parked(1, None, false));
    assert!(is_parked(1, Some(2), true));
    assert!(!is_parked(1, Some(1), true));
    assert!(!is_parked(1, None, true));
}

#[test]
fn the_lines_of_the_shaders() {
    assert_eq!(report("a.flsl", "bad"), "◈ a.flsl: bad");
    assert_eq!(unreadable("gone"), "can't read shader (gone)");
    assert_eq!(located(3, 14, "bad"), "3:14: bad");
    assert_eq!(
        module_rejected("depth", "bad"),
        "◈ field shapes: generated depth module rejected: bad"
    );
}

#[test]
fn a_mark_stands_on_the_line_of_the_message() {
    assert_eq!(check_flsl_syntax(Ok(())), None);
    assert_eq!(
        check_flsl_syntax(Err("12:4: bad\nmore".to_string())),
        Some((12, "12:4: bad".to_string()))
    );
    assert_eq!(check_flsl_syntax(Err("bad".to_string())), Some((1, "bad".to_string())));
    assert_eq!(check_flsl_syntax(Err("".to_string())), Some((1, "".to_string())));
    assert_eq!(check_flsl_syntax(Err("x: 3".to_string())), Some((1, "x: 3".to_string())));
}
