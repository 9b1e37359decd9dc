use floptle_editor::script_meta::{
    is_bool_literal, key_of, literal_of, parse, script_path, split_comment, ParamMeta,
    ScriptMetaCache,
};

const SRC: &str = r##"
-- Planet-surface character controller.
-- Second line of the blurb.
defaults = {
  --@header Movement
  -- How fast you walk on flat ground.
  --@range 0 20 --@units m/s
  walk = 4.5,
  run = 8.0,

  --@header Animation
  --@desc Blend between walk and run.
  --@slider 0 1
  --@step 0.05
  blend = 0.35,
  --@options Off|On|Auto
  sas = 0,
  --@options walk|run|sprint
  gait = "walk",
  invert = false,
  --@color
  tint = "#ff8800",
  --@hidden
  debugScale = 1.0,
  -- a nested table's keys are not params
  curve = { a = 1, b = 2 },
  after = 3.0,
}

--@editorButton Generate_roll roll
function roll(node) end
"##;

fn numbers(range: &Option<(String, String)>) -> Option<(f32, f32)> {
    range.as_ref().map(|(a, b)| (a.parse().unwrap(), b.parse().unwrap()))
}

#[test]
fn declaration_order_and_annotations_come_through() {
    let m = parse(SRC);
    let names: Vec<&str> = m.params.iter().map(|p| p.name.as_str()).collect();
    assert_eq!(
        names,
        ["walk", "run", "blend", "sas", "gait", "invert", "tint", "debugScale", "curve", "after"],
        "params render in declaration order, and a nested table's keys are not params"
    );

    let walk = m.param("walk").unwrap();
    assert_eq!(walk.header.as_deref(), Some("Movement"));
    assert_eq!(walk.desc.as_deref(), Some("How fast you walk on flat ground."));
    assert_eq!(numbers(&walk.range), Some((0.0, 20.0)));
    assert_eq!(walk.units.as_deref(), Some("m/s"), "two annotations can share a line");

    let run = m.param("run").unwrap();
    assert_eq!(run.header, None);
    assert_eq!(run.desc, None);
    assert_eq!(run.range, None);

    let blend = m.param("blend").unwrap();
    assert_eq!(blend.header.as_deref(), Some("Animation"));
    assert!(blend.slider);
    assert_eq!(numbers(&blend.range), Some((0.0, 1.0)));
    assert_eq!(blend.step.as_ref().map(|s| s.parse::<f32>().unwrap()), Some(0.05));

    assert_eq!(m.param("sas").unwrap().options, ["Off", "On", "Auto"]);
    assert_eq!(m.param("gait").unwrap().options, ["walk", "run", "sprint"]);
    assert!(m.param("invert").unwrap().boolean, "a `= false` default is a checkbox");
    assert!(m.param("tint").unwrap().color);
    assert!(m.param("debugScale").unwrap().hidden);
    assert_eq!(m.param("after").unwrap().desc, None);

    assert_eq!(m.buttons, [("Generate roll".to_string(), "roll".to_string())]);
    assert_eq!(
        m.about.as_deref(),
        Some("Planet-surface character controller. Second line of the blurb.")
    );
}

#[test]
fn an_unannotated_script_still_yields_ordered_params() {
    let m = parse("defaults = {\n  walk = 4.5,\n  run = 8.0,\n}\n");
    let names: Vec<&str> = m.params.iter().map(|p| p.name.as_str()).collect();
    assert_eq!(names, ["walk", "run"]);
    assert_eq!(
        m.params[0],
        ParamMeta { name: "walk".into(), default: Some("4.5".into()), ..Default::default() }
    );
}

#[test]
fn the_declared_default_is_captured_as_written() {
    let m = parse(
        "defaults = {\n  walk = 4.5,\n  invert = false,\n  clip = \"footstep\",\n\
         \x20 target = noderef(),\n  curve = { 1, 2 },\n}\n",
    );
    assert_eq!(m.param("walk").unwrap().default.as_deref(), Some("4.5"));
    assert_eq!(m.param("invert").unwrap().default.as_deref(), Some("false"));
    assert_eq!(m.param("clip").unwrap().default.as_deref(), Some("\"footstep\""));
    assert_eq!(m.param("target").unwrap().default, None, "a call is not a literal");
    assert_eq!(m.param("curve").unwrap().default, None, "nor is a table");
}

#[test]
fn strings_and_missing_defaults_are_handled() {
    let m = parse("defaults = {\n  sep = \"--@header Nope\",\n}\n");
    assert_eq!(m.params.len(), 1);
    assert_eq!(m.params[0].name, "sep");
    assert_eq!(m.params[0].header, None, "an annotation inside a string is text, not markup");

    let none = parse("function update(node, dt) end\n");
    assert!(none.params.is_empty() && none.buttons.is_empty());
}

#[test]
fn editor_buttons_match_the_old_parser() {
    let m = parse("--@editorButton Generate\nfunction Generate(n) end\n");
    assert_eq!(m.buttons, [("Generate".to_string(), "Generate".to_string())]);
    let m = parse("--@editorButton Regrow_flora regrow\n");
    assert_eq!(m.buttons, [("Regrow flora".to_string(), "regrow".to_string())]);
}

#[test]
fn an_annotation_that_nobody_knows_changes_nothing() {
    let plain = parse("defaults = {\n  walk = 1,\n}\n");
    let marked = parse("defaults = {\n  --@sparkle very\n  walk = 1,\n}\n");
    assert_eq!(plain.params, marked.params);
}

#[test]
fn a_comment_splits_off_outside_of_strings_only() {
    assert_eq!(split_comment("a = 1 -- one"), ("a = 1 ", Some("one")));
    assert_eq!(split_comment("a = \"--\""), ("a = \"--\"", None));
    assert_eq!(split_comment("a = 1"), ("a = 1", None));
}

#[test]
fn keys_and_literals_are_read_from_a_line() {
    assert_eq!(key_of("  walk = 4.5,").as_deref(), Some("walk"));
    assert_eq!(key_of("4 = 5"), None);
    assert_eq!(key_of("a == 1"), None, "a comparison assigns nothing");
    assert_eq!(key_of("a =="), None);
    assert_eq!(key_of("a ="), Some("a".to_string()));
    assert_eq!(key_of("a = b == c"), Some("a".to_string()));
    assert_eq!(literal_of("walk = 4.5,").as_deref(), Some("4.5"));
    assert_eq!(literal_of("walk = f(),"), None);
    assert!(is_bool_literal("on = true,"));
    assert!(!is_bool_literal("on = maybe,"));
}

#[test]
fn a_script_is_read_again_when_its_stamp_changes() {
    let path = script_path("/p", "walker");
    assert_eq!(path, "/p/scripts/walker.lua");
    let mut cache = ScriptMetaCache::new();
    assert!(cache.is_stale(&path, Some(1)));
    assert!(cache.get(&path).is_none());
    cache.store(&path, Some(1), "defaults = {\n  a = 1,\n}\n");
    assert!(!cache.is_stale(&path, Some(1)));
    assert!(cache.is_stale(&path, Some(2)));
    assert!(cache.is_stale("/p/scripts/other.lua", Some(1)));
    assert_eq!(cache.get(&path).unwrap().params[0].name, "a");
    cache.store(&path, Some(2), "defaults = {\n  b = 1,\n}\n");
    assert_eq!(cache.get(&path).unwrap().params[0].name, "b");
}

#[test]
fn a_table_is_over_once_it_is_closed() {
    assert!(parse("defaults = {}\nspeed = 3\n").params.is_empty());
    assert!(parse("defaults = { curve = { 1, 2 } }\nspeed = 3\n").params.is_empty());
    assert_eq!(names("defaults = { curve = {\n  a = 1,\n}\n}\nspeed = 3\n"), Vec::<String>::new());
    assert_eq!(names("defaults = {\n  speed = 3,\n  curve = { 1 } }\nafter = 4\n"), ["speed", "curve"]);
    assert_eq!(names("defaults = {\n  speed = 3,\n}\nafter = 4\n"), ["speed"]);
    // Notes before a table that is closed at once belong to the script.
    let meta = parse("--- @desc what it is\ndefaults = {}\n");
    assert!(meta.params.is_empty());
}

/// The keys of the params of a script.
fn names(source: &str) -> Vec<String> {
    parse(source).params.into_iter().map(|p| p.name).collect()
}

#[test]
fn a_line_with_an_unknown_annotation_is_as_good_as_not_there() {
    let source = "--- about\n-- what it does\ndefaults = {\n  --@range 0 20\n  -- how fast\n  walk = 4.5,\n  --@slider 0 1\n  blend = 0.3,\n}\n--@editorButton Go run\n";
    let plain = parse(source);
    assert_eq!(plain.params.len(), 2);
    let lines: Vec<&str> = source.split_inclusive('\n').collect();
    for at in 0..=lines.len() {
        for line in ["--@bogus anything\n", "  --@rang 1 2 --@unitz m\r\n", "--@x\n"] {
            let with = lines[..at].concat() + line + &lines[at..].concat();
            assert_eq!(parse(&with), plain, "{line:?} before line {at}");
        }
    }
}
