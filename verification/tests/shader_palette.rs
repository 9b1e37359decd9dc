use floptle_editor::shader_palette::{finds, hit, palette, Adds, OpInfo, PaletteEntry};

fn op(name: &str, category: &str, doc: &str, in_stage: bool) -> OpInfo {
    OpInfo {
        name: name.to_string(),
        category: category.to_string(),
        doc: doc.to_string(),
        in_stage,
    }
}

fn labels(entries: &[PaletteEntry]) -> Vec<&str> {
    entries.iter().map(|e| e.label.as_str()).collect()
}

#[test]
fn nothing_typed_finds_everything() {
    let ops = vec![
        op("fbm", "noise", "layered noise", true),
        op("sin", "math", "a wave", true),
        op("box", "sdf", "a box", false),
        op("odd", "unheard", "", true),
    ];
    let all = palette("", &vec!["uv".to_string()], &ops);
    assert_eq!(
        labels(&all),
        vec![
            "knob", "color knob", "texture slot", "constant", "combine 2", "combine 3",
            "combine 4", "split", "uv", "add  +", "subtract  −", "multiply  ×", "divide  ÷",
            "sin", "fbm",
        ]
    );
    assert_eq!(all[8].adds, Adds::Input(0));
    assert_eq!((all[13].adds, all[13].heading.as_str()), (Adds::Op(1), "math"));
}

#[test]
fn what_is_typed_is_found_in_names_and_words() {
    let ops = vec![op("fbm", "noise", "Layered Noise", true)];
    assert_eq!(labels(&palette("LAYERED", &vec![], &ops)), vec!["fbm"]);
    assert_eq!(labels(&palette("slider", &vec![], &ops)), vec!["knob"]);
    assert_eq!(labels(&palette("input", &vec!["uv".to_string()], &ops)), vec!["uv"]);
    assert_eq!(labels(&palette("operator", &vec![], &ops)).len(), 4);
    assert!(palette("zzz", &vec![], &ops).is_empty());
}

#[test]
fn letters_of_any_alphabet_have_a_small_form() {
    assert!(hit("ÉCLAT", "éclat", ""));
    assert!(hit("éclat", "ÉCLAT", ""));
    assert!(hit("", "x", ""));
    assert!(!hit("q", "x", "y"));
    assert!(finds("ab", "cab", ""));
    assert!(finds("ab", "", "tabs"));
    assert!(!finds("ab", "ba", ""));
}
