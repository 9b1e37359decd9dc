use floptle_editor::settings_ui::{
    self, clear_search, collision_matrix, edit_access, entry_scene, font_row, kept_in, navigation,
    no_match_text, remove_click, scene_label, search_hits,
    section_shown, shows_correction, steam_id_from, title_from, Access, AccessEdit, Icon,
    ProbeDetail, ProjectLayers, RemoveClick, RenderingChoices, ScriptVec3, SettingsSection,
    SortEdit, Vsync, PLAIN_SCALE,
};

#[test]
fn search_is_case_insensitive_and_empty_matches_all() {
    assert!(settings_ui::matches("", "anything"));
    assert!(settings_ui::matches("GAMEPAD", "keyboard gamepad pad"));
    assert!(settings_ui::matches("pad", "GAMEPAD"));
    assert!(!settings_ui::matches("zzz", "keyboard gamepad"));
}

#[test]
fn common_searches_find_their_section() {
    let find = |q: &str| {
        SettingsSection::all()
            .into_iter()
            .find(|s| settings_ui::matches(q, s.title()) || settings_ui::matches(q, s.blurb()) || settings_ui::matches(q, s.keywords()))
    };
    for (q, want) in [
        ("gamepad", SettingsSection::Input),
        ("controller", SettingsSection::Input),
        ("rebind", SettingsSection::Input),
        ("deadzone", SettingsSection::Input),
        ("jump", SettingsSection::Input),
        ("retro", SettingsSection::Rendering),
        ("pixel", SettingsSection::Rendering),
        ("collision", SettingsSection::Layers),
        ("raycast", SettingsSection::Layers),
        ("title", SettingsSection::Game),
        ("entry", SettingsSection::Game),
    ] {
        assert_eq!(find(q), Some(want), "searching {q:?}");
    }
}

#[test]
fn every_section_has_a_blurb_and_keywords() {
    for s in SettingsSection::all() {
        assert!(!s.blurb().is_empty(), "{s:?}");
        assert!(!s.keywords().is_empty(), "{s:?}");
        assert!(!s.title().is_empty(), "{s:?}");
    }
}

#[test]
fn the_settings_are_found_letter_by_letter() {
    assert_eq!(search_hits("gamepad"), vec![SettingsSection::Input]);
    assert_eq!(search_hits("").len(), 5);
    assert!(search_hits("zzz").is_empty());
    assert_eq!(section_shown(SettingsSection::Game, ""), Some(SettingsSection::Game));
    assert_eq!(section_shown(SettingsSection::Game, "raycast"), Some(SettingsSection::Layers));
    assert_eq!(section_shown(SettingsSection::Game, "zzz"), None);
    assert_eq!(no_match_text(" zzz "), "no settings match “zzz”");
    assert_eq!(SettingsSection::Access.title(), "Accessibility");
    assert_eq!(SettingsSection::Game.icon(), Icon::Play);
}

#[test]
fn letters_with_marks_are_found_as_they_are() {
    assert!(settings_ui::matches(" un été ", "UN été"));
    assert!(!settings_ui::matches("ÉTÉ", "un été"));
}

#[test]
fn a_blank_field_sets_nothing() {
    assert_eq!(title_from("  "), None);
    assert_eq!(title_from(" My Game"), Some(" My Game".to_string()));
    assert_eq!(steam_id_from(0), None);
    assert_eq!(steam_id_from(480), Some(480));
    assert_eq!(entry_scene(&None), "scenes/first.ron");
    assert_eq!(entry_scene(&Some("scenes/a.ron".to_string())), "scenes/a.ron");
    assert_eq!(scene_label("scenes/arena.ron"), "arena");
}

#[test]
fn a_choice_that_changes_nothing_is_not_saved() {
    let mut c = RenderingChoices {
        vsync: Vsync::On,
        probe_detail: ProbeDetail::High,
        script_vec3: Some(ScriptVec3::Exact),
    };
    assert!(!c.choose_from_lists(Vsync::On, ProbeDetail::High, ScriptVec3::Exact));
    assert!(c.choose_from_lists(Vsync::Off, ProbeDetail::High, ScriptVec3::Exact));
    assert_eq!(c.vsync, Vsync::Off);
    assert_eq!(Vsync::Adaptive.label(), "uncapped, no tearing");
    assert_eq!(ProbeDetail::Ultra.label(), "ultra");
    assert_eq!(ScriptVec3::Fast.label(), "fast");
}

fn strings(names: &[&str]) -> Vec<String> {
    names.iter().map(|n| n.to_string()).collect()
}

#[test]
fn sorting_layers_move_and_go() {
    let mut l = ProjectLayers {
        sorting_layers: strings(&["A", "B", "C"]),
        layers: vec![],
        no_collide: vec![],
    };
    l.edit_sorting(SortEdit::Up(1));
    assert_eq!(l.sorting_layers, strings(&["B", "A", "C"]));
    l.edit_sorting(SortEdit::Down(0));
    assert_eq!(l.sorting_layers, strings(&["A", "B", "C"]));
    l.edit_sorting(SortEdit::Remove(1));
    assert_eq!(l.sorting_layers, strings(&["A", "C"]));
    l.name_sorting(0, "Front");
    assert_eq!(l.sorting_layers[0], "Front");
    assert!(!l.layers.contains(&"Front".to_string()), "nothing follows");
    l.add_sorting();
    assert_eq!(l.sorting_layers, strings(&["Front", "C", "Layer 3"]));
}

#[test]
fn a_pair_that_is_kept_apart_follows_its_layers() {
    let mut l = ProjectLayers {
        sorting_layers: vec![],
        layers: strings(&["Enemies", "Props"]),
        no_collide: vec![],
    };
    l.set_collides("Enemies", "Props", false);
    assert_eq!(l.no_collide, vec![("Enemies".to_string(), "Props".to_string())]);
    let (before, after) = l.rename_layer(0, "Foes");
    assert_eq!((before.as_str(), after.as_str()), ("Enemies", "Foes"));
    assert_eq!(l.layers, strings(&["Foes", "Props"]));
    assert_eq!(l.no_collide, vec![("Foes".to_string(), "Props".to_string())]);
    l.set_collides("Props", "Foes", true);
    assert!(l.no_collide.is_empty(), "a pair has no order");
    l.set_collides("Foes", "Props", false);
    assert_eq!(l.remove_layer(1), "Props");
    assert_eq!(l.layers, strings(&["Foes"]));
    assert!(l.no_collide.is_empty());
}

#[test]
fn a_layer_is_added_once_and_where_there_is_room() {
    let mut l =
        ProjectLayers { sorting_layers: vec![], layers: strings(&["A"]), no_collide: vec![] };
    let names = strings(&["Default", "A"]);
    let mut typed = " B ".to_string();
    assert!(l.add_layer(&mut typed, &names));
    assert_eq!((l.layers.clone(), typed.as_str()), (strings(&["A", "B"]), ""));
    let mut typed = "A".to_string();
    assert!(!l.add_layer(&mut typed, &names));
    assert_eq!(typed, "");
    let mut typed = "  ".to_string();
    assert!(!l.add_layer(&mut typed, &names));
    assert_eq!(typed, "  ");
    let full: Vec<String> = (0..32).map(|i| format!("L{i}")).collect();
    let mut typed = "C".to_string();
    assert!(!l.add_layer(&mut typed, &full));
    assert_eq!(l.layers, strings(&["A", "B"]));
}

#[test]
fn removal_takes_two_clicks() {
    let (armed, gone) = remove_click(None, RemoveClick::Ask(2));
    assert_eq!((armed, gone), (Some(2), None));
    assert_eq!(remove_click(armed, RemoveClick::Confirm(1)), (Some(2), None));
    assert_eq!(remove_click(armed, RemoveClick::Ask(1)), (Some(1), None));
    assert_eq!(remove_click(armed, RemoveClick::CallOff), (None, None));
    assert_eq!(remove_click(armed, RemoveClick::Confirm(2)), (None, Some(2)));
}

#[test]
fn what_a_player_needs_is_edited() {
    let a = Access {
        text_scale: PLAIN_SCALE,
        filter: 0,
        strength: 0,
        simulate: false,
        reduced_motion: false,
        captions: false,
    };
    assert_eq!(f32::from_bits(PLAIN_SCALE), 1.0);
    assert!(!shows_correction(a));
    assert_eq!(edit_access(a, AccessEdit::Captions(true)), Some(Access { captions: true, ..a }));
    assert_eq!(edit_access(a, AccessEdit::Strength(7)), None, "it has no row");
    let b = edit_access(a, AccessEdit::Filter(2)).unwrap();
    assert!(shows_correction(b));
    assert_eq!(edit_access(b, AccessEdit::Strength(7)), Some(Access { strength: 7, ..b }));
}

#[test]
fn a_search_is_cleared_where_it_is_typed() {
    let mut s = "pad".to_string();
    clear_search(&mut s, false, false, true);
    assert_eq!(s, "pad", "Escape belongs to others");
    clear_search(&mut s, false, true, true);
    assert_eq!(s, "");
    s = "pad".to_string();
    clear_search(&mut s, true, false, false);
    assert_eq!(s, "");
}

#[test]
fn every_section_stays_in_the_list() {
    let nav = navigation(SettingsSection::Layers, "gamepad");
    assert_eq!(nav.len(), 5);
    for entry in &nav {
        assert_eq!(entry.selected, entry.section == SettingsSection::Layers);
    }
    let input = nav.iter().find(|e| e.section == SettingsSection::Input).unwrap();
    assert!(!input.weak);
    assert!(nav.iter().any(|e| e.weak), "not everything speaks of gamepads");
    assert!(navigation(SettingsSection::Game, "").iter().all(|e| !e.weak));
    assert_eq!(kept_in(SettingsSection::Input), vec!["project.ron", "input.ron"]);
    assert_eq!(kept_in(SettingsSection::Game), vec!["project.ron"]);
}

#[test]
fn every_pair_of_layers_has_one_box() {
    for n in 2..6usize {
        let boxes = collision_matrix(n);
        for a in 0..n {
            for b in 0..n {
                let count = boxes
                    .iter()
                    .filter(|(i, j)| (*i, *j) == (a, b) || (*i, *j) == (b, a))
                    .count();
                assert_eq!(count, 1, "layers {} and {} of {}", a, b, n);
            }
        }
    }
    assert!(collision_matrix(1).is_empty());
}

#[test]
fn a_font_is_saved_once_it_is_typed() {
    let mut font = "fonts/a.ttf".to_string();
    assert!(!font_row(&mut font, false, true, false));
    assert!(font_row(&mut font, true, true, false));
    assert!(!font_row(&mut font, true, false, false));
    assert_eq!(font, "fonts/a.ttf");
    assert!(font_row(&mut font, false, false, true));
    assert_eq!(font, "");
}
