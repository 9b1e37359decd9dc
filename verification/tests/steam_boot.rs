use floptle_editor::steam_boot::{
    boot, resolve_app_id, BootOutcome, BootStep, SteamProjectSettings,
};

#[test]
fn no_steam_settings_and_not_forced_stays_untouched() {
    assert_eq!(resolve_app_id(None, false), None);
}

#[test]
fn no_steam_settings_but_forced_falls_back_to_spacewar() {
    assert_eq!(resolve_app_id(None, true), Some(480));
}

#[test]
fn steam_settings_with_no_id_falls_back_to_spacewar() {
    let s = SteamProjectSettings { app_id: 0 };
    assert_eq!(resolve_app_id(Some(s), false), Some(480));
}

#[test]
fn steam_settings_with_an_id_use_it_exactly() {
    let s = SteamProjectSettings { app_id: 12345 };
    assert_eq!(resolve_app_id(Some(s), false), Some(12345));
}

#[test]
fn a_game_goes_on_without_steam() {
    assert!(matches!(boot(480, &BootOutcome::Restart), BootStep::Exit));
    match boot(480, &BootOutcome::Ready) {
        BootStep::With { say } => assert_eq!(say, "steam: initialized (app 480)"),
        _ => panic!("it is there"),
    }
    match boot(480, &BootOutcome::Failed { why: "not running".to_string() }) {
        BootStep::Without { warn } => assert_eq!(
            warn,
            "steam: could not initialize (not running) — continuing without it"
        ),
        _ => panic!("it goes on"),
    }
    match boot(7, &BootOutcome::NotBuilt) {
        BootStep::Without { warn } => assert_eq!(
            warn,
            "steam: this build has no `steam` feature compiled in — app 7 requested, continuing without it"
        ),
        _ => panic!("it goes on"),
    }
}
