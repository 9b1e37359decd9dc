use floptle_editor::settings_retro::{
    preset_hover, RetroEdit, RetroRows, RetroSettings, COARSEST, FINEST, MAX_COLUMNS, MAX_ROWS,
    MIN_ROWS,
};

fn plain() -> RetroSettings {
    RetroSettings {
        retro: false,
        height: 240,
        width: 0,
        integer_scale: false,
        jitter: 0,
        affine_uv: false,
        vertex_lit: false,
        dither_alpha: false,
        matter: true,
    }
}

#[test]
fn rows_follow_the_settings() {
    let mut s = plain();
    assert_eq!(s.rows(), RetroRows { small_picture: false, from_window: true, steps: false });
    s.retro = true;
    s.width = 320;
    s.jitter = 160.0f32.to_bits();
    assert_eq!(s.rows(), RetroRows { small_picture: true, from_window: false, steps: true });
    s.jitter = (-1.0f32).to_bits();
    assert!(!s.rows().steps, "a grid has more steps than none");
    s.jitter = f32::NAN.to_bits();
    assert!(!s.rows().steps);
}

#[test]
fn greyed_rows_change_nothing() {
    let mut s = plain();
    assert!(!s.edit(RetroEdit::Rows(200)));
    assert!(!s.edit(RetroEdit::Columns(200)));
    assert!(!s.edit(RetroEdit::WholePixels(true)));
    assert!(!s.edit(RetroEdit::Steps(160.0f32.to_bits())));
    assert_eq!(s, plain());
    assert!(s.edit(RetroEdit::Retro(true)));
    assert!(s.edit(RetroEdit::WholePixels(true)));
    assert_eq!(s, RetroSettings { retro: true, integer_scale: true, ..plain() });
}

#[test]
fn numbers_are_held_within_their_ends() {
    let mut s = RetroSettings { retro: true, jitter: 160.0f32.to_bits(), ..plain() };
    assert!(s.edit(RetroEdit::Rows(10)));
    assert_eq!(s.height, MIN_ROWS);
    assert!(s.edit(RetroEdit::Rows(5000)));
    assert_eq!(s.height, MAX_ROWS);
    assert!(s.edit(RetroEdit::Columns(5000)));
    assert_eq!(s.width, MAX_COLUMNS);
    assert!(s.edit(RetroEdit::Steps(3.0f32.to_bits())));
    assert_eq!(f32::from_bits(s.jitter), 20.0);
    assert!(s.edit(RetroEdit::Steps(9000.0f32.to_bits())));
    assert_eq!(f32::from_bits(s.jitter), 512.0);
    assert!(s.edit(RetroEdit::Steps((-20.0f32).to_bits())));
    assert_eq!(f32::from_bits(s.jitter), 20.0, "a number below zero is below both ends");
    assert!(s.edit(RetroEdit::Steps((-0.0f32).to_bits())));
    assert_eq!(f32::from_bits(s.jitter), 20.0);
    assert_eq!((COARSEST, FINEST), (20.0f32.to_bits(), 512.0f32.to_bits()));
    assert_eq!((MIN_ROWS, MAX_ROWS, MAX_COLUMNS), (80, 1080, 1920));
}

#[test]
fn a_named_grid_is_set_once() {
    let mut s = plain();
    let bits = 120.0f32.to_bits();
    assert!(s.edit(RetroEdit::Preset { bits, is_set: false }));
    assert_eq!(s.jitter, bits);
    assert!(!s.edit(RetroEdit::Preset { bits: 0, is_set: true }));
    assert_eq!(s.jitter, bits);
}

#[test]
fn switches_of_the_picture_are_always_there() {
    let mut s = plain();
    assert!(s.edit(RetroEdit::Affine(true)));
    assert!(s.edit(RetroEdit::VertexLit(true)));
    assert!(s.edit(RetroEdit::Dither(true)));
    assert!(s.edit(RetroEdit::Matter(false)));
    assert_eq!(
        s,
        RetroSettings {
            affine_uv: true,
            vertex_lit: true,
            dither_alpha: true,
            matter: false,
            ..plain()
        }
    );
}

#[test]
fn the_name_of_a_grid_says_its_steps() {
    assert_eq!(preset_hover("wobbly", Some("120")), "wobbly\n\n(grid steps: 120)");
    assert_eq!(preset_hover("off", None), "off");
}
