use floptle_editor::lanes::{
    blob_mat_arrays, shape_write, sprite_world_size, surface_lanes, tiling_pack, ShapeKnob,
    ShapePlace, ShapeWrite, SpriteSize, Surface, Tiling, BLOBS, FAR_AWAY, ONE, SHAPE_KNOBS,
    SIXTEEN, TWO,
};

fn bits3(v: [f32; 3]) -> [u32; 3] {
    [v[0].to_bits(), v[1].to_bits(), v[2].to_bits()]
}

fn bits4(v: [f32; 4]) -> [u32; 4] {
    [v[0].to_bits(), v[1].to_bits(), v[2].to_bits(), v[3].to_bits()]
}

fn gold() -> Surface {
    Surface {
        color: bits3([1.0, 0.8, 0.2]),
        emissive: bits3([0.1, 0.2, 0.3]),
        emissive_strength: 2.5f32.to_bits(),
        specular: bits3([0.9, 0.9, 0.7]),
        specular_strength: 0.5f32.to_bits(),
        shininess: 32.0f32.to_bits(),
        rim_strength: 0.25f32.to_bits(),
        unlit: true,
        ambient: 0.75f32.to_bits(),
        rim: bits3([0.4, 0.5, 0.6]),
    }
}

fn place() -> ShapePlace {
    ShapePlace {
        position: bits3([1.0, 2.0, 3.0]),
        scale: 4.0f32.to_bits(),
        rotation: bits4([0.0, 0.0, 0.0, 1.0]),
        bound: 9.0f32.to_bits(),
    }
}

#[test]
fn the_constants_are_the_numbers_they_stand_for() {
    assert_eq!(f32::from_bits(ONE), 1.0);
    assert_eq!(f32::from_bits(TWO), 2.0);
    assert_eq!(f32::from_bits(SIXTEEN), 16.0);
    assert_eq!(f32::from_bits(FAR_AWAY), 1.0e7);
}

#[test]
fn a_material_is_packed_into_five_lanes() {
    let l = surface_lanes(&gold());
    assert_eq!(l.tint, bits4([1.0, 0.8, 0.2, 0.0]));
    assert_eq!(l.emissive, bits4([0.1, 0.2, 0.3, 2.5]));
    assert_eq!(l.specular, bits4([0.9, 0.9, 0.7, 0.5]));
    assert_eq!(l.params, bits4([32.0, 0.25, 1.0, 0.75]));
    assert_eq!(l.rim, bits4([0.4, 0.5, 0.6, 0.0]));
    let lit = Surface { unlit: false, ..gold() };
    assert_eq!(surface_lanes(&lit).params[2], 0);
}

#[test]
fn blobs_fill_a_fixed_number_of_lanes() {
    let out = blob_mat_arrays(&vec![gold()]);
    assert_eq!(out.len(), BLOBS);
    assert_eq!(out[0], surface_lanes(&gold()));
    assert_eq!(out[1].tint, bits4([1.0, 1.0, 1.0, 0.0]));
    assert_eq!(out[15].params, bits4([16.0, 0.0, 0.0, 1.0]));
    assert_eq!(out[15].specular, bits4([1.0, 1.0, 1.0, 0.0]));
    assert_eq!(out[15].emissive, [0; 4]);
    assert_eq!(blob_mat_arrays(&vec![gold(); 40]).len(), BLOBS);
}

#[test]
fn a_parked_shape_is_out_of_reach() {
    let w = shape_write(true, &place(), &Some(gold()), &vec![]);
    match w {
        ShapeWrite::Parked { pos, aux } => {
            assert_eq!(pos, bits4([1.0e7, 1.0e7, 1.0e7, 1.0]));
            assert_eq!(aux, [0; 4]);
        }
        _ => panic!("it is parked"),
    }
}

#[test]
fn a_live_shape_writes_where_it_stands_and_its_knobs() {
    let own = [7, 7, 7, 7];
    let mut knobs = vec![ShapeKnob { default: [1, 2, 3, 4], set: Some(own) }];
    for _ in 0..30 {
        knobs.push(ShapeKnob { default: [1, 2, 3, 4], set: None });
    }
    match shape_write(false, &place(), &Some(gold()), &knobs) {
        ShapeWrite::Live { pos, rot, aux, knobs, surface } => {
            assert_eq!(pos, bits4([1.0, 2.0, 3.0, 4.0]));
            assert_eq!(rot, bits4([0.0, 0.0, 0.0, 1.0]));
            assert_eq!(aux, bits4([9.0, 0.0, 0.0, 0.0]));
            assert_eq!(knobs.len(), SHAPE_KNOBS);
            assert_eq!(knobs[0], own);
            assert_eq!(knobs[15], [1, 2, 3, 4]);
            assert_eq!(surface, Some(surface_lanes(&gold())));
        }
        _ => panic!("it is there"),
    }
    match shape_write(false, &place(), &None, &knobs) {
        ShapeWrite::Live { knobs, surface, .. } => {
            assert!(knobs.is_empty() && surface.is_none());
        }
        _ => panic!("it is there"),
    }
}

#[test]
fn tilings_are_packed_into_two_lanes() {
    let uv = Tiling::Uv {
        count: [2.0f32.to_bits(), 3.0f32.to_bits()],
        offset: [0.5f32.to_bits(), 0.25f32.to_bits()],
        radians: 1.5f32.to_bits(),
    };
    assert_eq!(tiling_pack(&uv), (bits4([2.0, 3.0, 0.5, 0.25]), bits4([1.0, 1.5, 0.0, 0.0])));
    let tri = Tiling::Triplanar { scale: 0.5f32.to_bits(), blend: 4.0f32.to_bits() };
    assert_eq!(tiling_pack(&tri), ([0; 4], bits4([2.0, 0.0, 0.5, 4.0])));
}

#[test]
fn a_sprite_has_its_own_size_until_its_image_is_there() {
    assert_eq!(
        sprite_world_size(true, true, 4, 0),
        SpriteSize::FromImage { cols: 4, rows: 1 }
    );
    assert_eq!(sprite_world_size(true, false, 4, 2), SpriteSize::Own);
    assert_eq!(sprite_world_size(false, true, 4, 2), SpriteSize::Own);
}

/// The edge of a sprite, with one size for what it says and one for its image.
fn edge(s: SpriteSize, own: f32, image: f32, per_unit: f32) -> f32 {
    match s {
        SpriteSize::FromImage { cols, .. } => image / cols as f32 / per_unit,
        SpriteSize::Own => own,
    }
}

#[test]
fn pixels_per_unit_measures_a_cell_not_the_sheet() {
    let w = edge(sprite_world_size(true, true, 4, 4), 1.0, 128.0, 32.0);
    assert!((w - 1.0).abs() < 1e-4, "a 32px cell at 32 ppu must be one unit, got {w}");
}

#[test]
fn a_pixel_sized_sprite_without_its_texture_still_draws() {
    let w = edge(sprite_world_size(true, false, 1, 1), 2.0, 0.0, 32.0);
    assert!((w - 2.0).abs() < 1e-4, "{w}");
}
