use floptle_editor::shader_preview::{
    bind_groups, checkerboard, first_user, global_lane, lane_writes, param_lane, slot_textures,
    tiles, Binding, CompiledPreview, LaneWrite, Literal, LiveSlot, Resource, ShaderGraphPreview,
    Stage, TILE_PX,
};
use floptle_editor::table::Table;

fn compiled(wgsl: &str, stage: Stage, textures: usize) -> CompiledPreview {
    CompiledPreview { wgsl: wgsl.to_string(), stage, textures, cols: 2, rows: 3 }
}

#[test]
fn an_unchanged_graph_builds_nothing() {
    let mut p = ShaderGraphPreview::new();
    let c = compiled("a", Stage::Fragment, 1);
    assert!(p.needs_pipeline(&c));
    p.pipeline_built(&c);
    assert!(!p.needs_pipeline(&compiled("a", Stage::Fragment, 1)));
    assert!(p.needs_pipeline(&compiled("b", Stage::Fragment, 1)));
    assert!(p.needs_pipeline(&compiled("a", Stage::Sky, 1)));
    assert!(p.needs_pipeline(&compiled("a", Stage::Fragment, 2)));
}

#[test]
fn a_failure_stays_until_pictures_are_drawn() {
    let mut p = ShaderGraphPreview::new();
    p.not_compiled("bad");
    assert_eq!(p.err, Some("bad".to_string()));
    p.refused("no");
    assert_eq!(p.err, Some("preview shader rejected: no".to_string()));
    p.drawn();
    assert_eq!(p.err, None);
    assert!(p.runs(true, true, true));
    assert!(!p.runs(false, true, true) && !p.runs(true, false, true) && !p.runs(true, true, false));
    p.enabled = false;
    assert!(!p.runs(true, true, true));
}

#[test]
fn the_sheet_is_made_anew_for_another_grid() {
    let mut p = ShaderGraphPreview::new();
    assert_eq!(p.fit_atlas(2, 3), Some((2 * TILE_PX, 3 * TILE_PX)));
    assert_eq!(p.fit_atlas(2, 3), None);
    assert_eq!((p.tile_cell(0), p.tile_cell(3), p.tile_cell(5)), ((0, 0), (1, 1), (1, 2)));
    assert_eq!(p.fit_atlas(3, 2), Some((3 * TILE_PX, 2 * TILE_PX)));
}

#[test]
fn textures_are_bound_where_they_are_others() {
    let mut p = ShaderGraphPreview::new();
    assert!(p.bind(false, &vec![Some(1), None], None));
    assert!(!p.bind(false, &vec![Some(1), None], None));
    assert!(p.bind(true, &vec![Some(1), None], None));
    assert!(p.bind(false, &vec![Some(1), Some(2)], None));
    assert!(p.bind(false, &vec![Some(1), Some(2)], Some(4)));
    assert!(!p.bind(false, &vec![Some(1), Some(2)], Some(4)));
}

#[test]
fn the_first_material_of_the_shader_lends_its_textures() {
    let s = |t: &str| Some(t.to_string());
    assert_eq!(first_user(&vec![None, s("b"), s("a"), s("a")], "a"), Some(2));
    assert_eq!(first_user(&vec![None, s("b")], "a"), None);
    let mut mat: Table<u64> = Table::new();
    mat.put("albedo", 7);
    let slots = vec!["bump".to_string(), "albedo".to_string()];
    assert_eq!(slot_textures(&slots, Some(&mat)), vec![None, Some(7)]);
    assert_eq!(slot_textures(&slots, None), vec![None, None]);
}

#[test]
fn every_node_has_its_tile() {
    let t = tiles(&vec![30, 40, 30]);
    assert_eq!((t.get(&30), t.get(&40), t.get(&50)), (Some(&2), Some(&1), None));
}

#[test]
fn a_missing_texture_is_a_checkerboard() {
    let board = checkerboard();
    assert_eq!(board.len(), 64 * 64 * 4);
    assert_eq!(board[..4], [190, 190, 195, 255]);
    assert_eq!(board[8 * 4..8 * 4 + 4], [120, 120, 126, 255]);
    assert_eq!(board[(8 * 64 + 8) * 4..(8 * 64 + 8) * 4 + 4], [190, 190, 195, 255]);
}

#[test]
fn values_do_not_share_lanes() {
    let s = |literal: Literal, lanes: u8| LiveSlot { literal, lanes };
    let slots = vec![
        s(Literal::Number, 1),
        s(Literal::Other, 3),
        s(Literal::Colour, 4),
        s(Literal::Number, 4),
        s(Literal::Number, 1),
    ];
    assert_eq!(
        lane_writes(&slots),
        vec![
            LaneWrite { slot: 0, lane: 4 },
            LaneWrite { slot: 2, lane: 8 },
            LaneWrite { slot: 4, lane: 16 },
        ]
    );
    let many = vec![s(Literal::Number, 1); 300];
    let writes = lane_writes(&many);
    assert_eq!(writes.len(), 256);
    assert_eq!(writes[255].lane, 259);
}

#[test]
fn knobs_have_sixteen_places() {
    assert_eq!(global_lane(Stage::Sdf, 0), Some(8));
    assert_eq!(global_lane(Stage::Sdf, 15), Some(68));
    assert_eq!(global_lane(Stage::Sdf, 16), None);
    assert_eq!(global_lane(Stage::Fragment, 0), None);
    assert_eq!(param_lane(Stage::Sky, 3), Some(12));
    assert_eq!(param_lane(Stage::Sdf, 3), None);
    assert_eq!(param_lane(Stage::Fragment, 16), None);
}

#[test]
fn bindings_are_numbered_in_order() {
    let b = |number: u32, resource: Resource| Binding { number, resource };
    assert_eq!(
        bind_groups(Stage::Sdf, 3),
        vec![vec![b(0, Resource::Globals), b(1, Resource::Grid)]]
    );
    let groups = bind_groups(Stage::Fragment, 2);
    assert_eq!(
        groups[0],
        vec![b(0, Resource::Light), b(1, Resource::Globals), b(2, Resource::Grid)]
    );
    assert_eq!(groups[1], vec![b(0, Resource::BaseTexture), b(1, Resource::Sampler)]);
    assert_eq!(
        groups[2],
        vec![
            b(0, Resource::Params),
            b(1, Resource::SlotTexture(0)),
            b(2, Resource::Sampler),
            b(3, Resource::SlotTexture(1)),
            b(4, Resource::Sampler),
        ]
    );
}
