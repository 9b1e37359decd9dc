use floptle_editor::sprite2d::{
    anim_step, animate, draw_offsets, is_flat_2d, map_sheets, mesh_step, page_squares,
    signature_matches, sort_nodes, sprite_cell, tilemap_draws, AnimTile, Depth, FlatKind,
    MaterialSheet, MeshStep, Parallaxed, SheetPage, SortInfo, SortNode, Sorting, Square, TileGpu, TileIndex,
    TileKey, TilePage, TileXform, Tilemaps, TilesetSheet,
};
use floptle_editor::table::Table;

const PLAIN: TileXform = TileXform { turns: 0, flipped: false };

fn cell(page: u32, cell: u32) -> Option<Square> {
    Some(Square { tile: TileIndex { page, cell }, xform: PLAIN })
}

#[test]
fn a_page_draws_the_sheet_it_names() {
    let mut textures = Table::new();
    textures.put("tiles.png", 7);
    textures.put("props.png", 9);
    let material_tex = Some(1);

    let page = |page: u32, texture: Option<&str>| TilePage {
        mesh: page as u64,
        page,
        texture: texture.map(str::to_string),
        empty: false,
    };
    let draw = |pages: Vec<TilePage>| {
        tilemap_draws(&pages, &textures, material_tex)
            .into_iter()
            .map(|(_, t)| t)
            .collect::<Vec<_>>()
    };

    assert_eq!(draw(vec![page(0, Some("tiles.png"))]), vec![Some(7)]);
    assert_eq!(
        draw(vec![page(0, Some("tiles.png")), page(1, Some("props.png"))]),
        vec![Some(7), Some(9)]
    );
    assert_eq!(draw(vec![page(0, None)]), vec![material_tex]);
    assert_eq!(draw(vec![page(0, Some("missing.png"))]), vec![material_tex]);
    assert_eq!(draw(vec![page(0, None), page(1, Some("missing.png"))]), vec![material_tex, None]);
}

#[test]
fn a_page_takes_its_own_squares_and_holes_the_rest() {
    let data = vec![cell(0, 3), cell(1, 0), None, cell(0, 1)];
    let p0 = page_squares(&data, 0, 16).expect("page 0 has squares");
    assert_eq!(p0, vec![cell(0, 3), None, None, cell(0, 1)], "page 0's own numbering");
    let p1 = page_squares(&data, 1, 16).expect("page 1 has squares");
    assert_eq!(p1, vec![None, cell(0, 0), None, None]);
    assert!(page_squares(&data, 2, 16).is_none(), "an unused page builds no mesh");
}

#[test]
fn a_pages_squares_keep_their_orientation() {
    let xf = TileXform { turns: 3, flipped: true };
    let data = vec![Some(Square { tile: TileIndex { page: 2, cell: 7 }, xform: xf })];
    let out = page_squares(&data, 2, 16).expect("page 2 has a square");
    assert_eq!(out[0].unwrap().tile.cell, 7, "renumbered into its page");
    assert_eq!(out[0].unwrap().xform, xf, "and still turned the same way");
}

#[test]
fn a_cell_the_page_does_not_have_is_a_hole() {
    let data = vec![cell(1, 5), cell(1, 99)];
    let out = page_squares(&data, 1, 6).expect("one of the two is real");
    assert_eq!(out, vec![cell(0, 5), None]);
}

#[test]
fn a_grid_from_before_pages_is_unchanged_by_the_split() {
    let data: Vec<Option<Square>> = (0..16).map(|i| cell(0, i)).collect();
    let out = page_squares(&data, 0, 16).expect("all page 0");
    assert_eq!(out, data);
}

/// The order of depths: by layer, then by the step or the place in it.
fn key(d: Depth) -> (u32, i64) {
    match d {
        Depth::Fixed { rank, order } => (rank, order as i64),
        Depth::Ranked { rank, place, .. } => (rank, place as i64),
    }
}

fn node(index: u32, y: i64, order: i32, by_y: bool) -> SortInfo {
    SortInfo {
        entity: index as u64,
        index,
        sorting: Some(Sorting { rank: 0, order, by_y }),
        flat: false,
        drawn: true,
        y,
        x: 0,
    }
}

fn depths(infos: &Vec<SortInfo>) -> Vec<Depth> {
    draw_offsets(&sort_nodes(infos, 0), &vec![])
        .into_iter()
        .map(|o| o.depth.expect("every one of them is sorted"))
        .collect()
}

#[test]
fn a_node_can_parallax_and_sort_at_once() {
    let bits = |x: f64, y: f64| (x.to_bits(), y.to_bits());
    let moved = |entity: u64, identity: bool, x: f64| Parallaxed {
        entity,
        identity,
        shift: bits(x, 0.0),
    };
    let nodes = sort_nodes(&vec![node(1, 0, 4, false)], 0);
    let off = draw_offsets(&nodes, &vec![moved(1, false, 5.0)]);
    assert_eq!(off.len(), 1);
    assert_eq!(off[0].shift, Some(bits(5.0, 0.0)));
    assert_eq!(off[0].depth, Some(Depth::Fixed { rank: 0, order: 4 }));
}

#[test]
fn two_cameras_stack_a_scene_alike() {
    let nodes = sort_nodes(&scene_at(&[3, -1, 7], 0, true), 0);
    let seen = |x: u64| {
        vec![
            Parallaxed { entity: 1, identity: false, shift: (x, 0) },
            Parallaxed { entity: 2, identity: true, shift: (x, x) },
            Parallaxed { entity: 9, identity: false, shift: (x, 0) },
        ]
    };
    let (a, b) = (draw_offsets(&nodes, &seen(5)), draw_offsets(&nodes, &seen(80)));
    assert_eq!(a.len(), 4, "one that is not sorted is moved too");
    for i in 0..a.len() {
        assert_eq!((a[i].entity, a[i].depth), (b[i].entity, b[i].depth));
    }
    assert_eq!((a[1].shift, b[1].shift), (Some((5, 0)), Some((80, 0))));
    assert_eq!((a[2].shift, a[0].shift), (None, None), "these move with the world");
    assert_eq!((a[3].entity, a[3].depth), (9, None));
}

fn scene_at(ys: &[i64], order: i32, by_y: bool) -> Vec<SortInfo> {
    ys.iter().enumerate().map(|(i, y)| node(i as u32, *y, order, by_y)).collect()
}

#[test]
fn a_lower_node_gets_a_nearer_z() {
    let z = depths(&scene_at(&[3, -1, 7], 0, true));
    let (top, middle, bottom) = (key(z[2]), key(z[0]), key(z[1]));
    assert!(bottom > middle, "y=-1 must be in front of y=3");
    assert!(middle > top, "y=3 must be in front of y=7");
}

#[test]
fn nodes_level_in_y_stack_the_same_way_whatever_order_they_were_spawned_in() {
    let places = [(-4, 2), (0, 2), (6, 2)];
    let put = |i: usize, x: i64, y: i64| SortInfo { x, ..node(i as u32, y, 0, true) };
    let first: Vec<SortInfo> =
        places.iter().enumerate().map(|(i, &(x, y))| put(i, x, y)).collect();
    let second: Vec<SortInfo> =
        places.iter().rev().enumerate().map(|(i, &(x, y))| put(i, x, y)).collect();
    let (za, zb) = (depths(&first), depths(&second));
    for i in 0..places.len() {
        assert_eq!(
            za[i],
            zb[places.len() - 1 - i],
            "the node at {:?} landed at a different depth once respawned",
            places[i]
        );
    }
    assert!(key(za[2]) > key(za[1]) && key(za[1]) > key(za[0]), "not ordered by x: {za:?}");
}

#[test]
fn order_wins_over_y() {
    let shadow = node(0, -100, -1, true);
    let hat = node(1, 100, 1, true);
    let body = node(2, 0, 0, true);
    let z = depths(&vec![shadow, hat, body]);
    assert!(key(z[1]) > key(z[2]), "order 1 must beat order 0 whatever Y says");
    assert!(key(z[2]) > key(z[0]), "order -1 must lose to order 0 whatever Y says");
}

#[test]
fn y_breaks_ties_inside_an_order() {
    let z = depths(&scene_at(&[3, -1, 7], 4, true));
    assert!(key(z[1]) > key(z[0]), "y=-1 in front of y=3 at the same order");
    assert!(key(z[0]) > key(z[2]), "y=3 in front of y=7 at the same order");
}

#[test]
fn order_mode_is_unchanged() {
    let infos: Vec<SortInfo> =
        [3, -1, 7].iter().enumerate().map(|(i, y)| node(i as u32, *y, i as i32, false)).collect();
    for (i, d) in depths(&infos).into_iter().enumerate() {
        assert_eq!(d, Depth::Fixed { rank: 0, order: i as i32 });
    }
}

#[test]
fn a_full_layer_stays_inside_itself_and_never_ties() {
    let ys: Vec<i64> = (0..200).collect();
    let z = depths(&scene_at(&ys, 0, true));
    let mut seen: Vec<usize> = z
        .iter()
        .map(|d| match d {
            Depth::Ranked { rank: 0, place, of: 200 } => *place,
            other => panic!("left its layer: {other:?}"),
        })
        .collect();
    seen.sort();
    assert_eq!(seen, (0..200).collect::<Vec<usize>>(), "two nodes share a depth");
}

#[test]
fn un_layered_ground_stays_behind_what_was_put_behind_it() {
    let ground = SortInfo {
        entity: 0,
        index: 0,
        sorting: None,
        flat: is_flat_2d(FlatKind::Tilemap),
        drawn: true,
        y: 0,
        x: 0,
    };
    let infos =
        vec![ground, node(1, 0, -5, false), node(2, 1, -3, false), node(3, 2, -2, true)];
    let z = depths(&infos);
    let gz = key(z[0]);
    for d in &z[1..] {
        assert!(
            key(*d) < gz,
            "a node authored behind the ground came out in front of it: {d:?} vs {gz:?}"
        );
    }
}

#[test]
fn an_exact_tie_is_broken_the_same_way_twice() {
    let infos = scene_at(&[2, 2, 2], 0, true);
    let a = depths(&infos);
    let b = depths(&infos);
    assert_eq!(a, b);
    assert!(a[0] != a[1], "tied nodes must still get distinct depths");
}

#[test]
fn y_sorting_cannot_climb_out_of_its_layer() {
    let mut front = node(0, 1000, 0, true);
    front.sorting = Some(Sorting { rank: 1, order: 0, by_y: true });
    let back = node(1, -1000, 0, true);
    let z = depths(&vec![front, back]);
    assert!(key(z[0]) > key(z[1]), "the front layer must win however low the other node is");
}

#[test]
fn what_is_not_drawn_is_not_sorted() {
    let mut hidden = node(0, 0, 0, true);
    hidden.drawn = false;
    let mut solid = node(1, 0, 0, true);
    solid.sorting = None;
    assert!(sort_nodes(&vec![hidden, solid], 0).is_empty());
    assert!(!is_flat_2d(FlatKind::Other));
    let kept: Vec<SortNode> = sort_nodes(&vec![node(2, 5, 3, false)], 0);
    assert_eq!((kept[0].order, kept[0].y), (3, 5));
}

#[test]
fn a_frame_takes_the_place_of_its_tile() {
    let data = vec![cell(0, 1), None, cell(0, 2)];
    let frames = vec![Some(TileIndex { page: 0, cell: 5 }), None, None];
    assert_eq!(animate(&data, &frames), Some(vec![cell(0, 5), None, cell(0, 2)]));
    assert_eq!(animate(&data, &vec![None, None, None]), None);
}

#[test]
fn the_step_of_an_animation_is_folded_from_all_tiles() {
    let tiles = vec![
        AnimTile { frames: 3, runs: true, steps: 5 },
        AnimTile { frames: 0, runs: true, steps: 9 },
        AnimTile { frames: 1, runs: true, steps: 3 },
    ];
    assert_eq!(anim_step(&tiles, true), 32);
    assert_eq!(anim_step(&tiles, false), 0);
}

fn tile_key(anim_step: u32) -> TileKey {
    TileKey {
        cols: 1,
        rows: 1,
        tile_bits: 0,
        data: vec![cell(0, 1)],
        texel_bits: (0, 0),
        anim_step,
        pages: vec![SheetPage { texture: "a.png".into(), cols: 2, rows: 2 }],
    }
}

#[test]
fn a_map_is_built_again_only_when_something_of_it_changed() {
    assert!(signature_matches(&tile_key(0), &tile_key(0)));
    assert!(!signature_matches(&tile_key(0), &tile_key(1)));
    let mut other = tile_key(0);
    other.pages[0].texture = "b.png".into();
    assert!(!signature_matches(&tile_key(0), &other));

    let mut maps = Tilemaps::new();
    assert!(!maps.is_current(4, &tile_key(0)));
    let page = TilePage { mesh: 70, page: 0, texture: None, empty: false };
    maps.built(TileGpu { entity: 4, pages: vec![page], key: tile_key(0) });
    assert!(maps.is_current(4, &tile_key(0)));
    assert!(!maps.is_current(4, &tile_key(1)));
    assert_eq!(maps.start_rebuild(4), vec![70]);
    assert!(!maps.is_current(4, &tile_key(0)));
    let page = TilePage { mesh: 71, page: 0, texture: None, empty: false };
    maps.built(TileGpu { entity: 4, pages: vec![page], key: tile_key(1) });
    assert!(maps.drop_gone(&vec![4]).is_empty());
    // A node has one map, however often it is built.
    let page = TilePage { mesh: 72, page: 0, texture: None, empty: false };
    maps.built(TileGpu { entity: 4, pages: vec![page], key: tile_key(0) });
    assert_eq!(maps.maps.len(), 1);
    assert!(maps.is_current(4, &tile_key(0)));
    assert_eq!(maps.drop_gone(&Vec::new()), vec![72]);
}

#[test]
fn a_mesh_that_fits_is_used_again() {
    assert_eq!(mesh_step(Some(3), true, 8, 12), MeshStep::Use { mesh: 3 });
    assert_eq!(
        mesh_step(Some(3), false, 8, 12),
        MeshStep::Replace { mesh: 3, vertices: 8, indices: 12 }
    );
    assert_eq!(mesh_step(None, false, 0, 0), MeshStep::Make { vertices: 4, indices: 6 });
}

#[test]
fn the_first_sheet_is_that_of_the_tileset_where_it_names_one() {
    let material = MaterialSheet { texture: Some("m.png".into()), cols: 3, rows: 4 };
    let named = Some(TilesetSheet {
        texture: "t.png".into(),
        cols: 0,
        rows: 2,
        more: vec![SheetPage { texture: "u.png".into(), cols: 1, rows: 1 }],
    });
    let out = map_sheets(&named, &material);
    assert_eq!((out[0].texture.as_str(), out[0].cols, out[0].rows), ("t.png", 1, 2));
    assert_eq!(out[1].texture, "u.png");
    let blank =
        Some(TilesetSheet { texture: "  ".into(), cols: 9, rows: 9, more: Vec::new() });
    let out = map_sheets(&blank, &material);
    assert_eq!((out[0].texture.as_str(), out[0].cols, out[0].rows), ("m.png", 3, 4));
    assert_eq!(map_sheets(&None, &material).len(), 1);
}

#[test]
fn a_sprite_shows_no_cell_beyond_the_last() {
    assert_eq!(sprite_cell(4, 4, 3), Some(3));
    assert_eq!(sprite_cell(4, 4, 99), Some(15));
    assert_eq!(sprite_cell(1, 1, 0), None);
}

#[test]
fn a_tile_that_moves_on_changes_the_step() {
    let tiles: Vec<AnimTile> =
        (0..9).map(|i| AnimTile { frames: 5 + i, runs: true, steps: 7 * i }).collect();
    let still = anim_step(&tiles, true);
    for i in 0..tiles.len() {
        let mut moved = tiles.clone();
        moved[i].steps += 1;
        assert_ne!(anim_step(&moved, true), still, "tile {}", i);
    }
}
