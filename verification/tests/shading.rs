use floptle_editor::shading::{
    atmospheres, collect_shadow_proxies, emitter_lane, fill, first_on, focus_node, fog_at,
    frame_switches, layer_mask, material_draw, post_process, skybox, split_point_lights, stars, sun,
    tonemap, underwater_at, water_infos, AoMode, Candidate, EmitterShape, FocusLens, Fog, Largest,
    Lens, LightNode, LightSlot, LightSwitches, MaterialTextures, NamedNode, Proxy, ProxyShape,
    SceneNode, ShadowNode, Sky, Smallest, Sun, Water,
};
use floptle_editor::table::Table;

/// A light of a scene that is looked at from the middle.
struct Lamp {
    x: f64,
    intensity: f32,
    range: f32,
    disabled: bool,
    mode: Lit2D,
    layers: Vec<String>,
}

const COLOR: [f32; 3] = [1.0, 0.5, 0.25];

fn lamp(x: f64) -> Lamp {
    Lamp { x, intensity: 2.0, range: 8.0, disabled: false, mode: Lit2D::Auto, layers: vec![] }
}

fn lamp_2d(x: f64, mode: Lit2D) -> Lamp {
    Lamp { mode, ..lamp(x) }
}

/// How much a light matters to a camera at `cam`: its brightness, fading with the
/// distance beyond its range.
fn score(l: &Lamp, cam: f64) -> i64 {
    let bright =
        (0.2126 * COLOR[0] + 0.7152 * COLOR[1] + 0.0722 * COLOR[2]).max(0.0) * l.intensity;
    let gap = (l.x - cam).abs() as f32 - l.range;
    (bright / gap.max(1.0)).to_bits() as i64
}

/// What a lamp says of the two ways of lighting.
#[derive(Clone, Copy)]
enum Lit2D {
    /// It goes by the camera.
    Auto,
    Yes,
    No,
}

fn nodes(lamps: &[Lamp], cam: f64, flat_camera: bool) -> Vec<LightNode> {
    lamps
        .iter()
        .enumerate()
        .map(|(i, l)| LightNode {
            order: i as u32,
            on: l.intensity > 0.0 && l.range > 0.0,
            disabled: l.disabled,
            flat: match l.mode {
                Lit2D::Auto => flat_camera,
                Lit2D::Yes => true,
                Lit2D::No => false,
            },
            layers: l.layers.clone(),
            score: score(l, cam),
        })
        .collect()
}

fn layers() -> Vec<String> {
    vec!["Default".into(), "Terrain".into(), "Characters".into()]
}

#[test]
fn a_light_lands_on_one_side_and_only_one() {
    let world = [lamp(0.0), lamp_2d(1.0, Lit2D::No)];

    // Flat scene: auto is 2D, the stated 3D one is not.
    let s = split_point_lights(&nodes(&world, 0.0, true), &layers());
    assert_eq!((s.two_d.len(), s.three_d.len()), (1, 1));
    // Perspective scene: both are 3D and nothing is on the 2D side.
    let s = split_point_lights(&nodes(&world, 0.0, false), &layers());
    assert_eq!((s.two_d.len(), s.three_d.len()), (0, 2));
}

#[test]
fn a_scene_with_no_2d_lights_shades_as_it_always_did() {
    let world = [lamp(3.0), lamp(-2.0)];
    let cam = 1.0;
    let s = split_point_lights(&nodes(&world, cam, false), &layers());
    let first = &world[s.three_d[0].light];
    let pos = [(first.x - cam) as f32, 0.0, 0.0, first.range.max(0.0001)];
    let col = [
        COLOR[0] * first.intensity,
        COLOR[1] * first.intensity,
        COLOR[2] * first.intensity,
        0.0,
    ];
    assert_eq!(s.three_d.len(), 2, "both lights are 3D in a perspective scene");
    assert_eq!(pos, [2.0, 0.0, 0.0, 8.0], "camera-relative, range in w");
    assert_eq!(col, [2.0, 1.0, 0.5, 0.0], "colour times intensity");
}

#[test]
fn a_light_that_names_no_layers_arrives_reaching_all_of_them() {
    let world = [lamp_2d(0.0, Lit2D::Yes)];
    let s = split_point_lights(&nodes(&world, 0.0, false), &layers());
    assert_eq!(s.two_d.len(), 1);
    assert_eq!(s.two_d[0].mask, [!0u32; 4], "the mask must be all-ones, never zero");
}

#[test]
fn named_layers_become_rank_bits() {
    let mut l = lamp_2d(0.0, Lit2D::Yes);
    l.layers = vec!["Characters".into(), "Gone".into()];
    let s = split_point_lights(&nodes(&[l], 0.0, false), &layers());
    assert_eq!(s.two_d[0].mask, [1 << 2, 0, 0, 0], "only Characters, which is rank 2");
}

#[test]
fn a_layer_past_the_thirty_second_still_gets_a_bit() {
    let names: Vec<String> = (0..40).map(|i| format!("layer{i}")).collect();
    let mut l = lamp_2d(0.0, Lit2D::Yes);
    l.layers = vec!["layer35".into()];
    let s = split_point_lights(&nodes(&[l], 0.0, false), &names);
    assert_eq!(s.two_d[0].mask, [0, 1 << 3, 0, 0], "rank 35 is bit 3 of word 1");
}

#[test]
fn a_light_switched_off_does_not_hold_a_slot() {
    let mut dark = lamp(0.0);
    dark.intensity = 0.0;
    let mut spent = lamp(1.0);
    spent.intensity = 1.0;
    spent.range = 0.0;
    let world = [dark, spent, lamp(2.0)];

    let s = split_point_lights(&nodes(&world, 0.0, false), &layers());
    assert_eq!(s.three_d.len(), 1, "a parked light took a slot");
    assert_eq!(world[s.three_d[0].light].x, 2.0, "…and the wrong one survived");
}

#[test]
fn a_switched_off_node_does_not_light_the_scene() {
    let mut off = lamp(0.0);
    off.disabled = true;
    // A child of a disabled node, which is how a prefab actually carries its
    // light: it is off with its parent.
    let mut child = lamp(1.0);
    child.disabled = off.disabled;
    let world = [off, child, lamp(2.0)];

    let s = split_point_lights(&nodes(&world, 0.0, false), &layers());
    assert_eq!(s.three_d.len(), 1, "a disabled node's light still lit the scene");
    assert_eq!(world[s.three_d[0].light].x, 2.0, "…and it was the wrong one that survived");
    assert_eq!(s.dropped, 0, "nothing was dropped — they never qualified");
}

#[test]
fn the_chosen_sixteen_do_not_depend_on_iteration_order() {
    let build = |near_first: bool| {
        let xs: Vec<i32> = if near_first { (0..24).collect() } else { (0..24).rev().collect() };
        let world: Vec<Lamp> = xs.iter().map(|x| lamp(*x as f64 * 10.0)).collect();
        let s = split_point_lights(&nodes(&world, 0.0, false), &layers());
        let mut got: Vec<i32> =
            s.three_d.iter().map(|l| world[l.light].x.round() as i32).collect();
        got.sort_unstable();
        got
    };
    let near_first = build(true);
    assert_eq!(near_first.len(), 16, "the cap still caps");
    assert_eq!(near_first, build(false), "the same scene chose a different sixteen");
    // …and it kept the ones nearest the camera, not the first it happened to walk
    // over.
    assert_eq!(near_first, (0..16).map(|i| i * 10).collect::<Vec<_>>());
}

#[test]
fn lights_made_in_another_order_light_the_same() {
    // Forty lamps, half of them flat, no two alike; then the same ones made the other way
    // round, so that each has another number.
    let lamps = |way: bool| {
        let mut v: Vec<Lamp> = (0..40)
            .map(|i| lamp_2d(12.0 + i as f64 * 3.0, if i % 2 == 0 { Lit2D::Yes } else { Lit2D::No }))
            .collect();
        if way {
            v.reverse();
        }
        v
    };
    let lit = |world: &[Lamp]| {
        let s = split_point_lights(&nodes(world, 0.0, false), &layers());
        let xs = |slots: &[LightSlot]| {
            let mut v: Vec<i64> = slots.iter().map(|l| world[l.light].x as i64).collect();
            v.sort_unstable();
            v
        };
        (xs(&s.two_d), xs(&s.three_d), s.dropped)
    };
    let (a, b) = (lit(&lamps(false)), lit(&lamps(true)));
    assert_eq!(a, b);
    assert_eq!((a.0.len(), a.1.len(), a.2), (16, 16, 8));
    assert_eq!(a.0, (0..16).map(|i| 12 + i * 6).collect::<Vec<i64>>(), "the nearest are kept");
}

#[test]
fn each_side_fills_its_own_sixteen() {
    let mut world: Vec<Lamp> = (0..20).map(|i| lamp_2d(i as f64, Lit2D::Yes)).collect();
    world.extend((0..3).map(|i| lamp_2d(i as f64, Lit2D::No)));
    let s = split_point_lights(&nodes(&world, 0.0, false), &layers());
    assert_eq!(s.two_d.len(), 16, "the 2D side fills up");
    assert_eq!(s.three_d.len(), 3, "…and the 3D side still gets all of its own");
    assert_eq!(s.dropped, 4);
}

#[test]
fn a_light_past_the_last_bit_has_none() {
    let names: Vec<String> = (0..130).map(|i| format!("layer{i}")).collect();
    assert_eq!(layer_mask(&vec!["layer127".into()], &names), [0, 0, 0, 1 << 31]);
    assert_eq!(layer_mask(&vec!["layer128".into()], &names), [0; 4]);
}

#[test]
fn equal_lights_are_chosen_by_their_number() {
    let lights: Vec<Candidate> =
        (0..20).rev().map(|order| Candidate { score: 1, order }).collect();
    let mut chosen: Vec<u32> = fill(&lights).iter().map(|i| lights[*i].order).collect();
    assert_eq!(chosen[0], 0);
    chosen.sort_unstable();
    assert_eq!(chosen, (0..16).collect::<Vec<_>>());
    let few: Vec<Candidate> = (0..3).rev().map(|order| Candidate { score: 1, order }).collect();
    assert_eq!(fill(&few), vec![0, 1, 2]);
}

#[test]
fn an_emitter_is_a_number_and_bits() {
    assert_eq!(emitter_lane(EmitterShape::Point, false), (0, 0));
    assert_eq!(emitter_lane(EmitterShape::Sphere, true), (1, 2));
    assert_eq!(emitter_lane(EmitterShape::Rect { two_sided: true }, true), (2, 3));
    assert_eq!(emitter_lane(EmitterShape::Disk { two_sided: false }, false), (3, 0));
    assert_eq!(emitter_lane(EmitterShape::Tube, true), (4, 2));
}

#[test]
fn four_skies_and_four_stars_are_enough() {
    let depths: Vec<Smallest> = [5, 1, 4, 2, 3].iter().map(|k| Smallest { key: *k }).collect();
    assert_eq!(atmospheres(&depths), vec![1, 3, 4, 2]);
    let bright: Vec<Largest> = [5, 1, 4, 2, 3].iter().map(|k| Largest { key: *k }).collect();
    assert_eq!(stars(true, &bright), vec![0, 2, 4, 3]);
    assert!(stars(false, &bright).is_empty());
    assert_eq!(sun(true, &bright), Sun::Star(0));
    assert_eq!(sun(false, &bright), Sun::Direction);
    assert_eq!(sun(true, &vec![]), Sun::Direction);
}

#[test]
fn what_moves_casts_its_shadow_first() {
    let node = |entity: u64, has_body: bool, shape: Option<ProxyShape>| ShadowNode {
        entity,
        casts: true,
        visible: true,
        has_body,
        shape,
    };
    let bodies = vec![node(1, true, Some(ProxyShape::BodyBox))];
    let hidden = ShadowNode { visible: false, ..node(4, false, Some(ProxyShape::Cube)) };
    let bright = ShadowNode { casts: false, ..node(5, false, Some(ProxyShape::Cube)) };
    let solids = vec![
        node(1, true, Some(ProxyShape::Cube)),
        hidden,
        bright,
        node(2, false, Some(ProxyShape::Sphere)),
        node(3, false, None),
    ];
    assert_eq!(
        collect_shadow_proxies(&bodies, &solids, true),
        vec![
            Proxy { entity: 1, shape: ProxyShape::BodyBox },
            Proxy { entity: 2, shape: ProxyShape::Sphere },
        ]
    );
    assert!(collect_shadow_proxies(&bodies, &solids, false).is_empty());
}

#[test]
fn the_first_lens_that_is_on_counts() {
    let off = SceneNode { is_one: true, disabled: true };
    let other = SceneNode { is_one: false, disabled: false };
    let on = SceneNode { is_one: true, disabled: false };
    let scene = vec![other, off, on];
    assert_eq!(first_on(&scene), Some(2));
    let fx = |enabled: bool, ao: AoMode| {
        vec![(true, AoMode::Off), (true, AoMode::Off), (enabled, ao)]
    };
    assert_eq!(
        post_process(&scene, &fx(true, AoMode::ScreenSpace)),
        Lens::On { node: 2, ssao: true, sdf_ao: false }
    );
    assert_eq!(
        post_process(&scene, &fx(true, AoMode::Sdf)),
        Lens::On { node: 2, ssao: false, sdf_ao: true }
    );
    assert_eq!(post_process(&scene, &fx(false, AoMode::Sdf)), Lens::Off);
    assert_eq!(first_on(&vec![]), None);
    assert_eq!((tonemap(2, 3), tonemap(3, 3)), (2, 0));
}

#[test]
fn the_picture_is_focused_on_a_name() {
    let lens = |enabled: bool, target: &str| FocusLens {
        disabled: false,
        enabled,
        target: target.to_string(),
    };
    let node = |name: &str, disabled: bool| NamedNode { name: name.to_string(), disabled };
    let scene = vec![node("Hero", true), node("Other", false), node("Hero", false)];
    assert_eq!(focus_node(&vec![lens(true, "Hero")], &scene), Some(2));
    assert_eq!(focus_node(&vec![lens(true, "Nobody")], &scene), None);
    assert_eq!(focus_node(&vec![], &scene), None);
}

#[test]
fn the_deepest_water_is_the_one() {
    let w = |depth: Option<u64>, disabled: bool, frozen: bool| Water { frozen, disabled, depth };
    let waters =
        vec![w(Some(3), false, false), w(Some(9), true, false), w(Some(5), false, false), w(None, false, false)];
    assert_eq!(underwater_at(&waters), Some(2));
    assert_eq!(underwater_at(&vec![w(Some(1), false, true)]), None);
    assert_eq!(water_infos(&waters).len(), 3);
    assert_eq!(fog_at(Some(2), true, true), Fog::Water { volume: 2 });
    assert_eq!(fog_at(None, true, true), Fog::Volumetric);
    assert_eq!(fog_at(None, true, false), Fog::Distance { on: true });
    assert_eq!(fog_at(None, false, true), Fog::Distance { on: false });
}

#[test]
fn switches_that_need_something_wait_for_it() {
    let l = LightSwitches {
        shadows: false,
        contact_shadows: true,
        contact_steps: 1,
        reflections: true,
        reflection_steps: 100,
        fog_shafts: true,
        fog_steps: 12,
    };
    let f = frame_switches(l, false, true);
    assert_eq!((f.contact_shadows, f.reflections, f.fog_shafts), (false, false, true));
    assert_eq!((f.contact_steps, f.reflection_steps, f.fog_steps), (2, 64, 12));
    let f = frame_switches(LightSwitches { shadows: true, ..l }, true, false);
    assert_eq!((f.contact_shadows, f.reflections, f.fog_shafts), (true, true, false));
}

#[test]
fn a_material_is_drawn_with_its_own_texture() {
    let mut registry: Table<u64> = Table::new();
    registry.put("wood.png", 3);
    registry.put("bump.png", 4);
    let none: [Option<String>; 4] = [None, None, None, None];
    let maps = [None, Some("bump.png".to_string()), Some("lost.png".to_string()), None];
    let wood = Some("wood.png".to_string());
    assert_eq!(
        material_draw(&registry, &wood, Some(9), false, &none),
        MaterialTextures::Plain(Some(3))
    );
    assert_eq!(
        material_draw(&registry, &None, Some(9), false, &none),
        MaterialTextures::Plain(Some(9))
    );
    assert_eq!(
        material_draw(&registry, &wood, None, true, &maps),
        MaterialTextures::Mapped { base: Some(3), maps: [None, Some(4), None, None] }
    );
}

#[test]
fn the_first_sky_that_is_on_is_seen() {
    let node = |is_one: bool, disabled: bool| SceneNode { is_one, disabled };
    let nodes = vec![node(false, false), node(true, true), node(true, false), node(true, false)];
    assert_eq!(
        skybox(&nodes, &vec![false, true, true, false]),
        Sky::Of { node: 2, textured: true }
    );
    assert_eq!(skybox(&vec![node(true, true)], &vec![true]), Sky::Dark);
    assert_eq!(skybox(&vec![], &vec![]), Sky::Dark);
}
